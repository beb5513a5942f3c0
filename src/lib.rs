//! Keeps a locally running client's embedded web UI patched: the decisions of
//! discovery, connection retry, patch application and log watching, each with
//! its contract. The side that talks to the network and the disk calls into
//! these functions and performs what they decide.
pub mod text;
pub mod log_watch;
pub mod discovery;
pub mod connection;
pub mod patching;
pub mod orchestrator;
