//! The patch cycle (connect, apply the patches, reload the page) and the facts
//! it starts from: whether the client runs, and where its log lies.
use vstd::prelude::*;

verus! {

/// The process name of the client.
pub const PROCESS_NAME: &'static str = "steam";

/// What comes before the user's name in the log's path.
pub const LOG_PATH_HEAD: &'static str = "/home/";

/// What follows the user's name in the log's path.
pub const LOG_PATH_TAIL: &'static str = "/.local/share/Steam/logs/bootstrap_log.txt";

/// Whether the client is among the running processes, given their names.
pub fn is_client_running(process_names: &Vec<String>) -> (r: bool)
    ensures
        r == exists|i: int| 0 <= i < process_names@.len() && (#[trigger] process_names@[i])@ == PROCESS_NAME@,
{
    let wanted = String::from_str(PROCESS_NAME);
    let mut i: usize = 0;
    while i < process_names.len()
        invariant
            i <= process_names@.len(),
            wanted@ == PROCESS_NAME@,
            forall|j: int| 0 <= j < i ==> (#[trigger] process_names@[j])@ != PROCESS_NAME@,
        decreases process_names@.len() - i,
    {
        if process_names[i] == wanted {
            return true;
        }
        i = i + 1;
    }
    false
}

/// The path of the log that the client writes, for the user `username`.
pub fn log_path_for(username: &str) -> (r: String)
    ensures
        r@ == LOG_PATH_HEAD@ + username@ + LOG_PATH_TAIL@,
{
    let mut path = String::from_str(LOG_PATH_HEAD);
    path.append(username);
    path.append(LOG_PATH_TAIL);
    path
}

/// The stages of one patch cycle.
#[derive(Clone, Copy, Debug, PartialEq, Eq, Structural)]
pub enum CycleStep {
    /// Discover the target and open a connection.
    Connect,
    /// Apply the device's patches to the client's files.
    ApplyPatches,
    /// Send the page-reload command.
    Reload,
    /// The cycle is over.
    Finished,
}

/// The stage that follows `step` when it ended with success `ok`: without a
/// connection the cycle is abandoned; a failed patch is reported and the page
/// is reloaded all the same.
pub open spec fn step_after(step: CycleStep, ok: bool) -> CycleStep {
    match step {
        CycleStep::Connect => if ok {
            CycleStep::ApplyPatches
        } else {
            CycleStep::Finished
        },
        CycleStep::ApplyPatches => CycleStep::Reload,
        CycleStep::Reload => CycleStep::Finished,
        CycleStep::Finished => CycleStep::Finished,
    }
}

/// The stage with which a cycle begins.
pub fn first_step() -> (r: CycleStep)
    ensures
        r == CycleStep::Connect,
{
    CycleStep::Connect
}

/// The stage that follows `step`, which ended with success `ok`.
pub fn next_step(step: CycleStep, ok: bool) -> (r: CycleStep)
    ensures
        r == step_after(step, ok),
{
    match step {
        CycleStep::Connect => if ok {
            CycleStep::ApplyPatches
        } else {
            CycleStep::Finished
        },
        CycleStep::ApplyPatches => CycleStep::Reload,
        CycleStep::Reload => CycleStep::Finished,
        CycleStep::Finished => CycleStep::Finished,
    }
}

} // verus!
