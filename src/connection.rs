//! The connection's send policy: a bounded number of attempts, with a fresh
//! discovery and connect after each failure; and the messages it carries.
use vstd::prelude::*;

verus! {

/// How many times one message is tried before it is dropped.
pub const SEND_ATTEMPTS: u32 = 3;

/// The page-reload command, as it goes on the wire.
pub const RELOAD_MESSAGE: &'static str = "{\"id\":1,\"method\":\"Page.reload\"}";

/// What stands before the quoted expression in an evaluate command.
pub const EVALUATE_PREFIX: &'static str = "{\"id\":1,\"method\":\"Runtime.evaluate\",\"params\":{\"expression\":";

/// What closes an evaluate command after the quoted expression.
pub const EVALUATE_SUFFIX: &'static str = "}}";

/// The JSON string literal that stands for `s`, quotes and escapes included.
pub uninterp spec fn json_quoted(s: Seq<char>) -> Seq<char>;

/// Relies on serde_json: `Value::from(&str)` and its compact `Display` write
/// the string as one JSON string literal.
#[verifier::external_body]
fn quote_json(s: &str) -> (r: String)
    ensures
        r@ == json_quoted(s@),
{
    serde_json::Value::from(s).to_string()
}

/// The command that makes the page reload.
pub fn reload_message() -> (r: String)
    ensures
        r@ == RELOAD_MESSAGE@,
{
    String::from_str(RELOAD_MESSAGE)
}

/// The command that evaluates `expression` as a script in the page.
pub fn evaluate_message(expression: &str) -> (r: String)
    ensures
        r@ == EVALUATE_PREFIX@ + json_quoted(expression@) + EVALUATE_SUFFIX@,
{
    let quoted = quote_json(expression);
    frame_evaluate(quoted.as_str())
}

/// The evaluate command around an expression already written as a JSON string
/// literal.
pub fn frame_evaluate(quoted: &str) -> (r: String)
    ensures
        r@ == EVALUATE_PREFIX@ + quoted@ + EVALUATE_SUFFIX@,
{
    let mut m = String::from_str(EVALUATE_PREFIX);
    m.append(quoted);
    m.append(EVALUATE_SUFFIX);
    m
}

/// What the sender does next.
#[derive(Clone, Copy, Debug, PartialEq, Eq, Structural)]
pub enum SendStep {
    /// Try to send the message on the held connection.
    Send,
    /// The last try failed: discover and connect again, keeping the old
    /// connection if that fails, then ask for the next step.
    Reconnect,
    /// The message went out.
    Delivered,
    /// Every try failed: the message is dropped.
    Dropped,
}

/// The state of the sending of one message.
#[derive(Clone, Copy, Debug, PartialEq, Eq, Structural)]
pub struct SendRetry {
    /// Tries left.
    pub remaining: u32,
    /// Whether a try succeeded.
    pub delivered: bool,
}

/// The step that [`SendRetry::next_step`] gives in state `s`.
pub open spec fn step_in(s: SendRetry) -> SendStep {
    if s.delivered {
        SendStep::Delivered
    } else if s.remaining > 0 {
        SendStep::Send
    } else {
        SendStep::Dropped
    }
}

/// The state after a try in state `s` whose outcome was `sent`.
pub open spec fn after_try(s: SendRetry, sent: bool) -> SendRetry {
    if sent {
        SendRetry { delivered: true, ..s }
    } else {
        SendRetry { remaining: (s.remaining - 1) as u32, ..s }
    }
}

/// The state in which the sending of a message begins.
pub open spec fn fresh_send() -> SendRetry {
    SendRetry { remaining: SEND_ATTEMPTS, delivered: false }
}

impl SendRetry {
    /// The state for a new message: every try left, nothing sent.
    pub fn new() -> (r: SendRetry)
        ensures
            r == fresh_send(),
    {
        SendRetry { remaining: SEND_ATTEMPTS, delivered: false }
    }

    /// What to do in this state.
    pub fn next_step(&self) -> (r: SendStep)
        ensures
            r == step_in(*self),
    {
        if self.delivered {
            SendStep::Delivered
        } else if self.remaining > 0 {
            SendStep::Send
        } else {
            SendStep::Dropped
        }
    }

    /// Records the outcome of a try: done on success, else one try fewer and a
    /// reconnect.
    pub fn record_try(&mut self, sent: bool) -> (r: SendStep)
        requires
            step_in(*old(self)) == SendStep::Send,
        ensures
            *final(self) == after_try(*old(self), sent),
            r == if sent {
                SendStep::Delivered
            } else {
                SendStep::Reconnect
            },
    {
        if sent {
            self.delivered = true;
            SendStep::Delivered
        } else {
            self.remaining = self.remaining - 1;
            SendStep::Reconnect
        }
    }
}

/// The number of tries made, and the state reached, when the tries, in order,
/// have the outcomes `outcomes` until the policy stops.
pub open spec fn run_tries(s: SendRetry, outcomes: Seq<bool>) -> (nat, SendRetry)
    decreases outcomes.len(),
{
    if step_in(s) == SendStep::Send && outcomes.len() > 0 {
        let (n, last) = run_tries(after_try(s, outcomes[0]), outcomes.drop_first());
        (n + 1, last)
    } else {
        (0, s)
    }
}

proof fn lemma_tries_bounded(s: SendRetry, outcomes: Seq<bool>)
    requires
        !s.delivered,
    ensures
        run_tries(s, outcomes).0 <= s.remaining,
        (forall|k: int| 0 <= k < outcomes.len() ==> !#[trigger] outcomes[k]) && outcomes.len()
            >= s.remaining ==> run_tries(s, outcomes).0 == s.remaining && step_in(
            run_tries(s, outcomes).1,
        ) == SendStep::Dropped,
    decreases outcomes.len(),
{
    if step_in(s) == SendStep::Send && outcomes.len() > 0 {
        let rest = outcomes.drop_first();
        if !outcomes[0] {
            lemma_tries_bounded(after_try(s, false), rest);
            if forall|k: int| 0 <= k < outcomes.len() ==> !#[trigger] outcomes[k] {
                assert forall|k: int| 0 <= k < rest.len() implies !#[trigger] rest[k] by {
                    assert(rest[k] == outcomes[k + 1]);
                }
            }
        } else {
            assert(step_in(after_try(s, true)) == SendStep::Delivered);
            assert(run_tries(after_try(s, true), rest).0 == 0);
        }
    }
}

/// A message is tried at most three times, whatever the outcomes; against a
/// connection on which every send fails it is tried exactly three times and
/// then dropped, with nothing raised.
pub proof fn lemma_retry_bound(outcomes: Seq<bool>)
    ensures
        run_tries(fresh_send(), outcomes).0 <= 3,
        (forall|k: int| 0 <= k < outcomes.len() ==> !#[trigger] outcomes[k]) && outcomes.len() >= 3
            ==> run_tries(fresh_send(), outcomes).0 == 3 && step_in(
            run_tries(fresh_send(), outcomes).1,
        ) == SendStep::Dropped,
{
    lemma_tries_bounded(fresh_send(), outcomes);
}

} // verus!
