//! Discovery of the debuggable context: selection among the listed targets,
//! and the decisions of the polling loop that waits for one to appear.
use vstd::prelude::*;

verus! {

/// The title of the one context this library connects to.
pub const EXPECTED_TITLE: &'static str = "SharedJSContext";

/// How long to wait between two requests to the discovery endpoint.
pub const POLL_INTERVAL_MS: u64 = 50;

/// How long discovery keeps polling before it gives up.
pub const DISCOVERY_TIMEOUT_MS: u64 = 60_000;

/// One entry of the discovery endpoint's listing.
pub struct DebugTarget {
    pub title: String,
    pub endpoint_url: String,
}

/// What one request to the discovery endpoint gave. A body that does not parse
/// is an empty listing.
pub enum PollReply {
    /// The request itself failed (connection refused and the like).
    Unreachable,
    /// The targets listed, in the order of the response.
    Listed(Vec<DebugTarget>),
}

/// What the polling loop does next.
#[derive(Debug)]
pub enum DiscoveryStep {
    /// Send a request to the discovery endpoint.
    Fetch,
    /// Sleep this many milliseconds, then ask again.
    Wait(u64),
    /// A target was found: connect to this endpoint.
    Found(String),
    /// The time is up: no target is available.
    TimedOut,
}

/// A target that may be connected to: the expected title and an endpoint.
pub open spec fn selectable(t: DebugTarget) -> bool {
    t.title@ == EXPECTED_TITLE@ && t.endpoint_url@.len() > 0
}

/// The endpoint of the first selectable target, in listing order.
pub open spec fn first_selectable(ts: Seq<DebugTarget>) -> Option<Seq<char>>
    decreases ts.len(),
{
    if ts.len() == 0 {
        None
    } else if selectable(ts[0]) {
        Some(ts[0].endpoint_url@)
    } else {
        first_selectable(ts.drop_first())
    }
}

proof fn lemma_first_selectable_from(ts: Seq<DebugTarget>, i: int)
    requires
        0 <= i < ts.len(),
    ensures
        first_selectable(ts.subrange(i, ts.len() as int)) == if selectable(ts[i]) {
            Some(ts[i].endpoint_url@)
        } else {
            first_selectable(ts.subrange(i + 1, ts.len() as int))
        },
{
    let rest = ts.subrange(i, ts.len() as int);
    assert(rest[0] == ts[i]);
    assert(rest.drop_first() =~= ts.subrange(i + 1, ts.len() as int));
}

/// Picks the endpoint to connect to from a listing: the first target whose
/// title is the expected one and whose endpoint is not empty.
pub fn select_target(targets: &Vec<DebugTarget>) -> (r: Option<String>)
    ensures
        match r {
            Some(u) => first_selectable(targets@) == Some(u@),
            None => first_selectable(targets@) is None,
        },
{
    let expected = String::from_str(EXPECTED_TITLE);
    let n = targets.len();
    let mut i: usize = 0;
    assert(targets@.subrange(0, n as int) =~= targets@);
    while i < n
        invariant
            n == targets@.len(),
            i <= n,
            expected@ == EXPECTED_TITLE@,
            first_selectable(targets@) == first_selectable(targets@.subrange(i as int, n as int)),
        decreases n - i,
    {
        proof {
            lemma_first_selectable_from(targets@, i as int);
        }
        let t = &targets[i];
        if t.title == expected && !t.endpoint_url.as_str().is_empty() {
            return Some(t.endpoint_url.clone());
        }
        i = i + 1;
    }
    None
}

/// Selection takes the first target, in listing order, with the exact expected
/// title and a non-empty endpoint, and only such a target.
pub proof fn lemma_selection_rule(ts: Seq<DebugTarget>)
    ensures
        first_selectable(ts) is None <==> forall|i: int| 0 <= i < ts.len() ==> !selectable(ts[i]),
        forall|u: Seq<char>|
            first_selectable(ts) == Some(u) <==> exists|i: int|
                0 <= i < ts.len() && selectable(ts[i]) && u == ts[i].endpoint_url@ && forall|j: int|
                    0 <= j < i ==> !selectable(ts[j]),
    decreases ts.len(),
{
    if ts.len() > 0 {
        let rest = ts.drop_first();
        lemma_selection_rule(rest);
        assert forall|i: int| 1 <= i < ts.len() implies ts[i] == rest[i - 1] by {}
        if !selectable(ts[0]) {
            assert forall|u: Seq<char>|
                first_selectable(ts) == Some(u) implies exists|i: int|
                    0 <= i < ts.len() && selectable(ts[i]) && u == ts[i].endpoint_url@ && forall|j: int|
                        0 <= j < i ==> !selectable(ts[j]) by {
                let k = choose|k: int|
                    0 <= k < rest.len() && selectable(rest[k]) && u == rest[k].endpoint_url@
                        && forall|j: int| 0 <= j < k ==> !selectable(rest[j]);
                assert forall|j: int| 0 <= j < k + 1 implies !selectable(ts[j]) by {
                    if j > 0 {
                        assert(ts[j] == rest[j - 1]);
                    }
                }
                assert(ts[k + 1] == rest[k]);
            }
            assert forall|u: Seq<char>|
                (exists|i: int|
                    0 <= i < ts.len() && selectable(ts[i]) && u == ts[i].endpoint_url@ && forall|j: int|
                        0 <= j < i ==> !selectable(ts[j])) implies first_selectable(ts) == Some(u) by {
                let i = choose|i: int|
                    0 <= i < ts.len() && selectable(ts[i]) && u == ts[i].endpoint_url@ && forall|j: int|
                        0 <= j < i ==> !selectable(ts[j]);
                assert(i > 0);
                assert(rest[i - 1] == ts[i]);
                assert forall|j: int| 0 <= j < i - 1 implies !selectable(rest[j]) by {
                    assert(rest[j] == ts[j + 1]);
                }
            }
            if first_selectable(ts) is None {
                assert forall|i: int| 0 <= i < ts.len() implies !selectable(ts[i]) by {
                    if i > 0 {
                        assert(ts[i] == rest[i - 1]);
                    }
                }
            }
        }
    }
}

/// The endpoint a reply offers, if any.
pub open spec fn reply_target(reply: PollReply) -> Option<Seq<char>> {
    match reply {
        PollReply::Unreachable => None,
        PollReply::Listed(ts) => first_selectable(ts@),
    }
}

/// The step due before a request, `elapsed_ms` after discovery began: give up
/// once the time is past `timeout_ms`, else ask the endpoint.
pub fn before_request(elapsed_ms: u64, timeout_ms: u64) -> (r: DiscoveryStep)
    ensures
        elapsed_ms > timeout_ms ==> r is TimedOut,
        elapsed_ms <= timeout_ms ==> r is Fetch,
{
    if elapsed_ms > timeout_ms {
        DiscoveryStep::TimedOut
    } else {
        DiscoveryStep::Fetch
    }
}

/// The step due after a reply: connect to the selected target, or wait and
/// ask again. A failed request is no reason to stop.
pub fn after_reply(reply: &PollReply) -> (r: DiscoveryStep)
    ensures
        match reply_target(*reply) {
            Some(u) => r matches DiscoveryStep::Found(url) && url@ == u,
            None => r matches DiscoveryStep::Wait(ms) && ms == POLL_INTERVAL_MS,
        },
{
    match reply {
        PollReply::Unreachable => DiscoveryStep::Wait(POLL_INTERVAL_MS),
        PollReply::Listed(targets) => match select_target(targets) {
            Some(url) => DiscoveryStep::Found(url),
            None => DiscoveryStep::Wait(POLL_INTERVAL_MS),
        },
    }
}

/// Where a discovery run stands after the requests made at the clock readings
/// `clock` got the replies `replies`, step by step as [`before_request`] and
/// [`after_reply`] decide: `None` while it polls on, `Some(None)` once it timed
/// out, `Some(Some(u))` once it found the endpoint `u`.
pub open spec fn discovery_outcome(timeout_ms: u64, clock: Seq<u64>, replies: Seq<PollReply>) -> Option<
    Option<Seq<char>>,
>
    decreases clock.len(),
{
    if clock.len() == 0 {
        None
    } else if clock[0] > timeout_ms {
        Some(None)
    } else if replies.len() == 0 {
        None
    } else {
        match reply_target(replies[0]) {
            Some(u) => Some(Some(u)),
            None => discovery_outcome(timeout_ms, clock.drop_first(), replies.drop_first()),
        }
    }
}

/// Against an endpoint that never lists a matching target, discovery finds
/// nothing; it keeps polling while the clock is within the timeout, and gives
/// up, with no endpoint, at the first reading past it.
pub proof fn lemma_discovery_times_out(timeout_ms: u64, clock: Seq<u64>, replies: Seq<PollReply>)
    requires
        forall|k: int| 0 <= k < replies.len() ==> reply_target(#[trigger] replies[k]) is None,
    ensures
        !(discovery_outcome(timeout_ms, clock, replies) matches Some(Some(_))),
        (forall|k: int| 0 <= k < clock.len() ==> #[trigger] clock[k] <= timeout_ms)
            ==> discovery_outcome(timeout_ms, clock, replies) is None,
        clock.len() == replies.len() + 1 && clock.last() > timeout_ms ==> discovery_outcome(
            timeout_ms,
            clock,
            replies,
        ) == Some(None::<Seq<char>>),
    decreases clock.len(),
{
    if clock.len() > 0 && replies.len() > 0 {
        let (c, r) = (clock.drop_first(), replies.drop_first());
        assert forall|k: int| 0 <= k < r.len() implies reply_target(#[trigger] r[k]) is None by {
            assert(r[k] == replies[k + 1]);
        }
        lemma_discovery_times_out(timeout_ms, c, r);
        if forall|k: int| 0 <= k < clock.len() ==> #[trigger] clock[k] <= timeout_ms {
            assert forall|k: int| 0 <= k < c.len() implies #[trigger] c[k] <= timeout_ms by {
                assert(c[k] == clock[k + 1]);
            }
        }
        assert(reply_target(replies[0]) is None);
        if clock.len() == replies.len() + 1 {
            assert(c.last() == clock.last());
        }
    }
}

} // verus!
