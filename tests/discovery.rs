use steam_patch::discovery::{
    after_reply, before_request, select_target, DebugTarget, DiscoveryStep, PollReply, DISCOVERY_TIMEOUT_MS,
    POLL_INTERVAL_MS,
};

fn target(title: &str, url: &str) -> DebugTarget {
    DebugTarget { title: title.to_string(), endpoint_url: url.to_string() }
}

#[test]
fn first_exact_match_with_endpoint_is_selected() {
    let tabs = vec![
        target("Steam", "ws://a"),
        target("SharedJSContext", ""),
        target("SharedJSContext ", "ws://b"),
        target("SharedJSContext", "ws://c"),
        target("SharedJSContext", "ws://d"),
    ];
    assert_eq!(select_target(&tabs), Some("ws://c".to_string()));
}

#[test]
fn no_match_selects_nothing() {
    let tabs = vec![target("Steam", "ws://a"), target("SharedJSContext", "")];
    assert_eq!(select_target(&tabs), None);
    assert_eq!(select_target(&Vec::new()), None);
}

#[test]
fn deadline_checked_before_each_request() {
    assert!(matches!(before_request(0, DISCOVERY_TIMEOUT_MS), DiscoveryStep::Fetch));
    assert!(matches!(before_request(60_000, DISCOVERY_TIMEOUT_MS), DiscoveryStep::Fetch));
    assert!(matches!(before_request(60_001, DISCOVERY_TIMEOUT_MS), DiscoveryStep::TimedOut));
}

#[test]
fn replies_without_target_wait_and_retry() {
    assert!(matches!(after_reply(&PollReply::Unreachable), DiscoveryStep::Wait(50)));
    let reply = PollReply::Listed(vec![target("Other", "ws://x")]);
    assert!(matches!(after_reply(&reply), DiscoveryStep::Wait(ms) if ms == POLL_INTERVAL_MS));
    let reply = PollReply::Listed(vec![target("SharedJSContext", "ws://ok")]);
    match after_reply(&reply) {
        DiscoveryStep::Found(url) => assert_eq!(url, "ws://ok"),
        other => panic!("unexpected step {:?}", other),
    }
}

/// Drives the decisions with an injected clock against an endpoint that
/// never lists the target.
#[test]
fn discovery_gives_up_after_timeout() {
    let mut clock: u64 = 0;
    let mut requests = 0u32;
    let outcome = loop {
        match before_request(clock, DISCOVERY_TIMEOUT_MS) {
            DiscoveryStep::TimedOut => break None,
            DiscoveryStep::Fetch => {}
            other => panic!("unexpected step {:?}", other),
        }
        requests += 1;
        let reply = if requests % 2 == 0 { PollReply::Unreachable } else { PollReply::Listed(Vec::new()) };
        match after_reply(&reply) {
            DiscoveryStep::Found(url) => break Some(url),
            DiscoveryStep::Wait(ms) => clock += ms,
            other => panic!("unexpected step {:?}", other),
        }
    };
    assert_eq!(outcome, None);
    assert_eq!(requests, 1201);
    assert!(clock > DISCOVERY_TIMEOUT_MS && clock <= DISCOVERY_TIMEOUT_MS + POLL_INTERVAL_MS);
}
