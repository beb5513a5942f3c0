use steam_patch::connection::{evaluate_message, frame_evaluate, reload_message, SendRetry, SendStep};

fn deliver(results: &[bool]) -> (u32, SendStep) {
    let mut policy = SendRetry::new();
    let mut attempts = 0u32;
    loop {
        match policy.next_step() {
            SendStep::Send => {
                let ok = results[attempts as usize];
                attempts += 1;
                let step = policy.record_try(ok);
                if !ok {
                    assert_eq!(step, SendStep::Reconnect);
                }
            }
            done => return (attempts, done),
        }
    }
}

#[test]
fn always_failing_send_is_tried_three_times() {
    assert_eq!(deliver(&[false; 10]), (3, SendStep::Dropped));
}

#[test]
fn success_stops_the_retries() {
    assert_eq!(deliver(&[true]), (1, SendStep::Delivered));
    assert_eq!(deliver(&[false, false, true]), (3, SendStep::Delivered));
}

#[test]
fn reload_command_on_the_wire() {
    assert_eq!(reload_message(), r#"{"id":1,"method":"Page.reload"}"#);
}

#[test]
fn evaluate_command_on_the_wire() {
    assert_eq!(
        evaluate_message("location.reload()"),
        r#"{"id":1,"method":"Runtime.evaluate","params":{"expression":"location.reload()"}}"#
    );
}

#[test]
fn evaluate_command_escapes_the_script() {
    assert_eq!(
        evaluate_message("a(\"x\")\n\\"),
        r#"{"id":1,"method":"Runtime.evaluate","params":{"expression":"a(\"x\")\n\\"}}"#
    );
}

#[test]
fn evaluate_frame_around_quoted_text() {
    assert_eq!(
        frame_evaluate("\"1+1\""),
        r#"{"id":1,"method":"Runtime.evaluate","params":{"expression":"1+1"}}"#
    );
}
