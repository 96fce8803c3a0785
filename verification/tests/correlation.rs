use tabreport::correlator::{completion_resolves_once, Correlator, PollOutcome, TOKEN_WRAP};

#[test]
fn tokens_count_up_from_zero() {
    let mut c = Correlator::new();
    assert_eq!(c.generate_token(), 0);
    assert_eq!(c.generate_token(), 1);
    assert_eq!(c.generate_token(), 2);
}

#[test]
fn token_wrap_bound_value() {
    // The wrap bound is the largest integer the least capable numeric
    // consumer on the wire represents exactly, ten to the fifteenth less one.
    assert_eq!(TOKEN_WRAP, 999_999_999_999_999);
}

#[test]
fn completion_is_consumed_exactly_once() {
    let mut c = Correlator::new();
    let t = c.generate_token();
    c.complete(t, None);
    // The first wait slice consumes the record and succeeds.
    match c.poll(t, 0, 5000) {
        PollOutcome::Completed(None) => {},
        _ => panic!("expected a successful completion"),
    }
    // A second wait for the same token finds nothing and keeps waiting...
    assert!(matches!(c.poll(t, 0, 5000), PollOutcome::KeepWaiting));
    // ...until a fresh completion arrives,
    c.complete(t, None);
    assert!(matches!(c.poll(t, 100, 5000), PollOutcome::Completed(None)));
    // or until the overall timeout elapses.
    assert!(matches!(c.poll(t, 5001, 5000), PollOutcome::TimedOut));
}

#[test]
fn completion_carries_error_text() {
    let mut c = Correlator::new();
    let t = c.generate_token();
    c.complete(t, Some("broken".to_string()));
    match c.poll(t, 0, 5000) {
        PollOutcome::Completed(Some(msg)) => assert_eq!(msg, "broken"),
        _ => panic!("expected the recorded error"),
    }
}

#[test]
fn completions_are_kept_per_token() {
    let mut c = Correlator::new();
    let t1 = c.generate_token();
    let t2 = c.generate_token();
    c.complete(t2, None);
    // A pending wait on t1 is not resumed by t2's reply.
    assert!(matches!(c.poll(t1, 10, 5000), PollOutcome::KeepWaiting));
    assert!(matches!(c.poll(t2, 10, 5000), PollOutcome::Completed(None)));
}

#[test]
fn second_reply_overwrites_pending_record() {
    let mut c = Correlator::new();
    let t = c.generate_token();
    c.complete(t, Some("first".to_string()));
    c.complete(t, None);
    assert!(matches!(c.poll(t, 0, 5000), PollOutcome::Completed(None)));
}

#[test]
fn resolve_once_law_on_concrete_values() {
    let mut c = Correlator::new();
    let t = c.generate_token();
    let (first, second) = completion_resolves_once(&mut c, t, 100, 5000);
    assert!(matches!(first, PollOutcome::Completed(None)));
    assert!(matches!(second, PollOutcome::KeepWaiting));
    let t2 = c.generate_token();
    let (_, second) = completion_resolves_once(&mut c, t2, 9000, 5000);
    assert!(matches!(second, PollOutcome::TimedOut));
}

#[test]
fn boundary_of_the_overall_timeout() {
    let mut c = Correlator::new();
    let t = c.generate_token();
    // Exactly at the limit the wait continues; only past it does it fail.
    assert!(matches!(c.poll(t, 5000, 5000), PollOutcome::KeepWaiting));
    assert!(matches!(c.poll(t, 5001, 5000), PollOutcome::TimedOut));
}
