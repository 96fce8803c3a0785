use tabreport::bridge::{Bridge, HandleOutcome, SyncError, resolve_outcome};
use tabreport::correlator::PollOutcome;
use tabreport::registry::Registry;
use tabreport::tabs::{TabAttributes, TabEvent, TabInfo, empty_to_none, none_to_empty,
    none_to_empty_string, tab_to_tuple, tuple_to_tab, unpack_tabs};

fn attrs(title: Option<&str>, url: Option<&str>, window_id: Option<u32>) -> TabAttributes {
    TabAttributes {
        title: title.map(|s| s.to_string()),
        url: url.map(|s| s.to_string()),
        window_id,
    }
}

fn update_event(tab_id: u32, a: TabAttributes) -> TabEvent {
    TabEvent {
        action: "update".to_string(),
        key: None,
        tab_info: TabInfo { tab_id, attributes: a },
        sequence_number: None,
        error: None,
    }
}

fn remove_event(tab_id: u32) -> TabEvent {
    TabEvent {
        action: "remove".to_string(),
        key: None,
        tab_info: TabInfo { tab_id, attributes: attrs(None, None, None) },
        sequence_number: None,
        error: None,
    }
}

fn sync_event(token: u64, error: Option<&str>) -> TabEvent {
    TabEvent {
        action: "sync".to_string(),
        key: None,
        tab_info: TabInfo { tab_id: 0, attributes: attrs(None, None, None) },
        sequence_number: Some(token),
        error: error.map(|s| s.to_string()),
    }
}

#[test]
fn merge_keeps_present_stored_fields() {
    // Incoming {title: Some, url: None} onto stored {title: None, url: Some}
    // yields both, and a None incoming field never erases a stored value.
    let mut incoming = attrs(Some("x"), None, None);
    let stored = attrs(None, Some("y"), Some(3));
    incoming.merge(&stored);
    assert_eq!(incoming.title.as_deref(), Some("x"));
    assert_eq!(incoming.url.as_deref(), Some("y"));
    assert_eq!(incoming.window_id, Some(3));
}

#[test]
fn merge_present_incoming_wins() {
    let mut incoming = attrs(Some("new"), Some("u2"), Some(7));
    let stored = attrs(Some("old"), Some("u1"), Some(1));
    incoming.merge(&stored);
    assert_eq!(incoming.title.as_deref(), Some("new"));
    assert_eq!(incoming.url.as_deref(), Some("u2"));
    assert_eq!(incoming.window_id, Some(7));
}

#[test]
fn registry_update_creates_and_merges() {
    let mut r = Registry::new();
    r.apply_update(7, attrs(Some("A"), None, None), 10);
    r.apply_update(7, attrs(None, Some("http://a"), None), 20);
    let snap = r.snapshot_sorted();
    assert_eq!(snap.len(), 1);
    assert_eq!(snap[0].0, 7);
    assert_eq!(snap[0].1.title.as_deref(), Some("A"));
    assert_eq!(snap[0].1.url.as_deref(), Some("http://a"));
}

#[test]
fn snapshot_orders_by_recency_and_update_moves_to_front() {
    let mut r = Registry::new();
    r.apply_update(1, attrs(Some("one"), None, None), 100);
    r.apply_update(2, attrs(Some("two"), None, None), 200);
    r.apply_update(3, attrs(Some("three"), None, None), 300);
    let snap = r.snapshot_sorted();
    let ids: Vec<u32> = snap.iter().map(|p| p.0).collect();
    assert_eq!(ids, vec![3, 2, 1]);
    // Touching the oldest entry moves it to the front.
    r.apply_update(1, attrs(None, Some("u"), None), 400);
    let snap = r.snapshot_sorted();
    let ids: Vec<u32> = snap.iter().map(|p| p.0).collect();
    assert_eq!(ids, vec![1, 3, 2]);
    assert_eq!(snap[0].1.title.as_deref(), Some("one"));
}

#[test]
fn remove_is_idempotent() {
    let mut r = Registry::new();
    r.apply_update(7, attrs(Some("A"), None, None), 10);
    assert!(r.remove(7));
    assert_eq!(r.len(), 0);
    // Removing an absent id is a no-op, reported as a miss, never an error.
    assert!(!r.remove(7));
    assert_eq!(r.len(), 0);
}

#[test]
fn bridge_update_then_remove_then_remove_again() {
    let mut b = Bridge::new();
    let r1 = b.handle_event(update_event(7, attrs(Some("A"), None, None)), 10);
    assert_eq!(r1, HandleOutcome::Updated);
    let r2 = b.handle_event(remove_event(7), 20);
    assert_eq!(r2, HandleOutcome::Removed(true));
    assert!(b.list().is_empty());
    let r3 = b.handle_event(remove_event(7), 30);
    assert_eq!(r3, HandleOutcome::Removed(false));
    assert!(b.list().is_empty());
}

#[test]
fn activate_emits_expected_command() {
    let mut b = Bridge::new();
    let c = b.begin_activate(5, "Inbox".to_string());
    assert_eq!(c.action, "activate");
    assert_eq!(c.tab_id, 5);
    assert_eq!(c.window_id, None);
    assert_eq!(c.window_title_preface.as_deref(), Some("Inbox"));
    assert_eq!(c.sequence_number, 0);
    // The next command draws the next token.
    let c2 = b.begin_reset(9);
    assert_eq!(c2.action, "reset");
    assert_eq!(c2.tab_id, 9);
    assert_eq!(c2.window_title_preface, None);
    assert_eq!(c2.sequence_number, 1);
}

#[test]
fn activate_empty_preface_is_absent() {
    let mut b = Bridge::new();
    let c = b.begin_activate(5, String::new());
    assert_eq!(c.window_title_preface, None);
}

#[test]
fn activate_resolves_on_sync_reply() {
    let mut b = Bridge::new();
    let c = b.begin_activate(5, "Inbox".to_string());
    let token = c.sequence_number;
    // The matching reply arrives within the timeout.
    b.handle_event(sync_event(token, None), 50);
    let outcome = b.correlator.poll(token, 100, 5000);
    match resolve_outcome(outcome) {
        Some(Ok(msg)) => assert_eq!(msg, "done"),
        _ => panic!("expected success"),
    }
}

#[test]
fn activate_fails_with_extension_error_text() {
    let mut b = Bridge::new();
    let c = b.begin_activate(5, "Inbox".to_string());
    let token = c.sequence_number;
    b.handle_event(sync_event(token, Some("no such tab")), 50);
    let outcome = b.correlator.poll(token, 100, 5000);
    match resolve_outcome(outcome) {
        Some(Err(SyncError::ExtensionReported(msg))) => assert_eq!(msg, "no such tab"),
        _ => panic!("expected the extension's error"),
    }
}

#[test]
fn activate_times_out_without_reply() {
    let mut b = Bridge::new();
    let c = b.begin_activate(5, "Inbox".to_string());
    let token = c.sequence_number;
    let outcome = b.correlator.poll(token, 5001, 5000);
    match resolve_outcome(outcome) {
        Some(Err(SyncError::CorrelationTimeout)) => {},
        _ => panic!("expected a timeout"),
    }
}

#[test]
fn keep_waiting_while_time_remains() {
    let mut b = Bridge::new();
    let c = b.begin_reset(5);
    let outcome = b.correlator.poll(c.sequence_number, 3000, 5000);
    assert!(matches!(outcome, PollOutcome::KeepWaiting));
    assert!(resolve_outcome(outcome).is_none());
}

#[test]
fn list_flattens_in_recency_order() {
    let mut b = Bridge::new();
    b.handle_event(update_event(1, attrs(Some("one"), Some("u1"), Some(4))), 10);
    b.handle_event(update_event(2, attrs(None, None, None)), 20);
    let listing = b.list();
    assert_eq!(
        listing,
        vec![
            (2, String::new(), String::new(), 0),
            (1, "one".to_string(), "u1".to_string(), 4),
        ]
    );
}

#[test]
fn tuple_conversions_round_values() {
    let a = attrs(Some("t"), None, Some(9));
    let t = tab_to_tuple(&(3, &a));
    assert_eq!(t, (3, "t".to_string(), String::new(), 9));
    let back = tuple_to_tab(&t);
    assert_eq!(back.tab_id, 3);
    assert_eq!(back.attributes.title.as_deref(), Some("t"));
    assert_eq!(back.attributes.url, None);
    assert_eq!(back.attributes.window_id, Some(9));
}

#[test]
fn unpack_tabs_keeps_order() {
    let a1 = attrs(Some("x"), None, None);
    let a2 = attrs(None, Some("y"), Some(2));
    let pairs = [(1u32, &a1), (2u32, &a2)];
    let tuples = unpack_tabs(&pairs);
    assert_eq!(
        tuples,
        vec![
            (1, "x".to_string(), String::new(), 0),
            (2, String::new(), "y".to_string(), 2),
        ]
    );
}

#[test]
fn empty_and_none_helpers() {
    assert_eq!(none_to_empty(None), "");
    assert_eq!(none_to_empty(Some("a")), "a");
    assert_eq!(none_to_empty_string(None), "");
    assert_eq!(none_to_empty_string(Some("b".to_string())), "b");
    assert_eq!(empty_to_none(String::new()), None);
    assert_eq!(empty_to_none("c".to_string()).as_deref(), Some("c"));
}
