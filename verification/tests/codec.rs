use tabreport::codec::{decode_event, encode_command, encode_event, encode_frame,
    parse_frame_len, Command, DecodeError};
use tabreport::tabs::{TabAttributes, TabEvent, TabInfo};

fn event(
    action: &str,
    key: Option<&str>,
    tab_id: u32,
    title: Option<&str>,
    url: Option<&str>,
    window_id: Option<u32>,
    sequence_number: Option<u64>,
    error: Option<&str>,
) -> TabEvent {
    TabEvent {
        action: action.to_string(),
        key: key.map(|s| s.to_string()),
        tab_info: TabInfo {
            tab_id,
            attributes: TabAttributes {
                title: title.map(|s| s.to_string()),
                url: url.map(|s| s.to_string()),
                window_id,
            },
        },
        sequence_number,
        error: error.map(|s| s.to_string()),
    }
}

fn assert_same_event(a: &TabEvent, b: &TabEvent) {
    assert_eq!(a.action, b.action);
    assert_eq!(a.key, b.key);
    assert_eq!(a.tab_info.tab_id, b.tab_info.tab_id);
    assert_eq!(a.tab_info.attributes.title, b.tab_info.attributes.title);
    assert_eq!(a.tab_info.attributes.url, b.tab_info.attributes.url);
    assert_eq!(a.tab_info.attributes.window_id, b.tab_info.attributes.window_id);
    assert_eq!(a.sequence_number, b.sequence_number);
    assert_eq!(a.error, b.error);
}

#[test]
fn frame_prefixes_length_little_endian() {
    let framed = encode_frame(b"abc");
    assert_eq!(framed, vec![3, 0, 0, 0, b'a', b'b', b'c']);
    assert_eq!(parse_frame_len(&framed[0..4]), 3);
    let payload = vec![0u8; 0x01020304];
    let big = encode_frame(&payload);
    assert_eq!(&big[0..4], &[0x04, 0x03, 0x02, 0x01]);
    assert_eq!(parse_frame_len(&big[0..4]), 0x01020304);
}

#[test]
fn encode_update_event_exact_text() {
    let e = event("update", None, 7, Some("A"), None, Some(2), None, None);
    assert_eq!(
        encode_event(&e),
        "{\"action\":\"update\",\"key\":null,\"tab_id\":7,\"title\":\"A\",\"url\":null,\
         \"window_id\":2,\"sequence_number\":null,\"error\":null}"
    );
}

#[test]
fn round_trip_with_all_optionals_absent() {
    // The event with every optional field absent survives the codec intact.
    let e = event("remove", None, 0, None, None, None, None, None);
    let text = encode_event(&e);
    let back = decode_event(&text).expect("canonical text must decode");
    assert_same_event(&e, &back);
}

#[test]
fn round_trip_with_all_fields_present() {
    let e = event(
        "update",
        Some("k1"),
        4294967295,
        Some("Inbox (2) — mail"),
        Some("https://example.test/a?b=c"),
        Some(77),
        Some(999_999_999_999_998),
        Some("no such tab"),
    );
    let text = encode_event(&e);
    let back = decode_event(&text).expect("canonical text must decode");
    assert_same_event(&e, &back);
}

#[test]
fn round_trip_escapes_quotes_and_backslashes() {
    let e = event(
        "update",
        None,
        1,
        Some("say \"hi\" \\ now"),
        Some("C:\\tabs\\\"x\""),
        None,
        None,
        None,
    );
    let text = encode_event(&e);
    assert!(text.contains("\\\"hi\\\""));
    let back = decode_event(&text).expect("canonical text must decode");
    assert_same_event(&e, &back);
}

#[test]
fn decode_rejects_malformed_payloads() {
    assert!(matches!(decode_event(""), Err(DecodeError)));
    assert!(matches!(decode_event("{}"), Err(DecodeError)));
    assert!(matches!(decode_event("not json at all"), Err(DecodeError)));
    // A truncated text fails rather than panics.
    let e = event("sync", None, 0, None, None, None, Some(5), None);
    let text = encode_event(&e);
    assert!(matches!(decode_event(&text[0..text.len() - 1]), Err(DecodeError)));
    // Trailing garbage after the closing brace is refused too.
    let mut longer = text.clone();
    longer.push(' ');
    assert!(matches!(decode_event(&longer), Err(DecodeError)));
}

#[test]
fn decode_rejects_noncanonical_numbers() {
    let e = event("sync", None, 0, None, None, None, Some(7), None);
    let text = encode_event(&e);
    // A leading zero is not the canonical spelling of seven.
    let bad = text.replace("\"sequence_number\":7", "\"sequence_number\":07");
    assert!(matches!(decode_event(&bad), Err(DecodeError)));
}

#[test]
fn decode_rejects_out_of_range_ids() {
    let e = event("update", None, 1, None, None, None, None, None);
    let text = encode_event(&e);
    let bad = text.replace("\"tab_id\":1", "\"tab_id\":4294967296");
    assert!(matches!(decode_event(&bad), Err(DecodeError)));
}

#[test]
fn encode_command_exact_text() {
    let c = Command {
        action: "activate".to_string(),
        tab_id: 5,
        window_id: None,
        window_title_preface: Some("Inbox".to_string()),
        sequence_number: 12,
    };
    assert_eq!(
        encode_command(&c),
        "{\"action\":\"activate\",\"tab_id\":5,\"window_id\":null,\
         \"window_title_preface\":\"Inbox\",\"sequence_number\":12}"
    );
    let r = Command {
        action: "reset".to_string(),
        tab_id: 0,
        window_id: Some(3),
        window_title_preface: None,
        sequence_number: 0,
    };
    assert_eq!(
        encode_command(&r),
        "{\"action\":\"reset\",\"tab_id\":0,\"window_id\":3,\
         \"window_title_preface\":null,\"sequence_number\":0}"
    );
}
