use tussle::binding::ScanError;
use tussle::plist_file::{
    check_stream, fault_error, parse_value, parse_value_bytes, read_limited, step_stream, PlistToken, PlistValue,
    StreamFault, MAX_PLIST_DEPTH, MAX_PLIST_EVENTS,
};

#[test]
fn accepts_input_at_the_limit() {
    let bytes = read_limited(b"1234", "fixture.plist", 4).expect("input at the limit should be accepted");
    assert_eq!(bytes, b"1234");
}

#[test]
fn rejects_input_larger_than_the_limit() {
    let error = read_limited(b"12345", "fixture.plist", 4).expect_err("oversized input should be rejected");
    assert!(matches!(
        error,
        ScanError::Schema { message, .. } if message.contains("4-byte safety limit")
    ));
}

#[test]
fn rejects_excessively_nested_plists_before_building_the_value() {
    let mut xml = String::from(r#"<?xml version="1.0"?><plist version="1.0">"#);
    xml.push_str(&"<array>".repeat(MAX_PLIST_DEPTH + 1));
    xml.push_str(&"</array>".repeat(MAX_PLIST_DEPTH + 1));
    xml.push_str("</plist>");

    let error = parse_value_bytes(xml.as_bytes(), "nested.plist").expect_err("excessive nesting should be rejected");
    assert!(matches!(
        error,
        ScanError::Schema { message, .. } if message.contains("nesting safety limit")
    ));
}

#[test]
fn accepts_nesting_at_the_limit() {
    let mut xml = String::from(r#"<?xml version="1.0"?><plist version="1.0">"#);
    xml.push_str(&"<array>".repeat(MAX_PLIST_DEPTH));
    xml.push_str(&"</array>".repeat(MAX_PLIST_DEPTH));
    xml.push_str("</plist>");
    assert!(parse_value_bytes(xml.as_bytes(), "nested.plist").is_ok());
}

#[test]
fn limit_message_names_the_limit() {
    match read_limited(b"123", "f.plist", 2) {
        Err(ScanError::Schema { path, message }) => {
            assert_eq!(path, "f.plist");
            assert_eq!(message, "plist exceeds the 2-byte safety limit");
        }
        other => panic!("unexpected result {other:?}"),
    }
}

#[test]
fn decodes_a_dictionary_in_document_order() {
    let xml = r#"<?xml version="1.0"?><plist version="1.0"><dict>
        <key>b</key><integer>-7</integer>
        <key>a</key><string>x</string>
        <key>c</key><array><true/><real>1.5</real></array>
    </dict></plist>"#;
    let value = parse_value(xml.as_bytes(), "d.plist").unwrap();
    assert_eq!(value.get("b").and_then(|v| v.as_signed_integer()), Some(-7));
    assert_eq!(value.get("a").and_then(|v| v.as_string()), Some("x"));
    let items = value.get("c").and_then(|v| v.as_array()).unwrap();
    assert_eq!(items[0].as_boolean(), Some(true));
    assert!(matches!(items[1], PlistValue::Real));
    let entries = value.as_dictionary().unwrap();
    let keys: Vec<&str> = entries.iter().map(|(k, _)| k.as_str()).collect();
    assert_eq!(keys, vec!["b", "a", "c"]);
}

#[test]
fn reports_unbalanced_and_malformed_streams() {
    match parse_value_bytes(b"<?xml version=\"1.0\"?><plist version=\"1.0\"><array>", "u.plist") {
        Err(ScanError::Schema { message, .. }) => assert!(message.starts_with("plist")),
        other => panic!("unexpected result {other:?}"),
    }
    match parse_value_bytes(b"<?xml version=\"1.0\"?><plist version=\"1.0\"><dict><key>a</key></dict></plist>", "m.plist") {
        Err(ScanError::Schema { message, .. }) => assert!(message.starts_with("plist parse: "), "{message}"),
        other => panic!("unexpected result {other:?}"),
    }
}

#[test]
fn stream_steps_track_nesting_and_faults() {
    assert_eq!(step_stream(&Some(PlistToken::StartDictionary), 0, 0).unwrap(), 1);
    assert_eq!(step_stream(&Some(PlistToken::Scalar), 1, 1).unwrap(), 1);
    assert_eq!(step_stream(&Some(PlistToken::EndCollection), 2, 1).unwrap(), 0);
    assert!(matches!(step_stream(&None, 3, 0), Err(None)));
    assert!(matches!(step_stream(&None, 3, 2), Err(Some(StreamFault::Unclosed))));
    assert!(matches!(step_stream(&Some(PlistToken::EndCollection), 0, 0), Err(Some(StreamFault::UnmatchedEnd))));
    assert!(matches!(step_stream(&Some(PlistToken::StartArray), 5, MAX_PLIST_DEPTH), Err(Some(StreamFault::TooDeep))));
    assert_eq!(step_stream(&Some(PlistToken::StartArray), 5, MAX_PLIST_DEPTH - 1).unwrap(), MAX_PLIST_DEPTH);
    assert!(matches!(step_stream(&Some(PlistToken::Scalar), MAX_PLIST_EVENTS, 1), Err(Some(StreamFault::TooManyEvents))));
    match step_stream(&Some(PlistToken::Error("bad tag".to_string())), MAX_PLIST_EVENTS, 0) {
        Err(Some(StreamFault::Parse(m))) => assert_eq!(m, "bad tag"),
        _ => panic!("expected a parse fault"),
    }
}

fn wide_array(items: usize) -> String {
    let mut xml = String::from(r#"<?xml version="1.0"?><plist version="1.0"><array>"#);
    xml.push_str(&"<true/>".repeat(items));
    xml.push_str("</array></plist>");
    xml
}

#[test]
fn stream_check_reads_at_most_the_event_bound() {
    // An array of n items is n + 2 events.
    assert!(check_stream(wide_array(MAX_PLIST_EVENTS - 2).as_bytes()).is_none());
    assert!(matches!(check_stream(wide_array(MAX_PLIST_EVENTS - 1).as_bytes()), Some(StreamFault::TooManyEvents)));
    assert!(matches!(check_stream(wide_array(3 * MAX_PLIST_EVENTS).as_bytes()), Some(StreamFault::TooManyEvents)));
    assert!(check_stream(b"<?xml version=\"1.0\"?><plist version=\"1.0\"><dict></dict></plist>").is_none());
}

#[test]
fn stream_faults_are_reported_as_schema_errors() {
    match fault_error("x.plist", &StreamFault::TooDeep) {
        ScanError::Schema { path, message } => {
            assert_eq!(path, "x.plist");
            assert_eq!(message, "plist exceeds the 128-level nesting safety limit");
        }
        other => panic!("unexpected {other:?}"),
    }
    match fault_error("x.plist", &StreamFault::TooManyEvents) {
        ScanError::Schema { message, .. } => {
            assert_eq!(message, "plist exceeds the 100000-event safety limit")
        }
        other => panic!("unexpected {other:?}"),
    }
}
