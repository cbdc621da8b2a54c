use tussle::output::{escape_json_terminal_controls, escape_terminal_text, is_bidi_control};

#[test]
fn terminal_text_preserves_normal_unicode() {
    assert_eq!(escape_terminal_text("访达 — New Window"), "访达 — New Window");
}

#[test]
fn terminal_text_escapes_control_and_bidi_sequences() {
    let malicious = "safe\u{1b}]52;c;payload\u{7}\n\u{009b}31m\u{202e}txt";
    let escaped = escape_terminal_text(malicious);

    assert_eq!(escaped, "safe\\x1b]52;c;payload\\x07\\n\\u{9b}31m\\u{202e}txt");
    assert!(!escaped.chars().any(char::is_control));
    assert!(!escaped.chars().any(is_bidi_control));
}

#[test]
fn json_escaping_is_terminal_safe_and_semantics_preserving() {
    let mut object = serde_json::Map::new();
    object.insert(
        "value".to_string(),
        serde_json::Value::String("\u{009b}31m\u{202e}txt".to_string()),
    );
    let unescaped = serde_json::Value::Object(object);
    let json = serde_json::to_string_pretty(&unescaped).expect("JSON should serialize");
    let escaped = escape_json_terminal_controls(&json);

    assert!(escaped.contains("\\u009b"));
    assert!(escaped.contains("\\u202e"));
    assert!(!escaped.contains('\u{009b}'));
    assert!(!escaped.contains('\u{202e}'));
    assert_eq!(
        serde_json::from_str::<serde_json::Value>(&escaped)
            .expect("escaped JSON should remain valid"),
        unescaped
    );
}

#[test]
fn terminal_text_escapes_carriage_return_tab_and_delete() {
    assert_eq!(escape_terminal_text("a\rb\tc\u{7f}"), "a\\rb\\tc\\x7f");
}

#[test]
fn terminal_text_escapes_every_bidi_control() {
    assert_eq!(escape_terminal_text("\u{61c}\u{200e}\u{2069}"), "\\u{61c}\\u{200e}\\u{2069}");
}

#[test]
fn json_escaping_leaves_ascii_and_plain_text_alone() {
    let text = "{\"a\": \"\\n访达\"}";
    assert_eq!(escape_json_terminal_controls(text), text);
}

#[test]
fn json_escaping_pads_to_four_hex_digits() {
    assert_eq!(escape_json_terminal_controls("\u{85}\u{61c}"), "\\u0085\\u061c");
}
