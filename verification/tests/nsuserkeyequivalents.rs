use tussle::binding::{BindingSource, ScanError};
use tussle::keys::{Key, KeyCombo, Modifiers, NamedKey};
use tussle::plist_file::PlistValue;
use tussle::nsuserkeyequivalents::{
    bundle_id_from_path, overrides_in, parse, parse_keystroke, AppMenuOverrides, EntryStep, OverrideScan,
};

#[test]
fn parse_keystroke_cmd_only() {
    let c = parse_keystroke("@n").unwrap();
    assert_eq!(c, KeyCombo { modifiers: Modifiers::cmd(), key: Key::Char('n') });
}

#[test]
fn parse_keystroke_cmd_opt() {
    let c = parse_keystroke("@~n").unwrap();
    assert_eq!(
        c,
        KeyCombo { modifiers: Modifiers::cmd().union(Modifiers::opt()), key: Key::Char('n') }
    );
}

#[test]
fn parse_keystroke_all_modifiers() {
    let c = parse_keystroke("@~$^x").unwrap();
    assert_eq!(
        c,
        KeyCombo {
            modifiers: Modifiers::cmd()
                .union(Modifiers::opt())
                .union(Modifiers::shift())
                .union(Modifiers::ctrl()),
            key: Key::Char('x'),
        }
    );
}

#[test]
fn parse_keystroke_modifier_order_is_irrelevant() {
    assert_eq!(parse_keystroke("@$s"), parse_keystroke("$@s"));
}

#[test]
fn parse_keystroke_no_key_returns_none() {
    assert_eq!(parse_keystroke("@~"), None);
}

#[test]
fn parse_keystroke_extra_chars_returns_none() {
    assert_eq!(parse_keystroke("@nx"), None);
}

#[test]
fn parse_keystroke_empty_returns_none() {
    assert_eq!(parse_keystroke(""), None);
}

#[test]
fn parse_keystroke_rejects_unrecognized_control_character() {
    assert_eq!(parse_keystroke("\u{009b}"), None);
}

#[test]
fn parse_keystroke_no_modifiers_just_key() {
    let c = parse_keystroke("a").unwrap();
    assert_eq!(c, KeyCombo { modifiers: Modifiers::empty(), key: Key::Char('a') });
}

#[test]
fn parse_keystroke_names_function_key_characters() {
    let c = parse_keystroke("@\u{f704}").unwrap();
    assert_eq!(c, KeyCombo { modifiers: Modifiers::cmd(), key: Key::Named(NamedKey::F(1)) });
    let c = parse_keystroke("^\r").unwrap();
    assert_eq!(c, KeyCombo { modifiers: Modifiers::ctrl(), key: Key::Named(NamedKey::Return) });
}

#[test]
fn parse_keystroke_lowercases_capital_letters() {
    let c = parse_keystroke("@N").unwrap();
    assert_eq!(c, KeyCombo { modifiers: Modifiers::cmd(), key: Key::Char('n') });
}

const PREFS: &str = r#"<?xml version="1.0" encoding="UTF-8"?>
<!DOCTYPE plist PUBLIC "-//Apple//DTD PLIST 1.0//EN" "http://www.apple.com/DTDs/PropertyList-1.0.dtd">
<plist version="1.0">
<dict>
    <key>NSUserKeyEquivalents</key>
    <dict>
        <key>Save All</key>
        <string>@~s</string>
        <key>New</key>
        <string>@n</string>
        <key>Broken</key>
        <string>@</string>
        <key>Number</key>
        <integer>5</integer>
    </dict>
    <key>Other</key>
    <true/>
</dict>
</plist>"#;

#[test]
fn parse_reads_overrides_sorted_by_menu_item() {
    let bindings = parse("/prefs/com.example.App.plist", PREFS.as_bytes()).unwrap();
    assert_eq!(bindings.len(), 2);
    assert_eq!(bindings[0].label, "New");
    assert_eq!(bindings[1].label, "Save All");
    assert_eq!(bindings[0].combo, KeyCombo { modifiers: Modifiers::cmd(), key: Key::Char('n') });
    match &bindings[1].source {
        BindingSource::AppMenuOverride { bundle_id, menu_item } => {
            assert_eq!(bundle_id, "com.example.App");
            assert_eq!(menu_item, "Save All");
        }
        other => panic!("unexpected source {other:?}"),
    }
}

#[test]
fn parse_without_overrides_gives_nothing() {
    let xml = r#"<?xml version="1.0"?><plist version="1.0"><array><true/></array></plist>"#;
    assert!(parse("com.example.plist", xml.as_bytes()).unwrap().is_empty());
    let xml = r#"<?xml version="1.0"?><plist version="1.0"><dict><key>A</key><true/></dict></plist>"#;
    assert!(parse("com.example.plist", xml.as_bytes()).unwrap().is_empty());
}

#[test]
fn parse_refuses_a_path_without_a_file_name() {
    match parse("/prefs/..", PREFS.as_bytes()) {
        Err(ScanError::Schema { message, .. }) => assert_eq!(message, "filename has no bundle id stem"),
        other => panic!("unexpected result {other:?}"),
    }
}

#[test]
fn parse_reports_malformed_plists() {
    match parse("com.example.plist", b"<plist><dict><key>a</key>") {
        Err(ScanError::Schema { message, .. }) => assert!(message.starts_with("plist")),
        other => panic!("unexpected result {other:?}"),
    }
}

#[test]
fn source_keeps_its_directory() {
    let s = AppMenuOverrides::new("/Users/me/Library/Preferences".to_string());
    assert_eq!(s.prefs_dir(), "/Users/me/Library/Preferences");
    assert_eq!(s.name(), "nsuserkeyequivalents");
}

#[test]
fn directory_walk_parses_only_plist_files_and_keeps_results() {
    let mut walk = OverrideScan::new();
    assert_eq!(walk.consider(false, "/p/com.a.plist"), EntryStep::Skip);
    assert_eq!(walk.consider(true, "/p/notes.txt"), EntryStep::Skip);
    assert_eq!(walk.consider(true, "/p/.plist"), EntryStep::Skip);
    assert_eq!(walk.consider(true, "/p/com.a.plist"), EntryStep::Parse);
    assert!(walk.absorb(parse("/p/com.a.plist", PREFS.as_bytes())));
    assert!(walk.absorb(Err(ScanError::Io { path: "x".to_string(), message: "gone".to_string() })));
    assert_eq!(walk.finish().len(), 2);
}

#[test]
fn bundle_id_is_the_file_stem() {
    assert_eq!(
        bundle_id_from_path("/Users/me/Library/Preferences/com.apple.Safari.plist").as_deref(),
        Some("com.apple.Safari")
    );
    assert_eq!(bundle_id_from_path("/Users/me/Library/Preferences/.."), None);
}

#[test]
fn overrides_come_out_sorted_by_title() {
    let plist = r#"<?xml version="1.0" encoding="UTF-8"?>
<plist version="1.0"><dict><key>NSUserKeyEquivalents</key><dict>
<key>Zoom</key><string>@z</string>
<key>About</key><string>@a</string>
<key>Minimize</key><string>@m</string>
</dict></dict></plist>"#;
    let found = parse("/p/com.example.plist", plist.as_bytes()).unwrap();
    let titles: Vec<&str> = found.iter().map(|b| b.label.as_str()).collect();
    assert_eq!(titles, vec!["About", "Minimize", "Zoom"]);
}

#[test]
fn overrides_are_read_from_a_decoded_root() {
    let equivalents = PlistValue::Dictionary(vec![
        ("Save".to_string(), PlistValue::String("@s".to_string())),
        ("Broken".to_string(), PlistValue::String("@".to_string())),
        ("Number".to_string(), PlistValue::Integer(Some(3))),
        ("Close".to_string(), PlistValue::String("@~w".to_string())),
    ]);
    let root = PlistValue::Dictionary(vec![("NSUserKeyEquivalents".to_string(), equivalents)]);
    let found = overrides_in("com.example", &root);
    let rows: Vec<(String, KeyCombo)> = found.iter().map(|b| (b.label.clone(), b.combo)).collect();
    assert_eq!(
        rows,
        vec![
            ("Close".to_string(), KeyCombo { modifiers: Modifiers::cmd().union(Modifiers::opt()), key: Key::Char('w') }),
            ("Save".to_string(), KeyCombo { modifiers: Modifiers::cmd(), key: Key::Char('s') }),
        ]
    );
    assert!(overrides_in("com.example", &PlistValue::Array(vec![])).is_empty());
}

#[test]
fn directory_walk_keeps_the_first_overrides_in_listing_order() {
    let override_of = |app: &str, i: usize| tussle::binding::Binding {
        combo: KeyCombo { modifiers: Modifiers::cmd(), key: Key::Char('k') },
        source: BindingSource::AppMenuOverride { bundle_id: app.to_string(), menu_item: format!("{i}") },
        label: format!("{i}"),
    };
    let mut walk = OverrideScan::new();
    assert_eq!(walk.consider(true, "/p/a.plist"), EntryStep::Parse);
    assert!(walk.absorb(Ok((0..6000).map(|i| override_of("a", i)).collect())));
    assert_eq!(walk.consider(true, "/p/broken.plist"), EntryStep::Parse);
    assert!(walk.absorb(Err(ScanError::Schema { path: "/p/broken.plist".to_string(), message: "bad".to_string() })));
    assert_eq!(walk.consider(true, "/p/b.plist"), EntryStep::Parse);
    assert!(!walk.absorb(Ok((0..6000).map(|i| override_of("b", i)).collect())));
    let found = walk.finish();
    assert_eq!(found.len(), 10_000);
    assert_eq!(found[5999].source.owner(), "a");
    assert_eq!(found[6000].source.owner(), "b");
    assert_eq!(found[9999].label, "3999");
}
