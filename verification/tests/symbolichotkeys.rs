use tussle::binding::{BindingSource, ScanError};
use tussle::keys::{Key, KeyCombo, Modifiers, NamedKey};
use tussle::plist_file::PlistValue;
use tussle::symbolichotkeys::{
    decode_key, decode_modifiers, emit, label_for, macos_defaults, merge_with_defaults,
    parse_overrides, scan_contents, Override, SymbolicHotkeys,
};

fn ids(bindings: &[tussle::binding::Binding]) -> Vec<u32> {
    bindings
        .iter()
        .map(|b| match b.source {
            BindingSource::SystemSymbolicHotkey { id } => id,
            _ => panic!("not a symbolic hotkey"),
        })
        .collect()
}

#[test]
fn decode_modifiers_reads_each_nsevent_flag() {
    let m = decode_modifiers(0x0010_0000 | 0x0002_0000);
    assert_eq!(m, Modifiers::cmd().union(Modifiers::shift()));
    assert_eq!(decode_modifiers(0x0080_0000), Modifiers::function());
    assert_eq!(decode_modifiers(0x0004_0000 | 0x0008_0000), Modifiers::ctrl().union(Modifiers::opt()));
    assert_eq!(decode_modifiers(0), Modifiers::empty());
}

#[test]
fn decode_key_prefers_named_keycodes_then_characters() {
    assert_eq!(decode_key(32, 49), Key::Named(NamedKey::Space));
    assert_eq!(decode_key(51, 20), Key::Char('3'));
    assert_eq!(decode_key(65535, 20), Key::Virtual(20));
    assert_eq!(decode_key(27, 200), Key::Virtual(200));
    assert_eq!(decode_key(65535, 65535), Key::Virtual(0));
    assert_eq!(decode_key(-1, -1), Key::Virtual(0));
    assert_eq!(decode_key(0xD800, 70000), Key::Virtual(0));
}

#[test]
fn labels_follow_system_settings() {
    assert_eq!(label_for(64), Some("Show Spotlight search"));
    assert_eq!(label_for(80), Some("Move left a space"));
    assert_eq!(label_for(1000), None);
}

#[test]
fn emitted_bindings_carry_a_generic_label_for_unknown_ids() {
    let combo = KeyCombo { modifiers: Modifiers::cmd(), key: Key::Char('k') };
    let b = emit(999, combo);
    assert_eq!(b.label, "Symbolic hotkey #999");
    assert_eq!(b.combo, combo);
    assert_eq!(emit(64, combo).label, "Show Spotlight search");
}

#[test]
fn defaults_table_has_distinct_ids() {
    let mut ids: Vec<u32> = macos_defaults().iter().map(|(id, _)| *id).collect();
    let n = ids.len();
    ids.sort();
    ids.dedup();
    assert_eq!(ids.len(), n);
    assert_eq!(n, 17);
}

#[test]
fn merge_without_overrides_gives_the_defaults_in_id_order() {
    let merged = merge_with_defaults(&Vec::new());
    assert_eq!(ids(&merged), vec![28, 29, 30, 31, 32, 33, 60, 61, 64, 65, 79, 81, 118, 119, 120, 121, 184]);
}

#[test]
fn merge_applies_disabled_custom_and_later_records() {
    let custom = KeyCombo { modifiers: Modifiers::opt(), key: Key::Char('x') };
    let records = vec![
        (64, Override::Disabled),
        (32, Override::Custom(custom)),
        (500, Override::Custom(custom)),
        (501, Override::EnabledWithDefault),
        (64, Override::EnabledWithDefault),
        (33, Override::Disabled),
    ];
    let merged = merge_with_defaults(&records);
    let got = ids(&merged);
    assert!(!got.contains(&33));
    assert!(got.contains(&64));
    assert!(got.contains(&500));
    assert!(!got.contains(&501));
    let b32 = merged.iter().find(|b| matches!(b.source, BindingSource::SystemSymbolicHotkey { id: 32 })).unwrap();
    assert_eq!(b32.combo, custom);
    let b500 = merged.iter().find(|b| matches!(b.source, BindingSource::SystemSymbolicHotkey { id: 500 })).unwrap();
    assert_eq!(b500.label, "Symbolic hotkey #500");
    let mut sorted = got.clone();
    sorted.sort();
    assert_eq!(got, sorted);
}

const PLIST: &str = r#"<?xml version="1.0" encoding="UTF-8"?>
<plist version="1.0">
<dict>
  <key>AppleSymbolicHotKeys</key>
  <dict>
    <key>64</key>
    <dict><key>enabled</key><false/></dict>
    <key>60</key>
    <dict>
      <key>enabled</key><true/>
      <key>value</key>
      <dict>
        <key>parameters</key>
        <array><integer>32</integer><integer>49</integer><integer>1179648</integer></array>
        <key>type</key><string>standard</string>
      </dict>
    </dict>
    <key>777</key>
    <dict>
      <key>value</key>
      <dict>
        <key>parameters</key>
        <array><integer>107</integer><integer>40</integer><integer>1048576</integer></array>
      </dict>
    </dict>
    <key>28</key>
    <dict>
      <key>value</key>
      <dict>
        <key>parameters</key>
        <array><integer>65535</integer><integer>65535</integer><integer>0</integer></array>
      </dict>
    </dict>
    <key>not-a-number</key>
    <dict><key>enabled</key><false/></dict>
  </dict>
</dict>
</plist>"#;

#[test]
fn scan_merges_plist_overrides_with_defaults() {
    let merged = scan_contents("hotkeys.plist", PLIST.as_bytes()).unwrap();
    let got = ids(&merged);
    assert!(!got.contains(&64));
    assert!(got.contains(&777));
    assert!(got.contains(&28));
    let b60 = merged.iter().find(|b| matches!(b.source, BindingSource::SystemSymbolicHotkey { id: 60 })).unwrap();
    assert_eq!(
        b60.combo,
        KeyCombo { modifiers: Modifiers::cmd().union(Modifiers::shift()), key: Key::Named(NamedKey::Space) }
    );
    let b777 = merged.iter().find(|b| matches!(b.source, BindingSource::SystemSymbolicHotkey { id: 777 })).unwrap();
    assert_eq!(b777.combo, KeyCombo { modifiers: Modifiers::cmd(), key: Key::Char('k') });
    let b28 = merged.iter().find(|b| matches!(b.source, BindingSource::SystemSymbolicHotkey { id: 28 })).unwrap();
    assert_eq!(
        b28.combo,
        KeyCombo { modifiers: Modifiers::shift().union(Modifiers::cmd()), key: Key::Char('3') }
    );
}

#[test]
fn scan_refuses_plists_of_the_wrong_shape() {
    let xml = r#"<?xml version="1.0"?><plist version="1.0"><array/></plist>"#;
    match scan_contents("h.plist", xml.as_bytes()) {
        Err(ScanError::Schema { message, .. }) => assert_eq!(message, "root is not a dictionary"),
        other => panic!("unexpected result {other:?}"),
    }
    let xml = r#"<?xml version="1.0"?><plist version="1.0"><dict/></plist>"#;
    match scan_contents("h.plist", xml.as_bytes()) {
        Err(ScanError::Schema { message, .. }) => assert_eq!(message, "missing AppleSymbolicHotKeys dict"),
        other => panic!("unexpected result {other:?}"),
    }
}

#[test]
fn source_keeps_its_path() {
    let s = SymbolicHotkeys::new("/p/com.apple.symbolichotkeys.plist".to_string());
    assert_eq!(s.plist_path(), "/p/com.apple.symbolichotkeys.plist");
    assert_eq!(s.name(), "symbolichotkeys");
}

#[test]
fn overrides_keep_the_last_record_per_id() {
    let flag = |on: bool| PlistValue::Dictionary(vec![("enabled".to_string(), PlistValue::Boolean(on))]);
    // "10" and "010" name the same hotkey: the later record wins.
    let entries = PlistValue::Dictionary(vec![
        ("10".to_string(), flag(false)),
        ("11".to_string(), flag(true)),
        ("010".to_string(), flag(true)),
        ("x".to_string(), flag(false)),
    ]);
    let root = PlistValue::Dictionary(vec![("AppleSymbolicHotKeys".to_string(), entries)]);
    let mut map = parse_overrides("h.plist", &root).unwrap();
    map.sort_by_key(|(id, _)| *id);
    let got: Vec<(u32, bool)> = map.iter().map(|(id, o)| (*id, matches!(o, Override::Disabled))).collect();
    assert_eq!(got, vec![(10, false), (11, false)]);
}
