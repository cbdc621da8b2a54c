use tussle::binding::ScanError;
use tussle::capture::{build_captured, Captured};
use tussle::keys::{Key, KeyCombo, Modifiers, NamedKey};

#[test]
fn keydowns_become_combos_with_named_or_raw_keys() {
    let mods = Modifiers::cmd().union(Modifiers::shift());
    assert_eq!(
        build_captured(0x31, mods),
        Captured::Combo(KeyCombo { modifiers: mods, key: Key::Named(NamedKey::Space) })
    );
    assert_eq!(
        build_captured(0x7A, Modifiers::empty()),
        Captured::Combo(KeyCombo { modifiers: Modifiers::empty(), key: Key::Named(NamedKey::F(1)) })
    );
    assert_eq!(
        build_captured(0x00, mods),
        Captured::Combo(KeyCombo { modifiers: mods, key: Key::Virtual(0x00) })
    );
    assert_eq!(
        build_captured(0x7F, mods),
        Captured::Combo(KeyCombo { modifiers: mods, key: Key::Virtual(0x7F) })
    );
}

#[test]
fn keycodes_from_0x80_are_system_actions() {
    assert_eq!(build_captured(0x80, Modifiers::empty()), Captured::SystemAction { vk: 0x80 });
    assert_eq!(build_captured(0xB0, Modifiers::cmd()), Captured::SystemAction { vk: 0xB0 });
}

#[test]
fn scan_errors_describe_path_and_cause() {
    let io = ScanError::Io { path: "/p/a.plist".to_string(), message: "denied".to_string() };
    assert_eq!(io.describe(), "reading /p/a.plist: denied");
    let schema = ScanError::Schema { path: "/p/b.plist".to_string(), message: "bad".to_string() };
    assert_eq!(schema.describe(), "/p/b.plist: bad");
}
