use tussle::combo::{ComboError, ComboToken};
use tussle::keys::{Key, KeyCombo, Modifiers, NamedKey};

#[test]
fn combos_are_written_in_macos_modifier_order() {
    let c = KeyCombo { modifiers: Modifiers::cmd().union(Modifiers::shift()), key: Key::Char('5') };
    assert_eq!(c.to_text(), "shift+cmd+5");
    let c = KeyCombo {
        modifiers: Modifiers::function().union(Modifiers::ctrl()).union(Modifiers::opt()),
        key: Key::Named(NamedKey::F(12)),
    };
    assert_eq!(c.to_text(), "fn+ctrl+opt+f12");
    let c = KeyCombo { modifiers: Modifiers::empty(), key: Key::Virtual(160) };
    assert_eq!(c.to_text(), "vk160");
}

#[test]
fn combo_text_parses_case_insensitively_with_aliases() {
    let c = KeyCombo::parse("Command+Option+B").unwrap();
    assert_eq!(c, KeyCombo { modifiers: Modifiers::cmd().union(Modifiers::opt()), key: Key::Char('b') });
    let c = KeyCombo::parse("ctrl+space").unwrap();
    assert_eq!(c, KeyCombo { modifiers: Modifiers::ctrl(), key: Key::Named(NamedKey::Space) });
    let c = KeyCombo::parse("shift+cmd+5").unwrap();
    assert_eq!(c.to_text(), "shift+cmd+5");
    let c = KeyCombo::parse("globe+f1").unwrap();
    assert_eq!(c, KeyCombo { modifiers: Modifiers::function(), key: Key::Named(NamedKey::F(1)) });
}

#[test]
fn combo_text_errors_name_the_offending_part() {
    match KeyCombo::parse("cmd+hyper+b") {
        Err(e @ ComboError::UnknownModifier(_)) => assert_eq!(e.message(), "unknown modifier `hyper`"),
        other => panic!("unexpected result {other:?}"),
    }
    match KeyCombo::parse("cmd+") {
        Err(e @ ComboError::UnknownKey(_)) => assert_eq!(e.message(), "unknown key ``"),
        other => panic!("unexpected result {other:?}"),
    }
    assert!(KeyCombo::parse("cmd+f21").is_err());
}

#[test]
fn tokens_match_modifiers_or_keys() {
    let c = KeyCombo { modifiers: Modifiers::cmd().union(Modifiers::shift()), key: Key::Named(NamedKey::Space) };
    assert!(ComboToken::parse("CMD").unwrap().matches(&c));
    assert!(ComboToken::parse("space").unwrap().matches(&c));
    assert!(!ComboToken::parse("opt").unwrap().matches(&c));
    assert!(!ComboToken::parse("f1").unwrap().matches(&c));
    assert!(matches!(ComboToken::parse("nonsense"), Err(ComboError::UnknownToken(_))));
}

#[test]
fn written_combos_read_back() {
    let combos = vec![
        KeyCombo { modifiers: Modifiers::cmd().union(Modifiers::shift()), key: Key::Char('5') },
        KeyCombo { modifiers: Modifiers::function().union(Modifiers::ctrl()).union(Modifiers::opt()), key: Key::Named(NamedKey::F(12)) },
        KeyCombo { modifiers: Modifiers::empty(), key: Key::Named(NamedKey::ForwardDelete) },
        KeyCombo { modifiers: Modifiers::ctrl(), key: Key::Virtual(179) },
        KeyCombo { modifiers: Modifiers::opt(), key: Key::Named(NamedKey::Space) },
    ];
    for c in combos {
        let text = c.to_text();
        assert_eq!(KeyCombo::parse_lowercase(&text).unwrap(), c, "{text}");
        assert_eq!(KeyCombo::parse(&text).unwrap(), c, "{text}");
    }
}
