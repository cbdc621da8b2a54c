use tussle::binding::{Binding, BindingSource};
use tussle::combo::ComboToken;
use tussle::keys::{Key, KeyCombo, Modifiers};
use tussle::listing::{
    binding_matches_app_filter, binding_matches_key_filter, default_level, default_log_filter,
    list_bindings, owners_of, sort_bindings, GroupBy,
};

fn binding(owner: &str, bundle: &str, key: char) -> Binding {
    Binding {
        combo: KeyCombo { modifiers: Modifiers::cmd(), key: Key::Char(key) },
        source: BindingSource::AppMenuItem {
            bundle_id: bundle.to_string(),
            app_name: Some(owner.to_string()),
            menu_path: vec![],
        },
        label: "x".to_string(),
    }
}

#[test]
fn verbosity_selects_the_log_level() {
    assert_eq!(default_level(0), "warn");
    assert_eq!(default_level(1), "info");
    assert_eq!(default_level(2), "debug");
    assert_eq!(default_level(9), "trace");
    assert_eq!(default_log_filter(1), "tussle=info,tussle_core=info");
}

#[test]
fn app_filter_matches_owner_or_bundle_id() {
    let finder = binding("访达", "com.apple.finder", 'n');
    assert!(binding_matches_app_filter(&finder, &vec!["finder".to_string()]));
    assert!(binding_matches_app_filter(&finder, &vec!["访达".to_string()]));
    assert!(!binding_matches_app_filter(&finder, &vec!["safari".to_string()]));
    let system = Binding {
        combo: KeyCombo { modifiers: Modifiers::ctrl(), key: Key::Char('1') },
        source: BindingSource::SystemSymbolicHotkey { id: 118 },
        label: "Switch to Desktop 1".to_string(),
    };
    assert!(binding_matches_app_filter(&system, &vec!["macos".to_string()]));
}

#[test]
fn key_filter_uses_or_semantics() {
    let b = binding("A", "a", 'n');
    let tokens = vec![ComboToken::parse("opt").unwrap(), ComboToken::parse("n").unwrap()];
    assert!(binding_matches_key_filter(&b, &tokens));
    assert!(!binding_matches_key_filter(&b, &vec![ComboToken::parse("opt").unwrap()]));
    assert!(!binding_matches_key_filter(&b, &Vec::new()));
}

#[test]
fn sorting_groups_by_combo_then_owner() {
    let list = vec![binding("Zed", "z", 'b'), binding("Alpha", "a", 'b'), binding("Mid", "m", 'a')];
    let sorted = sort_bindings(list, GroupBy::Combo);
    let owners: Vec<&str> = sorted.iter().map(|b| b.source.owner()).collect();
    assert_eq!(owners, vec!["Mid", "Alpha", "Zed"]);
}

#[test]
fn sorting_groups_by_owner_then_combo() {
    let list = vec![binding("Zed", "z", 'a'), binding("Alpha", "a", 'b'), binding("Alpha", "a", 'a')];
    let sorted = sort_bindings(list, GroupBy::Owner);
    let rows: Vec<String> = sorted.iter().map(|b| format!("{} {}", b.source.owner(), b.combo.to_text())).collect();
    assert_eq!(rows, vec!["Alpha cmd+a", "Alpha cmd+b", "Zed cmd+a"]);
}

#[test]
fn sorting_keeps_equal_keys_in_their_found_order() {
    let mut first = binding("Same", "s", 'k');
    first.label = "first".to_string();
    let mut second = binding("Same", "s", 'k');
    second.label = "second".to_string();
    let sorted = sort_bindings(vec![second.clone(), binding("Early", "e", 'a'), first.clone()], GroupBy::Combo);
    let labels: Vec<&str> = sorted.iter().map(|b| b.label.as_str()).collect();
    assert_eq!(labels, vec!["x", "second", "first"]);
}

#[test]
fn listing_applies_both_filters_then_sorts() {
    let found = vec![
        binding("Zed", "dev.zed.Zed", 'n'),
        binding("Finder", "com.apple.finder", 'n'),
        binding("Zed", "dev.zed.Zed", 'o'),
        binding("Safari", "com.apple.Safari", 'n'),
    ];
    let apps = vec!["ZED".to_string(), "finder".to_string()];
    let keys = vec![ComboToken::parse("n").unwrap()];
    let listed = list_bindings(found.clone(), &apps, &keys, GroupBy::Owner);
    let owners: Vec<&str> = listed.iter().map(|b| b.source.owner()).collect();
    assert_eq!(owners, vec!["Finder", "Zed"]);
    let everything = list_bindings(found, &Vec::new(), &Vec::new(), GroupBy::Combo);
    let rows: Vec<String> = everything.iter().map(|b| format!("{} {}", b.combo.to_text(), b.source.owner())).collect();
    assert_eq!(rows, vec!["cmd+n Finder", "cmd+n Safari", "cmd+n Zed", "cmd+o Zed"]);
}

#[test]
fn lookup_keeps_only_the_combo_in_found_order() {
    let found = vec![binding("B", "b", 'n'), binding("A", "a", 'o'), binding("C", "c", 'n')];
    let combo = KeyCombo { modifiers: Modifiers::cmd(), key: Key::Char('n') };
    let owners: Vec<String> = owners_of(found, &combo).iter().map(|b| b.source.owner().to_string()).collect();
    assert_eq!(owners, vec!["B", "C"]);
}
