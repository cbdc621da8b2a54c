use tussle::accessibility::{
    absorb_batch, binding_storage_bytes, bounded_concurrency, bounded_identity, is_menu_app,
    matches_bundle_filter, menu_binding_storage_bytes, select_apps, RunningApp,
    MAX_CONCURRENT_APP_WALKS, MAX_RUNNING_APPS,
};
use tussle::binding::{Binding, BindingSource};
use tussle::keys::{Key, KeyCombo, Modifiers};

#[test]
fn filter_matches_bundle_id_substring_case_insensitive() {
    let filter = vec!["rustrover".to_string()];
    assert!(matches_bundle_filter(Some("com.jetbrains.RustRover"), None, &filter));
    assert!(matches_bundle_filter(Some("COM.JETBRAINS.RUSTROVER"), None, &filter));
}

#[test]
fn filter_matches_app_name_substring_case_insensitive() {
    let filter = vec!["chrome".to_string()];
    assert!(matches_bundle_filter(Some("com.google.Chrome"), Some("Google Chrome"), &filter));
    assert!(matches_bundle_filter(None, Some("Google Chrome"), &filter));
}

#[test]
fn filter_misses_unrelated_app() {
    let filter = vec!["webstorm".to_string()];
    assert!(!matches_bundle_filter(Some("com.apple.finder"), Some("Finder"), &filter));
}

#[test]
fn filter_or_semantics_across_multiple_terms() {
    let filter = vec!["webstorm".to_string(), "datagrip".to_string()];
    assert!(matches_bundle_filter(Some("com.jetbrains.WebStorm"), None, &filter));
    assert!(matches_bundle_filter(Some("com.jetbrains.datagrip"), None, &filter));
    assert!(!matches_bundle_filter(Some("com.apple.finder"), None, &filter));
}

#[test]
fn concurrency_is_never_unbounded() {
    assert_eq!(bounded_concurrency(0), MAX_CONCURRENT_APP_WALKS);
    assert_eq!(bounded_concurrency(32), 32);
    assert_eq!(bounded_concurrency(usize::MAX), MAX_CONCURRENT_APP_WALKS);
}

#[test]
fn empty_filter_matches_everything() {
    assert!(matches_bundle_filter(Some("com.apple.finder"), Some("Finder"), &Vec::new()));
    assert!(matches_bundle_filter(None, None, &Vec::new()));
}

fn app(pid: i32, bundle: &str, name: &str) -> RunningApp {
    RunningApp { pid, bundle_id: Some(bundle.to_string()), app_name: Some(name.to_string()) }
}

#[test]
fn select_apps_applies_filter_and_keeps_order() {
    let apps = vec![
        app(1, "com.jetbrains.WebStorm", "WebStorm"),
        app(2, "com.apple.finder", "Finder"),
        app(3, "com.jetbrains.datagrip", "DataGrip"),
    ];
    let kept = select_apps(apps, &vec!["JETBRAINS".to_string()]);
    let pids: Vec<i32> = kept.iter().map(|a| a.pid).collect();
    assert_eq!(pids, vec![1, 3]);
}

#[test]
fn select_apps_without_filter_truncates_at_the_limit() {
    let apps: Vec<RunningApp> = (0..(MAX_RUNNING_APPS as i32 + 5)).map(|i| app(i, "b", "n")).collect();
    let kept = select_apps(apps, &Vec::new());
    assert_eq!(kept.len(), MAX_RUNNING_APPS);
    assert_eq!(kept[0].pid, 0);
}

#[test]
fn menu_app_excludes_xpc_services_and_prohibited_apps() {
    assert!(is_menu_app(false, true, Some("/Applications/Safari.app/Contents/MacOS/Safari")));
    assert!(!is_menu_app(false, true, Some("/System/Library/Frameworks/WebKit.framework/XPCServices/x")));
    assert!(!is_menu_app(true, true, None));
    assert!(!is_menu_app(false, false, None));
    assert!(is_menu_app(false, true, None));
}

#[test]
fn identity_strings_are_bounded() {
    assert_eq!(bounded_identity(Some("a".repeat(4096))), Some("a".repeat(4096)));
    assert_eq!(bounded_identity(Some("a".repeat(4097))), None);
    assert_eq!(bounded_identity(None), None);
}

fn menu_binding(label: &str, path: Vec<&str>) -> Binding {
    Binding {
        combo: KeyCombo { modifiers: Modifiers::cmd(), key: Key::Char('n') },
        source: BindingSource::AppMenuItem {
            bundle_id: "com.example".to_string(),
            app_name: Some("Example".to_string()),
            menu_path: path.into_iter().map(String::from).collect(),
        },
        label: label.to_string(),
    }
}

#[test]
fn storage_counts_overhead_label_and_source_text() {
    // 256 + "New"(3) + "com.example"(11) + "Example"(7) + "File"(4) + "New"(3)
    assert_eq!(binding_storage_bytes(&menu_binding("New", vec!["File", "New"])), 284);
    let app = app(1, "com.example", "Example");
    assert_eq!(
        menu_binding_storage_bytes(&app, &vec!["File".to_string(), "New".to_string()], "New"),
        284
    );
}

#[test]
fn batch_stops_at_the_first_binding_over_budget() {
    let mut kept = Vec::new();
    let mut remaining = 600usize;
    let batch = vec![
        menu_binding("New", vec!["File", "New"]),
        menu_binding("Open", vec!["File", "Open"]),
        menu_binding("Save", vec!["File", "Save"]),
    ];
    assert!(absorb_batch(&mut kept, &mut remaining, batch));
    assert_eq!(kept.len(), 2);
    assert_eq!(remaining, 600 - 284 - 286);
}
