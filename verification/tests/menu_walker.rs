use tussle::accessibility::{matches_bundle_filter, RunningApp};
use tussle::listing::binding_matches_app_filter;
use tussle::binding::BindingSource;
use tussle::keys::{Key, KeyCombo, Modifiers};
use tussle::menu_walker::{
    decode_ax_modifiers, read_key_equivalent, MenuItemInfo, MenuWalk, WalkRequest, MAX_MENU_NODES_PER_APP,
};

fn app() -> RunningApp {
    RunningApp { pid: 7, bundle_id: Some("com.example".to_string()), app_name: Some("Example".to_string()) }
}

fn item(title: &str, cmd: Option<&str>, mask: Option<i64>) -> MenuItemInfo {
    MenuItemInfo { title: Some(title.to_string()), cmd_char: cmd.map(String::from), cmd_modifiers: mask }
}

#[test]
fn ax_modifier_masks_decode() {
    assert_eq!(decode_ax_modifiers(0), Modifiers::cmd());
    assert_eq!(decode_ax_modifiers(1), Modifiers::cmd().union(Modifiers::shift()));
    assert_eq!(decode_ax_modifiers(8 | 4), Modifiers::ctrl());
    assert_eq!(decode_ax_modifiers(2), Modifiers::cmd().union(Modifiers::opt()));
}

#[test]
fn key_equivalent_uses_first_character() {
    assert_eq!(
        read_key_equivalent(&item("New", Some("N"), None)),
        Some(KeyCombo { modifiers: Modifiers::cmd(), key: Key::Char('n') })
    );
    assert_eq!(read_key_equivalent(&item("New", Some(""), None)), None);
    assert_eq!(read_key_equivalent(&item("New", None, Some(1))), None);
}

#[test]
fn walk_visits_menus_depth_first_and_keeps_key_equivalents() {
    // Menu bar 1 has items 10 (File) and 11 (non-element skipped: None);
    // File has one submenu 20 whose items are 30 (New, cmd+N) and 31 (Close, no key).
    let (mut walk, mut req) = MenuWalk::start(app(), &vec![1]);
    assert_eq!(req, WalkRequest::Children(1));
    req = walk.answer_children(Some(vec![Some(10), None]));
    assert_eq!(req, WalkRequest::Item(10));
    req = walk.answer_item(item("File", None, None));
    assert_eq!(req, WalkRequest::Children(10));
    req = walk.answer_children(Some(vec![Some(20)]));
    assert_eq!(req, WalkRequest::Children(20));
    req = walk.answer_children(Some(vec![Some(30), Some(31)]));
    assert_eq!(req, WalkRequest::Item(30));
    req = walk.answer_item(item("New", Some("N"), Some(0)));
    assert_eq!(req, WalkRequest::Children(30));
    req = walk.answer_children(None);
    assert_eq!(req, WalkRequest::Item(31));
    req = walk.answer_item(item("Close", None, None));
    assert_eq!(req, WalkRequest::Children(31));
    req = walk.answer_children(Some(vec![]));
    assert_eq!(req, WalkRequest::Done);
    let found = walk.finish();
    assert_eq!(found.len(), 1);
    assert_eq!(found[0].label, "New");
    assert_eq!(found[0].combo, KeyCombo { modifiers: Modifiers::cmd(), key: Key::Char('n') });
    match &found[0].source {
        BindingSource::AppMenuItem { bundle_id, app_name, menu_path } => {
            assert_eq!(bundle_id, "com.example");
            assert_eq!(app_name.as_deref(), Some("Example"));
            assert_eq!(menu_path, &vec!["File".to_string(), "New".to_string()]);
        }
        other => panic!("unexpected source {other:?}"),
    }
}

#[test]
fn walk_stops_descending_past_the_depth_limit() {
    let (mut walk, mut req) = MenuWalk::start(app(), &vec![1]);
    let mut next_id = 100;
    let mut depth = 0;
    loop {
        match req {
            WalkRequest::Children(_) => {
                next_id += 1;
                req = walk.answer_children(Some(vec![Some(next_id)]));
            }
            WalkRequest::Item(_) => {
                depth += 1;
                req = walk.answer_item(item("Deeper", None, None));
            }
            WalkRequest::Done => break,
        }
        assert!(depth < 100, "walk did not stop");
    }
    assert_eq!(depth, 17);
}

#[test]
fn walk_asks_for_every_menu_bar() {
    let (mut walk, req) = MenuWalk::start(app(), &vec![1, 2]);
    assert_eq!(req, WalkRequest::Children(1));
    assert_eq!(walk.answer_children(None), WalkRequest::Children(2));
    assert_eq!(walk.answer_children(None), WalkRequest::Done);
    assert!(walk.finish().is_empty());
}

#[test]
fn walk_reads_at_most_the_node_budget() {
    let (mut walk, mut req) = MenuWalk::start(app(), &vec![1]);
    assert_eq!(req, WalkRequest::Children(1));
    let items: Vec<Option<u64>> = (0..10_005u64).map(|i| Some(1000 + i)).collect();
    req = walk.answer_children(Some(items));
    let mut read = 0;
    loop {
        match req {
            WalkRequest::Item(_) => {
                read += 1;
                req = walk.answer_item(item("Item", None, None));
            }
            WalkRequest::Children(_) => req = walk.answer_children(None),
            WalkRequest::Done => break,
        }
    }
    assert_eq!(read, MAX_MENU_NODES_PER_APP);
    assert!(walk.finish().is_empty());
}

#[test]
fn walk_keeps_bindings_while_the_byte_budget_lasts() {
    // Each binding is charged 256 + "com.example" + "Example" + path "Item"
    // + title "Item" = 282 bytes; 3718 of them fit in 1 MiB, the 3719th
    // does not and ends the walk.
    let (mut walk, _) = MenuWalk::start(app(), &vec![1]);
    let items: Vec<Option<u64>> = (0..5_000u64).map(|i| Some(1000 + i)).collect();
    let mut req = walk.answer_children(Some(items));
    let mut read = 0;
    loop {
        match req {
            WalkRequest::Item(_) => {
                read += 1;
                req = walk.answer_item(item("Item", Some("k"), Some(0)));
            }
            WalkRequest::Children(_) => req = walk.answer_children(None),
            WalkRequest::Done => break,
        }
    }
    assert_eq!(read, 3719);
    assert_eq!(walk.finish().len(), 3718);
}

#[test]
fn walked_bindings_pass_the_listing_filter_that_selected_their_app() {
    let rustrover = RunningApp {
        pid: 9,
        bundle_id: Some("com.jetbrains.RustRover".to_string()),
        app_name: Some("RustRover".to_string()),
    };
    let filter = vec!["rustrover".to_string()];
    assert!(matches_bundle_filter(
        rustrover.bundle_id.as_deref(),
        rustrover.app_name.as_deref(),
        &filter
    ));
    let (mut walk, _) = MenuWalk::start(rustrover, &vec![1]);
    walk.answer_children(Some(vec![Some(2)]));
    walk.answer_item(item("Build", Some("b"), Some(0)));
    walk.answer_children(None);
    let found = walk.finish();
    assert_eq!(found.len(), 1);
    assert!(binding_matches_app_filter(&found[0], &filter));
}

#[test]
fn reported_menu_paths_hold_at_most_one_title_per_level() {
    let (mut walk, mut req) = MenuWalk::start(app(), &vec![1]);
    let mut next_id = 100;
    loop {
        match req {
            WalkRequest::Children(_) => {
                next_id += 1;
                req = walk.answer_children(Some(vec![Some(next_id)]));
            }
            WalkRequest::Item(_) => req = walk.answer_item(item("L", Some("k"), Some(0))),
            WalkRequest::Done => break,
        }
    }
    let found = walk.finish();
    assert_eq!(found.len(), 17);
    let longest = found
        .iter()
        .map(|b| match &b.source {
            BindingSource::AppMenuItem { menu_path, .. } => menu_path.len(),
            _ => 0,
        })
        .max();
    assert_eq!(longest, Some(17));
}
