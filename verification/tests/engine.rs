use app_menu::cache::Bucket;
use app_menu::cache::CacheSlot;
use app_menu::desktop::Launcher;
use app_menu::desktop::category_props;
use app_menu::desktop::clone_props;
use app_menu::desktop::launcher_props;
use app_menu::desktop::launcher_updated;
use app_menu::desktop::root_props;
use app_menu::desktop::tombstone_launcher;
use app_menu::ids::IdAllocator;
use app_menu::layout::LayoutNode;
use app_menu::layout::PropValue;
use app_menu::menu::AddOutcome;
use app_menu::menu::EventOutcome;
use app_menu::menu::Menu;
use app_menu::menu::MenuError;
use app_menu::menu::RemoveOutcome;
use app_menu::taxonomy::Category;

fn launcher(name: &str, cats: Vec<Category>, command: &str, icon: Option<&str>, display: bool, path: &str) -> Launcher {
    Launcher {
        path: path.to_string(),
        name: name.to_string(),
        categories: cats,
        command: command.to_string(),
        icon: icon.map(|s| s.to_string()),
        display,
    }
}

fn menu_with_dirs() -> Menu {
    Menu::new(vec![
        "/user/apps".to_string(),
        "/sys1/apps".to_string(),
        "/sys2/apps".to_string(),
    ])
}

fn node_with_id(node: &LayoutNode, id: u64) -> Option<&LayoutNode> {
    node.children.iter().find(|c| c.id == id)
}

fn count_occurrences(node: &LayoutNode, id: u64) -> usize {
    let mut n = if node.id == id { 1 } else { 0 };
    for c in node.children.iter() {
        n += count_occurrences(c, id);
    }
    n
}

fn prop<'a>(node: &'a LayoutNode, key: &str) -> &'a PropValue {
    &node.props.iter().find(|p| p.0 == key).expect("property missing").1
}

#[test]
fn allocator_is_idempotent_and_injective() {
    let mut a = IdAllocator::new();
    let id1 = a.id_for("alpha".to_string());
    let id2 = a.id_for("beta".to_string());
    let id3 = a.id_for("alpha".to_string());
    assert_eq!(id1, id3);
    assert_ne!(id1, id2);
    assert_eq!(id1, 12);
    assert_eq!(id2, 13);
}

#[test]
fn allocator_many_names_all_distinct() {
    let mut a = IdAllocator::new();
    let names: Vec<String> = (0..40).map(|i| format!("name-{}", i * 7 % 40)).collect();
    let mut ids: Vec<u64> = names.iter().map(|n| a.id_for(n.clone())).collect();
    let before = ids.len();
    ids.sort();
    ids.dedup();
    assert_eq!(ids.len(), before);
    for n in names.iter() {
        let again = a.id_for(n.clone());
        assert_eq!(a.name_for(again).map(|s| s.as_str()), Some(n.as_str()));
    }
}

#[test]
fn allocator_reverse_lookup_bounds() {
    let mut a = IdAllocator::new();
    let id = a.id_for("only".to_string());
    assert_eq!(a.name_for(id).map(|s| s.as_str()), Some("only"));
    assert!(a.name_for(0).is_none());
    assert!(a.name_for(11).is_none());
    assert!(a.name_for(id + 1).is_none());
}

#[test]
fn bucket_prefers_lowest_index_either_order() {
    let user = launcher("U", vec![Category::Utility], "u", None, true, "/user/apps/a.desktop");
    let sys = launcher("S", vec![Category::System], "s", None, true, "/sys2/apps/a.desktop");

    let mut b = Bucket::new(3, 0, CacheSlot { record: user.clone(), icon_data: vec![] });
    b.upsert(2, CacheSlot { record: sys.clone(), icon_data: vec![] });
    let (idx, slot) = b.active();
    assert_eq!(idx, 0);
    assert_eq!(slot.record.name, "U");

    let mut b2 = Bucket::new(3, 2, CacheSlot { record: sys, icon_data: vec![] });
    b2.upsert(0, CacheSlot { record: user, icon_data: vec![] });
    let (idx2, slot2) = b2.active();
    assert_eq!(idx2, 0);
    assert_eq!(slot2.record.name, "U");
}

#[test]
fn bucket_never_empty_after_removing_last_record() {
    let user = launcher("U", vec![Category::Utility], "u", None, true, "/user/apps/a.desktop");
    let mut b = Bucket::new(3, 1, CacheSlot { record: user, icon_data: vec![] });
    let tomb = CacheSlot {
        record: tombstone_launcher("/user/apps/a.desktop".to_string(), "a".to_string()),
        icon_data: vec![],
    };
    let removed = b.remove(1, tomb);
    assert!(removed.is_some());
    let (idx, slot) = b.active();
    assert_eq!(idx, 1);
    assert!(!slot.record.display);
    assert_eq!(slot.record.command, "");
}

#[test]
fn bucket_remove_of_empty_slot_is_refused() {
    let user = launcher("U", vec![Category::Utility], "u", None, true, "/user/apps/a.desktop");
    let mut b = Bucket::new(3, 0, CacheSlot { record: user, icon_data: vec![] });
    let tomb = CacheSlot {
        record: tombstone_launcher("p".to_string(), "a".to_string()),
        icon_data: vec![],
    };
    assert!(b.remove(2, tomb).is_none());
    assert_eq!(b.active().0, 0);
}

#[test]
fn user_copy_wins_over_system_copy() {
    let mut m = menu_with_dirs();
    let user = launcher("User", vec![Category::Utility], "u", None, true, "/user/apps/a.desktop");
    let sys = launcher("Sys", vec![Category::Utility], "s", None, true, "/sys2/apps/a.desktop");

    // system copy arrives first, user copy second
    let r1 = m.add_launcher_path("/sys2/apps/a.desktop", sys.clone(), vec![]);
    assert!(matches!(r1, AddOutcome::Updated { .. }));
    let r2 = m.add_launcher_path("/user/apps/a.desktop", user.clone(), vec![]);
    let id = match r2 {
        AddOutcome::Updated { id, .. } => id,
        _ => panic!("user copy should displace the system copy"),
    };
    match m.get_property(id, "label").unwrap() {
        PropValue::Str(s) => assert_eq!(s, "User"),
        _ => panic!("label should be a string"),
    }

    // the other order: user first, system later changes nothing
    let mut m2 = menu_with_dirs();
    let r3 = m2.add_launcher_path("/user/apps/a.desktop", user, vec![]);
    let id2 = match r3 {
        AddOutcome::Updated { id, .. } => id,
        _ => panic!("first sight should promote"),
    };
    let r4 = m2.add_launcher_path("/sys2/apps/a.desktop", sys, vec![]);
    assert!(matches!(r4, AddOutcome::Cached { .. }));
    match m2.get_property(id2, "label").unwrap() {
        PropValue::Str(s) => assert_eq!(s, "User"),
        _ => panic!("label should be a string"),
    }
}

#[test]
fn removing_active_promotes_differing_record_with_one_bump() {
    let mut m = menu_with_dirs();
    let user = launcher("User", vec![Category::Utility], "u", None, true, "/user/apps/a.desktop");
    let sys = launcher("Sys", vec![Category::System], "s", None, true, "/sys2/apps/a.desktop");
    m.add_launcher_path("/user/apps/a.desktop", user, vec![]);
    m.add_launcher_path("/sys2/apps/a.desktop", sys, vec![]);
    let rev_before = match m.get_layout(0, 0, &vec![]) {
        Ok((rev, _)) => rev,
        Err(_) => panic!("root must exist"),
    };
    let out = m.remove_launcher_path("/user/apps/a.desktop");
    let (id, revision) = match out {
        RemoveOutcome::Promoted { id, revision, .. } => (id, revision),
        _ => panic!("differing record at lower priority must be promoted"),
    };
    assert_eq!(revision, rev_before + 1);
    match m.get_property(id, "label").unwrap() {
        PropValue::Str(s) => assert_eq!(s, "Sys"),
        _ => panic!("label should be a string"),
    }
}

#[test]
fn identical_add_changes_nothing() {
    let mut m = menu_with_dirs();
    let a = launcher("Same", vec![Category::Office], "cmd one", None, true, "/user/apps/s.desktop");
    let r1 = m.add_launcher_path("/user/apps/s.desktop", a.clone(), vec![]);
    assert!(matches!(r1, AddOutcome::Updated { .. }));
    let rev = m.get_layout(0, 0, &vec![]).unwrap().0;
    // same displayed fields, different command line: nothing to announce
    let b = launcher("Same", vec![Category::Office], "cmd two", None, true, "/user/apps/s.desktop");
    let r2 = m.add_launcher_path("/user/apps/s.desktop", b, vec![]);
    assert!(matches!(r2, AddOutcome::Cached { .. }));
    assert_eq!(m.get_layout(0, 0, &vec![]).unwrap().0, rev);
}

#[test]
fn unknown_directory_is_refused() {
    let mut m = menu_with_dirs();
    let a = launcher("X", vec![], "x", None, true, "/elsewhere/x.desktop");
    assert!(matches!(
        m.add_launcher_path("/elsewhere/x.desktop", a, vec![]),
        AddOutcome::UnknownDirectory
    ));
    assert!(matches!(
        m.remove_launcher_path("/elsewhere/x.desktop"),
        RemoveOutcome::UnknownDirectory
    ));
}

#[test]
fn removing_unknown_slot_is_refused() {
    let mut m = menu_with_dirs();
    assert!(matches!(
        m.remove_launcher_path("/user/apps/never.desktop"),
        RemoveOutcome::NotFound
    ));
}

#[test]
fn scenario_single_user_file_then_tombstone() {
    let mut m = menu_with_dirs();
    let a = launcher("Tool", vec![Category::Utility], "tool --x", None, true, "/user/apps/a.desktop");
    let out = m.add_launcher_path("/user/apps/a.desktop", a, vec![]);
    let id = match out {
        AddOutcome::Updated { id, .. } => id,
        _ => panic!("first sight should promote"),
    };
    let (rev1, tree) = m.get_layout(0, -1, &vec![]).unwrap();
    // the item appears exactly once, under Accessories (the Utility category)
    assert_eq!(count_occurrences(&tree, id), 1);
    let utility = node_with_id(&tree, 10).expect("utility category node");
    assert!(utility.children.iter().any(|c| c.id == id));
    assert!(matches!(prop(utility, "visible"), PropValue::Bool(true)));

    // deleting the only file leaves the tombstone
    let out = m.remove_launcher_path("/user/apps/a.desktop");
    let revision = match out {
        RemoveOutcome::Promoted { revision, .. } => revision,
        _ => panic!("tombstone differs from the outgoing record"),
    };
    assert_eq!(revision, rev1 + 1);
    let (_, tree2) = m.get_layout(0, -1, &vec![]).unwrap();
    let utility2 = node_with_id(&tree2, 10).expect("utility category node");
    assert!(utility2.children.is_empty());
    assert!(matches!(prop(utility2, "visible"), PropValue::Bool(false)));
    // the tombstone keeps the bucket alive but spawns nothing
    match m.event(id, "clicked") {
        EventOutcome::Clicked { spawn } => assert!(spawn.is_none()),
        _ => panic!("clicks are always activations"),
    }
}

#[test]
fn layout_depth_one_and_unlimited() {
    let mut m = menu_with_dirs();
    let a = launcher("Tool", vec![Category::Utility], "t", None, true, "/user/apps/a.desktop");
    let id = match m.add_launcher_path("/user/apps/a.desktop", a, vec![]) {
        AddOutcome::Updated { id, .. } => id,
        _ => panic!("first sight should promote"),
    };

    let (_, none) = m.get_layout(0, 0, &vec![]).unwrap();
    assert!(none.children.is_empty());

    let (_, shallow) = m.get_layout(0, 1, &vec![]).unwrap();
    assert_eq!(shallow.children.len(), 11);
    for c in shallow.children.iter() {
        assert!(c.children.is_empty());
    }

    let (_, full) = m.get_layout(0, -1, &vec![]).unwrap();
    assert_eq!(full.children.len(), 11);
    let utility = node_with_id(&full, 10).unwrap();
    assert_eq!(utility.children.len(), 1);
    assert_eq!(utility.children[0].id, id);
    assert!(utility.children[0].children.is_empty());

    assert!(matches!(m.get_layout(9999, -1, &vec![]), Err(MenuError::ItemNotFound)));
}

#[test]
fn layout_filter_restricts_properties() {
    let mut m = menu_with_dirs();
    let a = launcher("Tool", vec![Category::Utility], "t", None, true, "/user/apps/a.desktop");
    m.add_launcher_path("/user/apps/a.desktop", a, vec![]);
    let (_, tree) = m.get_layout(0, 1, &vec!["label".to_string()]).unwrap();
    assert_eq!(tree.props.len(), 1);
    assert_eq!(tree.props[0].0, "label");
    for c in tree.children.iter() {
        assert_eq!(c.props.len(), 1);
        assert_eq!(c.props[0].0, "label");
    }
}

#[test]
fn children_sorted_by_label() {
    let mut m = menu_with_dirs();
    let z = launcher("Zed", vec![Category::Utility], "z", None, true, "/user/apps/z.desktop");
    let al = launcher("Alpha", vec![Category::Utility], "a", None, true, "/user/apps/b.desktop");
    let idz = match m.add_launcher_path("/user/apps/z.desktop", z, vec![]) {
        AddOutcome::Updated { id, .. } => id,
        _ => panic!("promote"),
    };
    let ida = match m.add_launcher_path("/user/apps/b.desktop", al, vec![]) {
        AddOutcome::Updated { id, .. } => id,
        _ => panic!("promote"),
    };
    let (_, tree) = m.get_layout(10, -1, &vec![]).unwrap();
    assert_eq!(tree.children.len(), 2);
    assert_eq!(tree.children[0].id, ida);
    assert_eq!(tree.children[1].id, idz);
}

#[test]
fn activation_spawns_first_token() {
    let mut m = menu_with_dirs();
    let a = launcher("Term", vec![Category::System], "xterm -e top", None, true, "/user/apps/t.desktop");
    let id = match m.add_launcher_path("/user/apps/t.desktop", a, vec![]) {
        AddOutcome::Updated { id, .. } => id,
        _ => panic!("promote"),
    };
    match m.event(id, "clicked") {
        EventOutcome::Clicked { spawn } => {
            let sc = spawn.expect("command resolves");
            assert_eq!(sc.program, "xterm");
            assert_eq!(sc.args, vec!["-e", "top"]);
        },
        _ => panic!("clicks are always activations"),
    }
    // unknown id: no spawn, no error
    match m.event(9999, "clicked") {
        EventOutcome::Clicked { spawn } => assert!(spawn.is_none()),
        _ => panic!("clicks are always activations"),
    }
    assert!(matches!(m.event(id, "hovered"), EventOutcome::Ignored));
    assert!(matches!(m.event(id, "opened"), EventOutcome::Ignored));
    assert!(matches!(m.event(id, "closed"), EventOutcome::Ignored));
    assert!(matches!(m.event(id, "sideways"), EventOutcome::Unknown));
}

#[test]
fn property_queries_and_errors() {
    let mut m = menu_with_dirs();
    let a = launcher("Tool", vec![Category::Utility], "t", Some("toolicon"), true, "/user/apps/a.desktop");
    let id = match m.add_launcher_path("/user/apps/a.desktop", a, vec![]) {
        AddOutcome::Updated { id, .. } => id,
        _ => panic!("promote"),
    };
    match m.get_property(id, "label").unwrap() {
        PropValue::Str(s) => assert_eq!(s, "Tool"),
        _ => panic!("label is a string"),
    }
    match m.get_property(id, "icon-name").unwrap() {
        PropValue::Str(s) => assert_eq!(s, "toolicon"),
        _ => panic!("icon-name is a string"),
    }
    assert!(matches!(m.get_property(id, "visible").unwrap(), PropValue::Bool(true)));
    assert!(matches!(m.get_property(id, "enabled").unwrap(), PropValue::Bool(true)));
    assert!(matches!(m.get_property(id, "toggle-state").unwrap(), PropValue::Int(-1)));
    assert!(matches!(m.get_property(9999, "label"), Err(MenuError::ItemNotFound)));
    assert!(matches!(m.get_property(id, "bogus"), Err(MenuError::PropertyNotFound)));
}

#[test]
fn group_properties_skip_unknown_ids() {
    let mut m = menu_with_dirs();
    let a = launcher("Tool", vec![Category::Utility], "t", None, true, "/user/apps/a.desktop");
    let id = match m.add_launcher_path("/user/apps/a.desktop", a, vec![]) {
        AddOutcome::Updated { id, .. } => id,
        _ => panic!("promote"),
    };
    let got = m.get_group_properties(&vec![0, 9999, id], &vec!["label".to_string()]);
    assert_eq!(got.len(), 2);
    assert_eq!(got[0].0, 0);
    assert_eq!(got[1].0, id);
    assert_eq!(got[1].1.len(), 1);
    match &got[1].1[0].1 {
        PropValue::Str(s) => assert_eq!(s, "Tool"),
        _ => panic!("label is a string"),
    }
}

#[test]
fn icon_handling_in_props() {
    let themed = launcher("T", vec![], "t", Some("icon-name"), true, "/user/apps/t.desktop");
    let p = launcher_props(&themed, &vec![]);
    assert_eq!(p.icon_name, "icon-name");
    assert!(p.icon_data.is_empty());

    let file = launcher("F", vec![], "f", Some("/icons/f.svg"), true, "/user/apps/f.desktop");
    let bytes = vec![1u8, 2, 3];
    let p2 = launcher_props(&file, &bytes);
    assert_eq!(p2.icon_name, "");
    assert_eq!(p2.icon_data, bytes);

    let none = launcher("N", vec![], "n", None, false, "/user/apps/n.desktop");
    let p3 = launcher_props(&none, &vec![]);
    assert_eq!(p3.icon_name, "");
    assert!(p3.icon_data.is_empty());
    assert!(!p3.visible);
    assert_eq!(p3.label, "N");
    assert_eq!(p3.entry_type, "standard");
    assert_eq!(p3.children_display, "");
}

#[test]
fn reserved_node_props() {
    let r = root_props();
    assert_eq!(r.label, "");
    assert_eq!(r.children_display, "submenu");
    assert!(r.visible);
    let c = category_props(Category::Office);
    assert_eq!(c.label, "Office");
    assert_eq!(c.children_display, "submenu");
}

#[test]
fn props_clone_is_exact() {
    let a = launcher("A", vec![], "a", Some("/x/y.png"), true, "/user/apps/a.desktop");
    let p = launcher_props(&a, &vec![9, 9]);
    let q = clone_props(&p);
    assert_eq!(p.label, q.label);
    assert_eq!(p.visible, q.visible);
    assert_eq!(p.enabled, q.enabled);
    assert_eq!(p.icon_name, q.icon_name);
    assert_eq!(p.icon_data, q.icon_data);
    assert_eq!(p.entry_type, q.entry_type);
    assert_eq!(p.children_display, q.children_display);
}

#[test]
fn updated_compares_displayed_fields_only() {
    let a = launcher("A", vec![Category::Office], "one", None, true, "/p/a.desktop");
    let same = launcher("A", vec![Category::Office], "two", None, true, "/q/a.desktop");
    assert!(!launcher_updated(&a, &same));
    let renamed = launcher("B", vec![Category::Office], "one", None, true, "/p/a.desktop");
    assert!(launcher_updated(&a, &renamed));
    let recat = launcher("A", vec![Category::Game], "one", None, true, "/p/a.desktop");
    assert!(launcher_updated(&a, &recat));
    let hidden = launcher("A", vec![Category::Office], "one", None, false, "/p/a.desktop");
    assert!(launcher_updated(&a, &hidden));
    let iconed = launcher("A", vec![Category::Office], "one", Some("i"), true, "/p/a.desktop");
    assert!(launcher_updated(&a, &iconed));
}

#[test]
fn empty_category_list_files_under_other() {
    let mut m = menu_with_dirs();
    let a = launcher("Plain", vec![], "p", None, true, "/user/apps/p.desktop");
    let id = match m.add_launcher_path("/user/apps/p.desktop", a, vec![]) {
        AddOutcome::Updated { id, .. } => id,
        _ => panic!("promote"),
    };
    let (_, tree) = m.get_layout(0, -1, &vec![]).unwrap();
    let other = node_with_id(&tree, 11).expect("catch-all category node");
    assert!(other.children.iter().any(|c| c.id == id));
    assert_eq!(count_occurrences(&tree, id), 1);
}

#[test]
fn removing_non_active_copy_keeps_displayed_record() {
    let mut m = menu_with_dirs();
    let user = launcher("User", vec![Category::Utility], "u", None, true, "/user/apps/a.desktop");
    let sys = launcher("Sys", vec![Category::System], "s", None, true, "/sys2/apps/a.desktop");
    m.add_launcher_path("/user/apps/a.desktop", user, vec![]);
    m.add_launcher_path("/sys2/apps/a.desktop", sys, vec![]);
    let out = m.remove_launcher_path("/sys2/apps/a.desktop");
    // the revealed active record (the user copy) differs from the
    // outgoing one, so it is promoted again and stays displayed
    let id = match out {
        RemoveOutcome::Promoted { id, .. } => id,
        _ => panic!("revealed record differs from the removed one"),
    };
    match m.get_property(id, "label").unwrap() {
        PropValue::Str(s) => assert_eq!(s, "User"),
        _ => panic!("label should be a string"),
    }
    let (_, tree) = m.get_layout(0, -1, &vec![]).unwrap();
    assert_eq!(count_occurrences(&tree, id), 1);
}

#[test]
fn layout_rooted_at_category_and_item() {
    let mut m = menu_with_dirs();
    let a = launcher("Tool", vec![Category::Utility], "t", None, true, "/user/apps/a.desktop");
    let id = match m.add_launcher_path("/user/apps/a.desktop", a, vec![]) {
        AddOutcome::Updated { id, .. } => id,
        _ => panic!("promote"),
    };
    let (_, cat) = m.get_layout(10, -1, &vec![]).unwrap();
    assert_eq!(cat.id, 10);
    assert_eq!(cat.children.len(), 1);
    let (_, item) = m.get_layout(id, -1, &vec![]).unwrap();
    assert_eq!(item.id, id);
    assert!(item.children.is_empty());
}

#[test]
fn group_properties_with_empty_filter_list_all() {
    let mut m = menu_with_dirs();
    let a = launcher("Tool", vec![Category::Utility], "t", None, true, "/user/apps/a.desktop");
    let id = match m.add_launcher_path("/user/apps/a.desktop", a, vec![]) {
        AddOutcome::Updated { id, .. } => id,
        _ => panic!("promote"),
    };
    let got = m.get_group_properties(&vec![id], &vec![]);
    assert_eq!(got.len(), 1);
    let keys: Vec<&str> = got[0].1.iter().map(|p| p.0.as_str()).collect();
    assert_eq!(
        keys,
        vec!["label", "visible", "enabled", "icon-name", "icon-data", "type", "children-display"]
    );
}

#[test]
fn equal_labels_keep_prior_order() {
    let mut m = menu_with_dirs();
    let first = launcher("Same", vec![Category::Utility], "x", None, true, "/user/apps/x.desktop");
    let second = launcher("Same", vec![Category::Utility], "y", None, true, "/user/apps/y.desktop");
    let third = launcher("AAA", vec![Category::Utility], "z", None, true, "/user/apps/z.desktop");
    let id_first = match m.add_launcher_path("/user/apps/x.desktop", first, vec![]) {
        AddOutcome::Updated { id, .. } => id,
        _ => panic!("promote"),
    };
    let id_second = match m.add_launcher_path("/user/apps/y.desktop", second, vec![]) {
        AddOutcome::Updated { id, .. } => id,
        _ => panic!("promote"),
    };
    let id_third = match m.add_launcher_path("/user/apps/z.desktop", third, vec![]) {
        AddOutcome::Updated { id, .. } => id,
        _ => panic!("promote"),
    };
    // the label-sorted list puts "AAA" first; the two equal "Same"
    // labels keep their arrival order through every re-sort
    let (_, tree) = m.get_layout(10, -1, &vec![]).unwrap();
    let order: Vec<u64> = tree.children.iter().map(|c| c.id).collect();
    assert_eq!(order, vec![id_third, id_first, id_second]);
}
