use gpui_agent::keybinding::{complete_keybinding_action, intercept_keybinding_action, is_keybinding_unavailable};
use gpui_agent::protocol::{KeybindingScope, Op, PlatformKind};
use gpui_agent::screenshot::is_screenshot_unavailable;
use gpui_agent::todo::ids;
use gpui_agent::assertion::{check_node_fields, NodeFacts};
use gpui_agent::protocol::AssertSpec;
use gpui_agent::todo::tree::{TreeRow, ROLE_PAGE, ROLE_SCROLL, ROLE_TEXTBOX};
use gpui_agent::todo::{InvokeArgs, Page, TodoReply, TodoStore, TodoView};
use gpui_agent::virtual_input::{keystroke_token, VIRTUAL_UNAVAILABLE};

const BASE: &str = "/tmp/gpui-agent-screenshots";

fn no_args() -> InvokeArgs {
    InvokeArgs { title: None, id: None, page: None }
}

fn dispatch(store: &mut TodoStore, op: &Op) -> Result<TodoReply, String> {
    store.dispatch(op, &no_args(), BASE)
}

fn find<'a>(rows: &'a [TreeRow], id: &str) -> Option<&'a TreeRow> {
    rows.iter().find(|r| r.id == id)
}

fn add(store: &mut TodoStore, title: &str) -> u64 {
    store.add(title).unwrap().id
}

#[test]
fn crud_through_semantic_ids() {
    let mut store = TodoStore::default();
    dispatch(&mut store, &Op::SetValue { target: ids::INPUT.into(), value: "Buy milk".into() }).unwrap();
    dispatch(&mut store, &Op::click(ids::ADD.to_owned())).unwrap();

    let id = store.items()[0].id;
    assert_eq!(store.items()[0].title, "Buy milk");
    assert!(!store.items()[0].done);

    dispatch(&mut store, &Op::click(ids::toggle(id))).unwrap();
    assert!(store.items()[0].done);

    dispatch(&mut store, &Op::click(ids::delete(id))).unwrap();
    assert!(store.items().is_empty());
}

#[test]
fn virtual_delivery_is_unavailable_on_store_host() {
    let mut store = TodoStore::default();
    let err = dispatch(&mut store, &Op::click_virtual(ids::ADD.to_owned())).unwrap_err();
    assert!(err.starts_with(VIRTUAL_UNAVAILABLE), "{err}");
}

#[test]
fn settings_page_is_a_second_screen() {
    let mut store = TodoStore::default();
    add(&mut store, "Keep me");
    dispatch(&mut store, &Op::click(ids::NAV_SETTINGS.to_owned())).unwrap();
    assert_eq!(store.page(), Page::Settings);
    let rows = store.tree_rows();
    assert!(find(&rows, ids::PAGE_SETTINGS).is_some());
    assert_eq!(find(&rows, ids::PAGE_SETTINGS).unwrap().role, ROLE_PAGE);
    assert!(find(&rows, ids::SETTINGS_CONFIRM_DELETE).is_some());
    assert!(find(&rows, ids::INPUT).is_none());
    assert!(find(&rows, "todo-item-1").is_none());

    dispatch(&mut store, &Op::click(ids::SETTINGS_CONFIRM_DELETE.to_owned())).unwrap();
    assert!(store.confirm_delete());
    let args = InvokeArgs { title: None, id: None, page: Some("todos".to_owned()) };
    store.dispatch(&Op::Invoke { name: "nav.go".into(), args: serde_json::Value::Null }, &args, BASE).unwrap();
    assert_eq!(store.page(), Page::Todos);
    assert!(find(&store.tree_rows(), ids::PAGE_TODOS).is_some());
    assert!(find(&store.tree_rows(), "todo-item-1").is_some());
}

#[test]
fn snapshot_carries_stable_ids() {
    let mut store = TodoStore::default();
    let id = add(&mut store, "Write docs");
    let rows = store.tree_rows();
    assert!(find(&rows, ids::INPUT).is_some());
    assert!(find(&rows, ids::ADD).is_some());
    assert!(find(&rows, ids::NAV_TODOS).is_some());
    assert!(find(&rows, ids::NAV_SETTINGS).is_some());
    assert!(find(&rows, ids::NAV_TOGGLE).is_some());
    assert!(find(&rows, ids::NAV).unwrap().visible);
    assert!(find(&rows, ids::PAGE_TODOS).is_some());
    assert!(find(&rows, &ids::item(id)).is_some());
    assert!(find(&rows, &ids::toggle(id)).is_some());
    assert!(find(&rows, &ids::delete(id)).is_some());
    assert_eq!(find(&rows, &ids::item(id)).unwrap().name, "Write docs");
    assert_eq!(find(&rows, ids::INPUT).unwrap().role, ROLE_TEXTBOX);
    assert_eq!(find(&rows, ids::PAGE_TODOS).unwrap().role, ROLE_PAGE);
}

#[test]
fn view_from_tree_roundtrips_items_and_page() {
    let mut store = TodoStore::default();
    add(&mut store, "Milk");
    store.toggle(1).unwrap();
    let view = TodoView::from_rows(&store.tree_rows());
    assert_eq!(view.page, Page::Todos);
    assert_eq!(view.items.len(), 1);
    assert_eq!(view.items[0].title, "Milk");
    assert!(view.items[0].done);
    assert!(view.sidebar_open);
    store.go(Page::Settings);
    let settings = TodoView::from_rows(&store.tree_rows());
    assert_eq!(settings.page, Page::Settings);
    assert!(settings.items.is_empty());
}

#[test]
fn tree_exposes_scroll_target_id() {
    let store = TodoStore::default();
    let rows = store.tree_rows();
    let node = find(&rows, ids::LIST_SCROLL).expect("scroll id");
    assert_eq!(node.role, ROLE_SCROLL);
    assert!(find(&rows, ids::LIST).is_some());
}

#[test]
fn sidebar_toggle_assert_visible_and_wait_until() {
    let mut store = TodoStore::default();
    assert!(store.sidebar_open());
    assert!(find(&store.tree_rows(), ids::NAV).unwrap().visible);

    dispatch(&mut store, &Op::click(ids::NAV_TOGGLE.to_owned())).unwrap();
    assert!(!store.sidebar_open());
    let rows = store.tree_rows();
    let nav = find(&rows, ids::NAV).unwrap();
    assert!(!nav.visible);
    assert!(!find(&rows, ids::NAV_TODOS).unwrap().visible);

    let spec = AssertSpec { target: ids::NAV.into(), exists: Some(true), visible: Some(false), ..Default::default() };
    let facts = NodeFacts {
        name: nav.name.clone(),
        value: nav.value.clone(),
        role: nav.role.clone(),
        checked: nav.checked,
        visible: nav.visible,
    };
    assert!(check_node_fields(&spec, &facts).is_ok());
}

#[test]
fn view_sorts_rows_by_id_and_reads_first_matches() {
    let row = |depth: usize, id: &str, name: &str, checked: Option<bool>| TreeRow {
        depth,
        id: id.into(),
        role: "listitem".into(),
        name: name.into(),
        value: None,
        checked,
        visible: true,
    };
    let mut input = row(2, ids::INPUT, "draft", None);
    input.value = Some("first".into());
    let mut second_input = row(2, ids::INPUT, "draft", None);
    second_input.value = Some("second".into());
    let rows = vec![
        row(4, "todo-item-7", "seven", Some(true)),
        input,
        row(4, "todo-item-2", "two", None),
        second_input,
        row(4, "todo-item-x", "not a todo", None),
    ];
    let view = TodoView::from_rows(&rows);
    assert_eq!(view.items.iter().map(|t| t.id).collect::<Vec<_>>(), vec![2, 7]);
    assert!(!view.items[0].done);
    assert!(view.items[1].done);
    assert_eq!(view.draft, "first");
    assert_eq!(view.page, Page::Todos);
    assert!(view.sidebar_open);
    assert!(!view.confirm_delete);
}

#[test]
fn screenshot_is_honestly_unavailable() {
    let mut store = TodoStore::default();
    let err = dispatch(&mut store, &Op::screenshot("todo-headless-no-shot.png".to_owned())).unwrap_err();
    assert!(is_screenshot_unavailable(&err), "{err}");
    assert!(err.contains("headless"), "{err}");
}

#[test]
fn screenshot_unconfined_path_fails_before_unavailable() {
    let mut store = TodoStore::default();
    let err = dispatch(&mut store, &Op::screenshot("../evil.png".to_owned())).unwrap_err();
    assert!(!is_screenshot_unavailable(&err), "{err}");
    assert!(err.contains("relative"), "{err}");
}

#[test]
fn keybinding_catalog_has_focused_global_and_dangerous() {
    let cat = TodoStore::keybinding_catalog();
    assert_eq!(cat.len(), 3);
    assert_eq!(cat[0].id, ids::KEY_FOCUS_INPUT);
    assert_eq!(cat[0].scope, KeybindingScope::Focused);
    assert!(!cat[0].dangerous);
    assert_eq!(cat[1].id, ids::KEY_GO_SETTINGS);
    assert_eq!(cat[1].scope, KeybindingScope::Global);
    assert_eq!(cat[2].id, ids::KEY_QUIT);
    assert!(cat[2].dangerous);
}

#[test]
fn focused_keybinding_activate_then_fires() {
    let mut store = TodoStore::default();
    store.go(Page::Settings);
    let op = Op::Keybinding {
        binding: ids::KEY_FOCUS_INPUT.into(),
        chord: None,
        scope: KeybindingScope::Focused,
        confirm: false,
        activate: true,
    };
    match dispatch(&mut store, &op).unwrap() {
        TodoReply::Action { id, .. } => assert_eq!(id, ids::KEY_FOCUS_INPUT),
        other => panic!("{other:?}"),
    }
    assert_eq!(store.page(), Page::Todos);
    assert!(store.is_app_focused());
}

#[test]
fn global_keybinding_fires_without_focus() {
    let mut store = TodoStore::default();
    assert!(!store.is_app_focused());
    dispatch(&mut store, &Op::keybinding(ids::KEY_GO_SETTINGS.to_owned(), KeybindingScope::Global)).unwrap();
    assert_eq!(store.page(), Page::Settings);
    assert!(!store.is_app_focused(), "global must not activate");
}

#[test]
fn quit_keybinding_sets_shutdown() {
    let mut store = TodoStore::default();
    assert!(!store.wants_shutdown());
    match store.perform_keybinding(ids::KEY_QUIT).unwrap() {
        TodoReply::Action { dangerous, .. } => assert!(dangerous),
        other => panic!("{other:?}"),
    }
    assert!(store.wants_shutdown());
}

#[test]
fn free_form_key_still_rejects_cmd_q() {
    let err = keystroke_token("cmd-q").unwrap_err();
    assert!(err.contains("modifiers"), "{err}");
    let mut store = TodoStore::default();
    store.set_app_focused(true);
    let resp = dispatch(&mut store, &Op::key(ids::INPUT.to_owned(), "cmd-q".to_owned()));
    assert!(resp.is_err());
    let virt = dispatch(&mut store, &Op::key_virtual(ids::INPUT.to_owned(), "cmd-q".to_owned()));
    assert!(virt.unwrap_err().starts_with(VIRTUAL_UNAVAILABLE));
}

#[test]
fn desktop_store_refuses_to_side_door_keybinding_fire() {
    let mut store = TodoStore::new(PlatformKind::Desktop);
    store.set_app_focused(true);
    let err = dispatch(&mut store, &Op::keybinding(ids::KEY_GO_SETTINGS.to_owned(), KeybindingScope::Global))
        .unwrap_err();
    assert!(is_keybinding_unavailable(&err), "{err}");
    assert!(err.contains("UI thread"), "{err}");
}

#[test]
fn action_no_op_does_not_green_via_store_side_door() {
    let mut store = TodoStore::new(PlatformKind::Desktop);
    store.set_app_focused(true);

    let err = intercept_keybinding_action(|slot| {
        let _ = slot;
    })
    .unwrap_err();
    assert!(is_keybinding_unavailable(&err), "{err}");
    assert!(err.contains("Action handler did not run"), "{err}");
    assert_eq!(store.page(), Page::Todos, "no-op Action must not mutate the store from the intercept");
    assert!(!store.wants_shutdown());
}

#[test]
fn action_listener_owns_mutation_and_reply() {
    let mut store = TodoStore::new(PlatformKind::Desktop);
    store.set_app_focused(true);
    let mut reply = None;
    let result = intercept_keybinding_action(|slot| {
        reply = Some(store.perform_keybinding(ids::KEY_GO_SETTINGS));
        *slot = Some(Ok(gpui_agent::dispatch::DispatchResult::empty()));
    });
    assert!(result.is_ok());
    assert_eq!(store.page(), Page::Settings);
    assert!(matches!(reply, Some(Ok(TodoReply::Action { .. }))));
}

#[test]
fn dual_write_after_no_op_is_what_the_guard_rejects() {
    let mut store = TodoStore::new(PlatformKind::Desktop);
    store.set_app_focused(true);
    let action_ran = false;
    let mut listener_result = None;
    if action_ran {
        listener_result = Some(store.perform_keybinding(ids::KEY_GO_SETTINGS).map(|_| {
            gpui_agent::dispatch::DispatchResult::empty()
        }));
    }
    let result = complete_keybinding_action(listener_result);
    assert!(result.is_err(), "no-op Action must not look green");
    assert_eq!(store.page(), Page::Todos);
}

#[test]
fn toggling_twice_restores_the_item() {
    let mut store = TodoStore::default();
    let id = add(&mut store, "Milk");
    store.toggle(id).unwrap();
    assert!(store.items()[0].done);
    store.toggle(id).unwrap();
    assert!(!store.items()[0].done);
    assert_eq!(store.toggle(99).unwrap_err(), "todo 99 not found");
}

#[test]
fn delete_undoes_add_and_ids_are_not_reused() {
    let mut store = TodoStore::default();
    let a = add(&mut store, "a");
    let b = add(&mut store, "b");
    store.delete(b).unwrap();
    assert_eq!(store.items().len(), 1);
    assert_eq!(store.items()[0].id, a);
    let c = add(&mut store, "  c  ");
    assert!(c > b);
    assert_eq!(store.items()[1].title, "c");
    assert_eq!(store.add("   ").unwrap_err(), "cannot add an empty todo");
}

#[test]
fn invoke_names_and_errors() {
    let mut store = TodoStore::default();
    let t = InvokeArgs { title: Some("Write docs".to_owned()), id: None, page: None };
    match store.invoke("todo.add", &t).unwrap() {
        TodoReply::Item(item) => assert_eq!(item.title, "Write docs"),
        other => panic!("{other:?}"),
    }
    assert_eq!(store.invoke("todo.add", &no_args()).unwrap_err(), "todo.add requires args.title");
    assert_eq!(store.invoke("todo.toggle", &no_args()).unwrap_err(), "expected args.id");
    assert_eq!(store.invoke("shell.run", &no_args()).unwrap_err(), "unknown invoke `shell.run`");
    match store.invoke("todo.list", &no_args()).unwrap() {
        TodoReply::List(items) => assert_eq!(items.len(), 1),
        other => panic!("{other:?}"),
    }
    let bad = InvokeArgs { title: None, id: None, page: Some("nowhere".to_owned()) };
    assert_eq!(store.invoke("nav.go", &bad).unwrap_err(), "unknown page `nowhere`");
}

#[test]
fn stable_ids_are_numbered() {
    assert_eq!(ids::item(3), "todo-item-3");
    assert_eq!(ids::toggle(3), "todo-toggle-3");
    assert_eq!(ids::delete(12), "todo-delete-12");
}

#[test]
fn seed_overflow_demo_appends_numbered_rows() {
    let mut store = TodoStore::default();
    store.seed_overflow_demo(3);
    assert_eq!(store.items().len(), 3);
    assert_eq!(store.items()[0].title, "Scroll demo 1");
    assert_eq!(store.items()[2].id, 3);
}
