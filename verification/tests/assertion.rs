use gpui_agent::assertion::{check_absent, check_in_viewport, check_node_fields, NodeFacts};
use gpui_agent::protocol::AssertSpec;

fn node() -> NodeFacts {
    NodeFacts {
        name: "Buy milk".to_owned(),
        value: None,
        role: "listitem".to_owned(),
        checked: Some(false),
        visible: true,
    }
}

fn spec(target: &str) -> AssertSpec {
    AssertSpec { target: target.to_owned(), ..AssertSpec::default() }
}

#[test]
fn matching_fields_pass() {
    let mut s = spec("todo-item-1");
    s.name = Some("Buy milk".to_owned());
    s.checked = Some(false);
    s.role = Some("listitem".to_owned());
    assert!(check_node_fields(&s, &node()).is_ok());
}

#[test]
fn first_mismatch_is_reported_with_debug_quoting() {
    let mut s = spec("todo-item-1");
    s.name = Some("Milk \"2\"".to_owned());
    s.checked = Some(true);
    assert_eq!(
        check_node_fields(&s, &node()).unwrap_err(),
        "node `todo-item-1` name: expected \"Milk \\\"2\\\"\", got \"Buy milk\""
    );
    let mut s = spec("todo-item-1");
    s.value = Some("x".to_owned());
    assert_eq!(
        check_node_fields(&s, &node()).unwrap_err(),
        "node `todo-item-1` value: expected \"x\", got None"
    );
    let mut s = spec("todo-item-1");
    s.checked = Some(true);
    assert_eq!(
        check_node_fields(&s, &node()).unwrap_err(),
        "node `todo-item-1` checked: expected true, got Some(false)"
    );
    let mut s = spec("todo-item-1");
    s.visible = Some(false);
    assert_eq!(
        check_node_fields(&s, &node()).unwrap_err(),
        "node `todo-item-1` visible: expected false, got true"
    );
}

#[test]
fn absent_checks_count_nodes() {
    let ids: Vec<String> = ["a", "b", "b"].iter().map(|s| s.to_string()).collect();
    assert!(check_absent(&ids, "c").is_ok());
    assert_eq!(check_absent(&ids, "a").unwrap_err(), "node `a` exists but should be absent");
    assert_eq!(check_absent(&ids, "b").unwrap_err(), "duplicate id `b` (2 nodes)");
}

#[test]
fn viewport_verdicts() {
    assert!(check_in_viewport("x", true, true).is_ok());
    assert_eq!(
        check_in_viewport("x", true, false).unwrap_err(),
        "node `x` in_viewport: expected true, got false"
    );
}
