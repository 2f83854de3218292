use gpui_agent::mcp::{mcp_method, tool_names, tool_request, unknown_method, McpMethod, ToolArg, ToolArgs};
use gpui_agent::protocol::{DeliveryMode, Op};

fn no_args() -> ToolArgs {
    ToolArgs {
        target: ToolArg::Absent,
        id: ToolArg::Absent,
        text: ToolArg::Absent,
        value: ToolArg::Absent,
        key: ToolArg::Absent,
        name: ToolArg::Absent,
        role: ToolArg::Absent,
        delivery: ToolArg::Absent,
        checked: None,
        exists: None,
        timeout_ms: None,
        invoke_args: serde_json::Value::Null,
    }
}

fn text(s: &str) -> ToolArg {
    ToolArg::Text(s.to_owned())
}

#[test]
fn mcp_tools_are_generic_protocol_ops() {
    let names = tool_names();
    assert_eq!(
        names,
        ["wait", "hello", "snapshot", "click", "type", "set_value", "key", "assert", "invoke", "shutdown"]
    );
    assert!(names.iter().all(|n| !n.starts_with("todo")));
}

#[test]
fn every_listed_tool_is_callable() {
    for name in tool_names() {
        let r = tool_request(&text(name), no_args());
        if let Err(e) = r {
            assert!(!e.starts_with("unknown tool"), "{name}: {e}");
        }
    }
    assert_eq!(tool_request(&text("todo.add"), no_args()).unwrap_err(), "unknown tool todo.add");
    assert_eq!(tool_request(&ToolArg::Absent, no_args()).unwrap_err(), "missing tool name");
    assert_eq!(tool_request(&ToolArg::Other, no_args()).unwrap_err(), "missing tool name");
}

#[test]
fn click_reads_target_then_delivery() {
    let mut args = no_args();
    args.target = text("todo-add");
    args.delivery = text("virtual");
    match tool_request(&text("click"), args).unwrap() {
        (None, Op::Click { target, delivery }) => {
            assert_eq!(target, "todo-add");
            assert_eq!(delivery, DeliveryMode::Virtual);
        }
        other => panic!("{other:?}"),
    }
    assert_eq!(tool_request(&text("click"), no_args()).unwrap_err(), "missing string `target`");
    let mut bad = no_args();
    bad.target = text("todo-add");
    bad.delivery = ToolArg::Other;
    assert_eq!(
        tool_request(&text("click"), bad).unwrap_err(),
        "delivery must be a string (`semantic` or `virtual`)"
    );
}

#[test]
fn type_needs_target_and_text_in_order() {
    let mut args = no_args();
    args.target = text("todo-input");
    assert_eq!(tool_request(&text("type"), args).unwrap_err(), "missing string `text`");
    let mut args = no_args();
    args.text = text("hi");
    args.target = ToolArg::Other;
    assert_eq!(tool_request(&text("type"), args).unwrap_err(), "missing string `target`");
}

#[test]
fn assert_takes_id_as_target_alias() {
    let mut args = no_args();
    args.id = text("todo-status");
    args.name = text("No todos");
    args.exists = Some(true);
    match tool_request(&text("assert"), args).unwrap() {
        (None, Op::Assert { spec }) => {
            assert_eq!(spec.target, "todo-status");
            assert_eq!(spec.name.as_deref(), Some("No todos"));
            assert_eq!(spec.exists, Some(true));
            assert_eq!(spec.value, None);
        }
        other => panic!("{other:?}"),
    }
    assert_eq!(tool_request(&text("assert"), no_args()).unwrap_err(), "missing string `target`");
}

#[test]
fn wait_carries_the_client_timeout_and_invoke_its_args() {
    let mut args = no_args();
    args.timeout_ms = Some(250);
    match tool_request(&text("wait"), args).unwrap() {
        (Some(250), Op::Wait { timeout_ms: None }) => {}
        other => panic!("{other:?}"),
    }
    let mut args = no_args();
    args.name = text("todo.add");
    let mut obj = serde_json::Map::new();
    obj.insert("title".to_owned(), serde_json::Value::String("Milk".to_owned()));
    args.invoke_args = serde_json::Value::Object(obj);
    match tool_request(&text("invoke"), args).unwrap() {
        (None, Op::Invoke { name, args }) => {
            assert_eq!(name, "todo.add");
            assert_eq!(args["title"], "Milk");
        }
        other => panic!("{other:?}"),
    }
}

#[test]
fn methods_are_told_apart() {
    assert_eq!(mcp_method("initialize"), McpMethod::Initialize);
    assert_eq!(mcp_method("notifications/initialized"), McpMethod::Initialized);
    assert_eq!(mcp_method("tools/list"), McpMethod::ToolsList);
    assert_eq!(mcp_method("tools/call"), McpMethod::ToolsCall);
    assert_eq!(mcp_method("ping"), McpMethod::Ping);
    assert_eq!(mcp_method(""), McpMethod::Unknown);
    assert_eq!(unknown_method("resources/list"), "unknown method resources/list");
}
