//! Decisions of the MCP stdio shim: which JSON-RPC method a message calls,
//! which tools it lists, and which protocol op a `tools/call` stands for.
//! The tools are the generic protocol ops; app verbs go through `invoke`.

use vstd::prelude::*;

use crate::protocol::{parse_delivery_spec, AssertSpec, DeliveryMode, Op};
use crate::text::{starts_with, str_eq, strs_view};

verus! {

/// The JSON-RPC methods the shim answers.
#[derive(Debug, Clone, Copy, PartialEq, Eq, Structural)]
pub enum McpMethod {
    Initialize,
    /// A notification: no reply.
    Initialized,
    ToolsList,
    ToolsCall,
    Ping,
    Unknown,
}

pub open spec fn mcp_method_spec(method: Seq<char>) -> McpMethod {
    if method == "initialize"@ {
        McpMethod::Initialize
    } else if method == "notifications/initialized"@ {
        McpMethod::Initialized
    } else if method == "tools/list"@ {
        McpMethod::ToolsList
    } else if method == "tools/call"@ {
        McpMethod::ToolsCall
    } else if method == "ping"@ {
        McpMethod::Ping
    } else {
        McpMethod::Unknown
    }
}

/// The method a message's `method` field names (empty when it has none).
pub fn mcp_method(method: &str) -> (r: McpMethod)
    ensures
        r == mcp_method_spec(method@),
{
    if str_eq(method, "initialize") {
        McpMethod::Initialize
    } else if str_eq(method, "notifications/initialized") {
        McpMethod::Initialized
    } else if str_eq(method, "tools/list") {
        McpMethod::ToolsList
    } else if str_eq(method, "tools/call") {
        McpMethod::ToolsCall
    } else if str_eq(method, "ping") {
        McpMethod::Ping
    } else {
        McpMethod::Unknown
    }
}

/// The error for a method the shim does not answer.
pub fn unknown_method(method: &str) -> (r: String)
    ensures
        r@ == "unknown method "@ + method@,
{
    let mut s = "unknown method ".to_owned();
    s.append(method);
    s
}

/// The tools, in the order `tools/list` gives them.
pub open spec fn tool_names_spec() -> Seq<Seq<char>> {
    seq![
        "wait"@,
        "hello"@,
        "snapshot"@,
        "click"@,
        "type"@,
        "set_value"@,
        "key"@,
        "assert"@,
        "invoke"@,
        "shutdown"@,
    ]
}

pub fn tool_names() -> (r: Vec<&'static str>)
    ensures
        strs_view(r@) == tool_names_spec(),
{
    let r = vec!["wait", "hello", "snapshot", "click", "type", "set_value", "key", "assert", "invoke", "shutdown"];
    assert(strs_view(r@) =~= tool_names_spec());
    r
}

/// The tools are generic protocol ops: none is named after the sample
/// app (`todo...`); app verbs are `invoke` names.
pub proof fn lemma_tools_are_generic()
    ensures
        forall|i: int| 0 <= i < tool_names_spec().len() ==> !starts_with(#[trigger] tool_names_spec()[i], "todo"@),
{
    reveal_strlit("todo");
    reveal_strlit("wait");
    reveal_strlit("hello");
    reveal_strlit("snapshot");
    reveal_strlit("click");
    reveal_strlit("type");
    reveal_strlit("set_value");
    reveal_strlit("key");
    reveal_strlit("assert");
    reveal_strlit("invoke");
    reveal_strlit("shutdown");
    assert forall|i: int| 0 <= i < tool_names_spec().len() implies !starts_with(#[trigger] tool_names_spec()[i], "todo"@) by {
        let n = tool_names_spec()[i];
        if n.len() >= 4 {
            assert(n.subrange(0, 4)[0] == n[0]);
            assert(n.subrange(0, 4)[1] == n[1]);
            if i == 4 {
                assert(n.subrange(0, 4)[1] != "todo"@[1]);
            } else {
                assert(n.subrange(0, 4)[0] != "todo"@[0]);
            }
        }
    }
}

/// One argument of a tool call as read from its JSON: absent, a string,
/// or a value of another JSON type.
#[derive(Debug, Clone)]
pub enum ToolArg {
    Absent,
    Text(String),
    Other,
}

/// The arguments a tool call may carry, each read from the call's
/// `arguments` object; `invoke_args` is its `args` object (`{}` when
/// absent).
#[derive(Debug)]
pub struct ToolArgs {
    pub target: ToolArg,
    pub id: ToolArg,
    pub text: ToolArg,
    pub value: ToolArg,
    pub key: ToolArg,
    pub name: ToolArg,
    pub role: ToolArg,
    pub delivery: ToolArg,
    pub checked: Option<bool>,
    pub exists: Option<bool>,
    pub timeout_ms: Option<u64>,
    pub invoke_args: serde_json::Value,
}

pub open spec fn arg_text(a: ToolArg) -> Option<Seq<char>> {
    match a {
        ToolArg::Text(s) => Some(s@),
        _ => None,
    }
}

pub open spec fn missing_string(key: Seq<char>) -> Seq<char> {
    "missing string `"@ + key + "`"@
}

/// A required string argument.
pub open spec fn string_arg(a: ToolArg, key: Seq<char>) -> Result<Seq<char>, Seq<char>> {
    match arg_text(a) {
        Some(s) => Ok(s),
        None => Err(missing_string(key)),
    }
}

pub open spec fn delivery_not_string() -> Seq<char> {
    "delivery must be a string (`semantic` or `virtual`)"@
}

/// The `delivery` argument: semantic when absent.
pub open spec fn delivery_arg(a: ToolArg) -> Result<DeliveryMode, Seq<char>> {
    match a {
        ToolArg::Absent => Ok(DeliveryMode::Semantic),
        ToolArg::Text(s) => parse_delivery_spec(s@),
        ToolArg::Other => Err(delivery_not_string()),
    }
}

pub open spec fn unknown_tool(name: Seq<char>) -> Seq<char> {
    "unknown tool "@ + name
}

fn take_string(a: &ToolArg, key: &str) -> (r: Result<String, String>)
    ensures
        match r {
            Ok(s) => string_arg(*a, key@) == Ok::<Seq<char>, Seq<char>>(s@),
            Err(e) => string_arg(*a, key@) == Err::<Seq<char>, Seq<char>>(e@),
        },
{
    match a {
        ToolArg::Text(s) => Ok(s.clone()),
        _ => {
            let mut e = "missing string `".to_owned();
            e.append(key);
            e.append("`");
            Err(e)
        },
    }
}

fn opt_string(a: &ToolArg) -> (r: Option<String>)
    ensures
        match r {
            Some(s) => arg_text(*a) == Some(s@),
            None => arg_text(*a) is None,
        },
{
    match a {
        ToolArg::Text(s) => Some(s.clone()),
        _ => None,
    }
}

fn take_delivery(a: &ToolArg) -> (r: Result<DeliveryMode, String>)
    ensures
        match r {
            Ok(d) => delivery_arg(*a) == Ok::<DeliveryMode, Seq<char>>(d),
            Err(e) => delivery_arg(*a) == Err::<DeliveryMode, Seq<char>>(e@),
        },
{
    match a {
        ToolArg::Absent => Ok(DeliveryMode::Semantic),
        ToolArg::Text(s) => DeliveryMode::parse_name(s.as_str()),
        ToolArg::Other => Err("delivery must be a string (`semantic` or `virtual`)".to_owned()),
    }
}

/// What a `tools/call` for `tool` with `args` sends: the client timeout to
/// use (for `wait`), then the op, which the shim sends expecting `ok`.
/// Required strings are read in the order the tool lists them, and the
/// first one missing is the error.
pub fn tool_request(tool: &ToolArg, args: ToolArgs) -> (r: Result<(Option<u64>, Op), String>)
    ensures
        arg_text(*tool) is None ==> (r matches Err(e) && e@ == "missing tool name"@),
        (arg_text(*tool) is Some && !tool_names_spec().contains(arg_text(*tool)->0)) ==> (r matches Err(e)
            && e@ == unknown_tool(arg_text(*tool)->0)),
        arg_text(*tool) == Some("wait"@) ==> (r matches Ok((t, Op::Wait { timeout_ms: None })) && t
            == args.timeout_ms),
        arg_text(*tool) == Some("hello"@) ==> (r matches Ok((None, Op::Hello))),
        arg_text(*tool) == Some("snapshot"@) ==> (r matches Ok((None, Op::Snapshot))),
        arg_text(*tool) == Some("shutdown"@) ==> (r matches Ok((None, Op::Shutdown))),
        arg_text(*tool) == Some("click"@) ==> match (string_arg(args.target, "target"@), delivery_arg(args.delivery)) {
            (Err(e), _) => (r matches Err(x) && x@ == e),
            (Ok(_), Err(e)) => (r matches Err(x) && x@ == e),
            (Ok(t), Ok(d)) => (r matches Ok((None, Op::Click { target, delivery })) && target@ == t && delivery == d),
        },
        arg_text(*tool) == Some("type"@) ==> match (string_arg(args.target, "target"@), string_arg(args.text, "text"@), delivery_arg(args.delivery)) {
            (Err(e), _, _) => (r matches Err(x) && x@ == e),
            (Ok(_), Err(e), _) => (r matches Err(x) && x@ == e),
            (Ok(_), Ok(_), Err(e)) => (r matches Err(x) && x@ == e),
            (Ok(t), Ok(s), Ok(d)) => (r matches Ok((None, Op::Type { target, text, delivery })) && target@ == t
                && text@ == s && delivery == d),
        },
        arg_text(*tool) == Some("set_value"@) ==> match (string_arg(args.target, "target"@), string_arg(args.value, "value"@)) {
            (Err(e), _) => (r matches Err(x) && x@ == e),
            (Ok(_), Err(e)) => (r matches Err(x) && x@ == e),
            (Ok(t), Ok(v)) => (r matches Ok((None, Op::SetValue { target, value })) && target@ == t && value@ == v),
        },
        arg_text(*tool) == Some("key"@) ==> match (string_arg(args.target, "target"@), string_arg(args.key, "key"@), delivery_arg(args.delivery)) {
            (Err(e), _, _) => (r matches Err(x) && x@ == e),
            (Ok(_), Err(e), _) => (r matches Err(x) && x@ == e),
            (Ok(_), Ok(_), Err(e)) => (r matches Err(x) && x@ == e),
            (Ok(t), Ok(k), Ok(d)) => (r matches Ok((None, Op::Key { target, key, delivery })) && target@ == t
                && key@ == k && delivery == d),
        },
        arg_text(*tool) == Some("assert"@) ==> match (if arg_text(args.target) is Some {
            arg_text(args.target)
        } else {
            arg_text(args.id)
        }) {
            None => (r matches Err(x) && x@ == missing_string("target"@)),
            Some(t) => (r matches Ok((None, Op::Assert { spec })) && spec.target@ == t && (spec.name matches Some(
                s,
            ) ==> arg_text(args.name) == Some(s@)) && (spec.name is None <==> arg_text(args.name) is None)
                && (spec.value matches Some(s) ==> arg_text(args.value) == Some(s@)) && (spec.value is None
                <==> arg_text(args.value) is None) && (spec.role matches Some(s) ==> arg_text(args.role)
                == Some(s@)) && (spec.role is None <==> arg_text(args.role) is None) && spec.checked
                == args.checked && spec.exists == args.exists && spec.visible is None
                && spec.in_viewport is None),
        },
        arg_text(*tool) == Some("invoke"@) ==> match string_arg(args.name, "name"@) {
            Err(e) => (r matches Err(x) && x@ == e),
            Ok(n) => (r matches Ok((None, Op::Invoke { name, args: a })) && name@ == n && a == args.invoke_args),
        },
{
    proof {
        reveal_strlit("wait");
        reveal_strlit("hello");
        reveal_strlit("snapshot");
        reveal_strlit("click");
        reveal_strlit("type");
        reveal_strlit("set_value");
        reveal_strlit("key");
        reveal_strlit("assert");
        reveal_strlit("invoke");
        reveal_strlit("shutdown");
        assert("wait"@.len() == 4);
        assert("hello"@.len() == 5);
        assert("snapshot"@.len() == 8);
        assert("click"@.len() == 5);
        assert("type"@.len() == 4);
        assert("set_value"@.len() == 9);
        assert("key"@.len() == 3);
        assert("assert"@.len() == 6);
        assert("invoke"@.len() == 6);
        assert("shutdown"@.len() == 8);
        assert("wait"@ != "type"@) by {
            assert("wait"@[0] != "type"@[0]);
        }
        assert("hello"@ != "click"@) by {
            assert("hello"@[0] != "click"@[0]);
        }
        assert("snapshot"@ != "shutdown"@) by {
            assert("snapshot"@[1] != "shutdown"@[1]);
        }
        assert("assert"@ != "invoke"@) by {
            assert("assert"@[0] != "invoke"@[0]);
        }
    }
    let name = match tool {
        ToolArg::Text(s) => s.as_str(),
        _ => return Err("missing tool name".to_owned()),
    };
    if str_eq(name, "wait") {
        Ok((args.timeout_ms, Op::Wait { timeout_ms: None }))
    } else if str_eq(name, "hello") {
        Ok((None, Op::Hello))
    } else if str_eq(name, "snapshot") {
        Ok((None, Op::Snapshot))
    } else if str_eq(name, "click") {
        let target = match take_string(&args.target, "target") {
            Ok(x) => x,
            Err(e) => return Err(e),
        };
        let delivery = match take_delivery(&args.delivery) {
            Ok(x) => x,
            Err(e) => return Err(e),
        };
        Ok((None, Op::Click { target, delivery }))
    } else if str_eq(name, "type") {
        let target = match take_string(&args.target, "target") {
            Ok(x) => x,
            Err(e) => return Err(e),
        };
        let text = match take_string(&args.text, "text") {
            Ok(x) => x,
            Err(e) => return Err(e),
        };
        let delivery = match take_delivery(&args.delivery) {
            Ok(x) => x,
            Err(e) => return Err(e),
        };
        Ok((None, Op::Type { target, text, delivery }))
    } else if str_eq(name, "set_value") {
        let target = match take_string(&args.target, "target") {
            Ok(x) => x,
            Err(e) => return Err(e),
        };
        let value = match take_string(&args.value, "value") {
            Ok(x) => x,
            Err(e) => return Err(e),
        };
        Ok((None, Op::SetValue { target, value }))
    } else if str_eq(name, "key") {
        let target = match take_string(&args.target, "target") {
            Ok(x) => x,
            Err(e) => return Err(e),
        };
        let key = match take_string(&args.key, "key") {
            Ok(x) => x,
            Err(e) => return Err(e),
        };
        let delivery = match take_delivery(&args.delivery) {
            Ok(x) => x,
            Err(e) => return Err(e),
        };
        Ok((None, Op::Key { target, key, delivery }))
    } else if str_eq(name, "assert") {
        let target = match opt_string(&args.target) {
            Some(t) => t,
            None => match opt_string(&args.id) {
                Some(t) => t,
                None => {
                    proof {
                        reveal_strlit("missing string `target`");
                        reveal_strlit("missing string `");
                        reveal_strlit("target");
                        reveal_strlit("`");
                        assert("missing string `target`"@ =~= missing_string("target"@));
                    }
                    return Err("missing string `target`".to_owned());
                },
            },
        };
        let spec = AssertSpec {
            target,
            name: opt_string(&args.name),
            value: opt_string(&args.value),
            role: opt_string(&args.role),
            checked: args.checked,
            exists: args.exists,
            visible: None,
            in_viewport: None,
        };
        Ok((None, Op::Assert { spec }))
    } else if str_eq(name, "invoke") {
        let invoke_name = match take_string(&args.name, "name") {
            Ok(x) => x,
            Err(e) => return Err(e),
        };
        Ok((None, Op::Invoke { name: invoke_name, args: args.invoke_args }))
    } else if str_eq(name, "shutdown") {
        Ok((None, Op::Shutdown))
    } else {
        proof {
            assert(!tool_names_spec().contains(name@)) by {
                if tool_names_spec().contains(name@) {
                    let i = choose|i: int| 0 <= i < tool_names_spec().len() && tool_names_spec()[i] == name@;
                    if i == 0 {} else if i == 1 {} else if i == 2 {} else if i == 3 {} else if i == 4 {}
                    else if i == 5 {} else if i == 6 {} else if i == 7 {} else if i == 8 {} else {}
                }
            }
        }
        let mut e = "unknown tool ".to_owned();
        e.append(name);
        Err(e)
    }
}



/// The JSON type of a tool argument.
#[derive(Debug, Clone, Copy, PartialEq, Eq, Structural)]
pub enum ParamKind {
    Text,
    Integer,
    Boolean,
    Object,
}

/// One argument a tool takes: its name, type, description and, where it
/// is one of fixed words, those words.
#[derive(Debug)]
pub struct ToolParam {
    pub name: &'static str,
    pub kind: ParamKind,
    pub description: Option<&'static str>,
    pub choices: Vec<&'static str>,
}

/// A tool as `tools/list` describes it: name, description, the arguments
/// and which of them are required (`None`: the schema names none).
#[derive(Debug)]
pub struct ToolSpec {
    pub name: &'static str,
    pub description: &'static str,
    pub params: Vec<ToolParam>,
    pub required: Option<Vec<&'static str>>,
}

#[verifier::ext_equal]
pub struct ParamView {
    pub name: Seq<char>,
    pub kind: ParamKind,
    pub description: Option<Seq<char>>,
    pub choices: Seq<Seq<char>>,
}

#[verifier::ext_equal]
pub struct ToolView {
    pub name: Seq<char>,
    pub description: Seq<char>,
    pub params: Seq<ParamView>,
    pub required: Option<Seq<Seq<char>>>,
}

pub open spec fn opt_str_ref_view(o: Option<&str>) -> Option<Seq<char>> {
    match o {
        Some(s) => Some(s@),
        None => None,
    }
}

pub open spec fn param_view(p: ToolParam) -> ParamView {
    ParamView { name: p.name@, kind: p.kind, description: opt_str_ref_view(p.description), choices: strs_view(p.choices@) }
}

pub open spec fn tool_view(t: ToolSpec) -> ToolView {
    ToolView {
        name: t.name@,
        description: t.description@,
        params: Seq::new(t.params@.len(), |i: int| param_view(t.params@[i])),
        required: match t.required {
            Some(r) => Some(strs_view(r@)),
            None => None,
        },
    }
}

/// Each tool's description and arguments.
pub open spec fn tool_spec_of(name: Seq<char>) -> Option<ToolView> {
    if name == "wait"@ {
        Some(ToolView { name: "wait"@, description: "Block until the host answers hello/ready."@, params: seq![ParamView { name: "timeout_ms"@, kind: ParamKind::Integer, description: Some("Client connect retry budget in milliseconds."@), choices: Seq::empty() }], required: None })
    } else if name == "hello"@ {
        Some(ToolView { name: "hello"@, description: "Handshake: protocol version, app name, platform, ready."@, params: Seq::empty(), required: None })
    } else if name == "snapshot"@ {
        Some(ToolView { name: "snapshot"@, description: "Read the semantic UI tree (stable ids, roles, names, state)."@, params: Seq::empty(), required: None })
    } else if name == "click"@ {
        Some(ToolView { name: "click"@, description: "Activate a widget by stable id. delivery=semantic (default) calls the handler; delivery=virtual synthesizes in-window GPUI pointer events (never OS HID)."@, params: seq![ParamView { name: "target"@, kind: ParamKind::Text, description: None, choices: Seq::empty() }, ParamView { name: "delivery"@, kind: ParamKind::Text, description: Some("semantic (default) calls the widget handler. virtual synthesizes GPUI pointer/key events in-process; never warps the OS cursor."@), choices: seq!["semantic"@, "virtual"@] }], required: Some(seq!["target"@]) })
    } else if name == "type"@ {
        Some(ToolView { name: "type"@, description: "Append text to an editable widget. Optional delivery=virtual types through GPUI keystrokes after focusing the target."@, params: seq![ParamView { name: "target"@, kind: ParamKind::Text, description: None, choices: Seq::empty() }, ParamView { name: "text"@, kind: ParamKind::Text, description: None, choices: Seq::empty() }, ParamView { name: "delivery"@, kind: ParamKind::Text, description: Some("semantic (default) calls the widget handler. virtual synthesizes GPUI pointer/key events in-process; never warps the OS cursor."@), choices: seq!["semantic"@, "virtual"@] }], required: Some(seq!["target"@, "text"@]) })
    } else if name == "set_value"@ {
        Some(ToolView { name: "set_value"@, description: "Replace the value of an editable widget."@, params: seq![ParamView { name: "target"@, kind: ParamKind::Text, description: None, choices: Seq::empty() }, ParamView { name: "value"@, kind: ParamKind::Text, description: None, choices: Seq::empty() }], required: Some(seq!["target"@, "value"@]) })
    } else if name == "key"@ {
        Some(ToolView { name: "key"@, description: "Send a key (Enter, Backspace, …) to a widget. Optional delivery=virtual uses GPUI dispatch_keystroke."@, params: seq![ParamView { name: "target"@, kind: ParamKind::Text, description: None, choices: Seq::empty() }, ParamView { name: "key"@, kind: ParamKind::Text, description: None, choices: Seq::empty() }, ParamView { name: "delivery"@, kind: ParamKind::Text, description: Some("semantic (default) calls the widget handler. virtual synthesizes GPUI pointer/key events in-process; never warps the OS cursor."@), choices: seq!["semantic"@, "virtual"@] }], required: Some(seq!["target"@, "key"@]) })
    } else if name == "assert"@ {
        Some(ToolView { name: "assert"@, description: "Assert name/value/role/checked/exists on a node from the current snapshot."@, params: seq![ParamView { name: "target"@, kind: ParamKind::Text, description: Some("Stable node id (alias: id)."@), choices: Seq::empty() }, ParamView { name: "id"@, kind: ParamKind::Text, description: Some("Alias for target."@), choices: Seq::empty() }, ParamView { name: "name"@, kind: ParamKind::Text, description: None, choices: Seq::empty() }, ParamView { name: "value"@, kind: ParamKind::Text, description: None, choices: Seq::empty() }, ParamView { name: "role"@, kind: ParamKind::Text, description: None, choices: Seq::empty() }, ParamView { name: "checked"@, kind: ParamKind::Boolean, description: None, choices: Seq::empty() }, ParamView { name: "exists"@, kind: ParamKind::Boolean, description: None, choices: Seq::empty() }], required: Some(Seq::empty()) })
    } else if name == "invoke"@ {
        Some(ToolView { name: "invoke"@, description: "Call a named host command the app registered (app-specific verbs belong here, not as extra tools)."@, params: seq![ParamView { name: "name"@, kind: ParamKind::Text, description: Some("Host command, e.g. demo.reset"@), choices: Seq::empty() }, ParamView { name: "args"@, kind: ParamKind::Object, description: Some("JSON object of arguments."@), choices: Seq::empty() }], required: Some(seq!["name"@]) })
    } else if name == "shutdown"@ {
        Some(ToolView { name: "shutdown"@, description: "Ask the host to exit."@, params: Seq::empty(), required: None })
    } else {
        None
    }
}

fn param(name: &'static str, kind: ParamKind, description: Option<&'static str>) -> (p: ToolParam)
    ensures
        param_view(p) == (ParamView { name: name@, kind, description: opt_str_ref_view(description), choices: Seq::empty() }),
{
    let p = ToolParam { name, kind, description, choices: Vec::new() };
    assert(strs_view(p.choices@) =~= Seq::<Seq<char>>::empty());
    p
}

fn delivery_param() -> (p: ToolParam)
    ensures
        param_view(p) == (ParamView {
            name: "delivery"@,
            kind: ParamKind::Text,
            description: Some("semantic (default) calls the widget handler. virtual synthesizes GPUI pointer/key events in-process; never warps the OS cursor."@),
            choices: seq!["semantic"@, "virtual"@],
        }),
{
    let p = ToolParam {
        name: "delivery",
        kind: ParamKind::Text,
        description: Some("semantic (default) calls the widget handler. virtual synthesizes GPUI pointer/key events in-process; never warps the OS cursor."),
        choices: vec!["semantic", "virtual"],
    };
    assert(strs_view(p.choices@) =~= seq!["semantic"@, "virtual"@]);
    p
}

fn tool(
    name: &'static str,
    description: &'static str,
    params: Vec<ToolParam>,
    required: Option<Vec<&'static str>>,
) -> (t: ToolSpec)
    ensures
        t.name == name,
        t.description == description,
        t.params == params,
        t.required == required,
{
    ToolSpec { name, description, params, required }
}

/// How `tools/list` describes the tool `name`, if it is one.
pub fn tool_spec(name: &str) -> (r: Option<ToolSpec>)
    ensures
        match r {
            Some(t) => tool_spec_of(name@) == Some(tool_view(t)),
            None => tool_spec_of(name@) is None,
        },
{
    if str_eq(name, "wait") {
        Some(tool("wait", "Block until the host answers hello/ready.", vec![param("timeout_ms", ParamKind::Integer, Some("Client connect retry budget in milliseconds."))], None))
    } else if str_eq(name, "hello") {
        Some(tool("hello", "Handshake: protocol version, app name, platform, ready.", Vec::new(), None))
    } else if str_eq(name, "snapshot") {
        Some(tool("snapshot", "Read the semantic UI tree (stable ids, roles, names, state).", Vec::new(), None))
    } else if str_eq(name, "click") {
        Some(tool("click", "Activate a widget by stable id. delivery=semantic (default) calls the handler; delivery=virtual synthesizes in-window GPUI pointer events (never OS HID).", vec![param("target", ParamKind::Text, None), delivery_param()], Some(vec!["target"])))
    } else if str_eq(name, "type") {
        Some(tool("type", "Append text to an editable widget. Optional delivery=virtual types through GPUI keystrokes after focusing the target.", vec![param("target", ParamKind::Text, None), param("text", ParamKind::Text, None), delivery_param()], Some(vec!["target", "text"])))
    } else if str_eq(name, "set_value") {
        Some(tool("set_value", "Replace the value of an editable widget.", vec![param("target", ParamKind::Text, None), param("value", ParamKind::Text, None)], Some(vec!["target", "value"])))
    } else if str_eq(name, "key") {
        Some(tool("key", "Send a key (Enter, Backspace, …) to a widget. Optional delivery=virtual uses GPUI dispatch_keystroke.", vec![param("target", ParamKind::Text, None), param("key", ParamKind::Text, None), delivery_param()], Some(vec!["target", "key"])))
    } else if str_eq(name, "assert") {
        Some(tool("assert", "Assert name/value/role/checked/exists on a node from the current snapshot.", vec![param("target", ParamKind::Text, Some("Stable node id (alias: id).")), param("id", ParamKind::Text, Some("Alias for target.")), param("name", ParamKind::Text, None), param("value", ParamKind::Text, None), param("role", ParamKind::Text, None), param("checked", ParamKind::Boolean, None), param("exists", ParamKind::Boolean, None)], Some(Vec::new())))
    } else if str_eq(name, "invoke") {
        Some(tool("invoke", "Call a named host command the app registered (app-specific verbs belong here, not as extra tools).", vec![param("name", ParamKind::Text, Some("Host command, e.g. demo.reset")), param("args", ParamKind::Object, Some("JSON object of arguments."))], Some(vec!["name"])))
    } else if str_eq(name, "shutdown") {
        Some(tool("shutdown", "Ask the host to exit.", Vec::new(), None))
    } else {
        None
    }
}

} // verus!
