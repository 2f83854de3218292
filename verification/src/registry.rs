//! The sample todo app's schema registry: the generic protocol ops, the
//! todo `invoke` names and the todo widget ids.

use vstd::prelude::*;

use crate::recipe::{
    entries_view, json_array, json_array_value, json_object, json_object_value, json_string, json_string_value,
};
use crate::schema::{
    arg_names, name_char, required_ok, schema_error, ArgSchema, Effect, OpSchema, Registry, SchemaKind,
};
use crate::text::{owned_strs, strings_view, strs_view, trim};

verus! {

/// One row of the sample registry, as plain values; the result hint is
/// the JSON shape the schema documents.
pub struct SchemaRow {
    pub name: Seq<char>,
    pub kind: SchemaKind,
    pub description: Seq<char>,
    pub effects: Seq<Effect>,
    pub idempotent: bool,
    pub required: Seq<Seq<char>>,
    /// `(name, type, required)` of each declared argument.
    pub args: Seq<(Seq<char>, Seq<char>, bool)>,
    pub keywords: Seq<Seq<char>>,
    pub result: Option<serde_json::Value>,
}

pub open spec fn args_view(args: Seq<(String, ArgSchema)>) -> Seq<(Seq<char>, Seq<char>, bool)> {
    Seq::new(args.len(), |i: int| (args[i].0@, args[i].1.ty@, args[i].1.required))
}

/// `s` is the schema the row describes (verified, as every sample row is).
pub open spec fn is_row(s: OpSchema, row: SchemaRow) -> bool {
    &&& s.name@ == row.name
    &&& s.kind == row.kind
    &&& s.description@ == row.description
    &&& s.effects@ == row.effects
    &&& s.idempotent == row.idempotent
    &&& s.verified
    &&& strings_view(s.required@) == row.required
    &&& args_view(s.args@) == row.args
    &&& strings_view(s.keywords@) == row.keywords
    &&& s.result == row.result
}

pub open spec fn protocol_row(
    name: Seq<char>,
    description: Seq<char>,
    effect: Effect,
    idempotent: bool,
    keywords: Seq<Seq<char>>,
    required: Seq<Seq<char>>,
    arg: Option<(Seq<char>, Seq<char>)>,
) -> SchemaRow {
    SchemaRow {
        name,
        kind: SchemaKind::Protocol,
        description,
        effects: seq![effect],
        idempotent,
        required,
        args: match arg {
            Some((n, t)) => seq![(n, t, true)],
            None => Seq::empty(),
        },
        keywords,
        result: None,
    }
}

pub open spec fn todo_invoke_row(
    name: Seq<char>,
    description: Seq<char>,
    effect: Effect,
    idempotent: bool,
    arg: Option<(Seq<char>, Seq<char>)>,
    keywords: Seq<Seq<char>>,
    result: serde_json::Value,
) -> SchemaRow {
    SchemaRow {
        name,
        kind: SchemaKind::Invoke,
        description,
        effects: seq![effect],
        idempotent,
        required: match arg {
            Some((n, _)) => seq![n],
            None => Seq::empty(),
        },
        args: match arg {
            Some((n, t)) => seq![(n, t, true)],
            None => Seq::empty(),
        },
        keywords,
        result: Some(result),
    }
}

pub open spec fn id_row(name: Seq<char>, description: Seq<char>, keywords: Seq<Seq<char>>) -> SchemaRow {
    SchemaRow {
        name,
        kind: SchemaKind::Id,
        description,
        effects: seq![Effect::Write],
        idempotent: false,
        required: Seq::empty(),
        args: Seq::empty(),
        keywords,
        result: None,
    }
}

/// The `{"id": "u64", "title": "string", "done": "bool"}` shape of a todo.
pub open spec fn item_hint() -> serde_json::Value {
    json_object_value(
        seq![
            ("id"@, json_string_value("u64"@)),
            ("title"@, json_string_value("string"@)),
            ("done"@, json_string_value("bool"@)),
        ],
    )
}

/// The rows of the sample registry, in the order they are registered.
pub open spec fn todo_rows() -> Seq<SchemaRow> {
    seq![
        protocol_row("hello"@, "Handshake: protocol version, app name, platform."@, Effect::Read, true, seq!["hello"@, "handshake"@], seq![], None),
        protocol_row("wait"@, "Block until the host answers hello/ready."@, Effect::Read, true, seq!["wait"@, "ready"@], seq![], None),
        protocol_row("snapshot"@, "Read the semantic UI tree."@, Effect::Read, true, seq!["snapshot"@, "tree"@, "perceive"@], seq![], None),
        protocol_row("screenshot"@, "Write an observe-only PNG of the app surface (not the desktop)."@, Effect::Read, true, seq!["screenshot"@, "png"@, "frame"@], seq![], None),
        protocol_row("click"@, "Activate a widget by stable id."@, Effect::Write, false, seq!["click"@, "press"@, "tap"@], seq!["target"@], None),
        protocol_row("type"@, "Append text to an editable widget."@, Effect::Write, false, seq!["type"@, "append"@], seq!["target"@, "text"@], None),
        protocol_row("set_value"@, "Replace the value of an editable widget."@, Effect::Write, true, seq!["set"@, "value"@, "fill"@], seq!["target"@, "value"@], None),
        protocol_row("key"@, "Send a key to a widget."@, Effect::Write, false, seq!["key"@, "enter"@, "backspace"@], seq!["target"@, "key"@], Some(("key"@, "string"@))),
        protocol_row("assert"@, "Check snapshot fields on a stable id."@, Effect::Read, true, seq!["assert"@, "check"@, "verify"@], seq!["target"@], None),
        protocol_row("invoke"@, "Call a named host command (allow-listed by the app)."@, Effect::Write, false, seq!["invoke"@, "command"@], seq!["name"@], Some(("name"@, "string"@))),
        protocol_row("shutdown"@, "Ask the host to exit."@, Effect::Exit, false, seq!["shutdown"@, "exit"@, "quit"@], seq![], None),
        todo_invoke_row("todo.add"@, "Create a todo item from a title."@, Effect::Write, false, Some(("title"@, "string"@)), seq!["add"@, "create"@, "new"@, "todo"@, "task"@], item_hint()),
        todo_invoke_row("todo.toggle"@, "Toggle a todo item's done state."@, Effect::Write, false, Some(("id"@, "number"@)), seq!["toggle"@, "check"@, "complete"@, "todo"@], item_hint()),
        todo_invoke_row("todo.delete"@, "Delete a todo item."@, Effect::Write, false, Some(("id"@, "number"@)), seq!["delete"@, "remove"@, "todo"@], item_hint()),
        todo_invoke_row("todo.list"@, "List todo items."@, Effect::Read, true, None, seq!["list"@, "todos"@, "items"@], json_array_value(seq![item_hint()])),
        id_row("todo-input"@, "Draft text field for a new todo."@, seq!["input"@, "draft"@, "textbox"@]),
        id_row("todo-add"@, "Add button that commits the draft."@, seq!["add"@, "button"@]),
        id_row("todo-list"@, "List of todo items."@, seq!["list"@]),
        id_row("todo-window"@, "Root window of the sample todo app."@, seq!["window"@]),
    ]
}


/// A generic protocol op's schema.
fn protocol(
    name: &str,
    description: &str,
    effect: Effect,
    idempotent: bool,
    keywords: &[&str],
    required: &[&str],
    arg: Option<(&str, &str)>,
) -> (r: OpSchema)
    ensures
        is_row(
            r,
            protocol_row(
                name@,
                description@,
                effect,
                idempotent,
                strs_view(keywords@),
                strs_view(required@),
                match arg {
                    Some((n, t)) => Some((n@, t@)),
                    None => None,
                },
            ),
        ),
{
    let mut effects: Vec<Effect> = Vec::new();
    effects.push(effect);
    let r = OpSchema {
        name: name.to_owned(),
        kind: SchemaKind::Protocol,
        description: description.to_owned(),
        effects,
        idempotent,
        verified: true,
        required: owned_strs(required),
        args: Vec::new(),
        result: None,
        keywords: owned_strs(keywords),
    };
    let mut r = r;
    if let Some((n, t)) = arg {
        r.args.push((n.to_owned(), ArgSchema { ty: t.to_owned(), required: true }));
    }
    match arg {
        Some((n, t)) => {
            assert(args_view(r.args@) =~= seq![(n@, t@, true)]);
        },
        None => {
            assert(args_view(r.args@) =~= Seq::empty());
        },
    }
    assert(r.effects@ =~= seq![effect]);
    r
}

/// The `{"id": "u64", "title": "string", "done": "bool"}` result hint.
fn todo_item_hint() -> (r: serde_json::Value)
    ensures
        r == item_hint(),
{
    let mut entries: Vec<(String, serde_json::Value)> = Vec::new();
    entries.push(("id".to_owned(), json_string("u64")));
    entries.push(("title".to_owned(), json_string("string")));
    entries.push(("done".to_owned(), json_string("bool")));
    assert(entries_view(entries@) =~= seq![
        ("id"@, json_string_value("u64"@)),
        ("title"@, json_string_value("string"@)),
        ("done"@, json_string_value("bool"@)),
    ]);
    json_object(entries)
}

/// A todo `invoke` name's schema; `arg` is its one required argument.
fn todo_invoke(
    name: &str,
    description: &str,
    effect: Effect,
    idempotent: bool,
    arg: Option<(&str, &str)>,
    keywords: &[&str],
    result: serde_json::Value,
) -> (r: OpSchema)
    ensures
        is_row(
            r,
            todo_invoke_row(
                name@,
                description@,
                effect,
                idempotent,
                match arg {
                    Some((n, t)) => Some((n@, t@)),
                    None => None,
                },
                strs_view(keywords@),
                result,
            ),
        ),
{
    let mut effects: Vec<Effect> = Vec::new();
    effects.push(effect);
    let mut required: Vec<String> = Vec::new();
    let mut args: Vec<(String, ArgSchema)> = Vec::new();
    if let Some((n, t)) = arg {
        required.push(n.to_owned());
        args.push((n.to_owned(), ArgSchema { ty: t.to_owned(), required: true }));
    }
    let r = OpSchema {
        name: name.to_owned(),
        kind: SchemaKind::Invoke,
        description: description.to_owned(),
        effects,
        idempotent,
        verified: true,
        required,
        args,
        result: Some(result),
        keywords: owned_strs(keywords),
    };
    assert(r.effects@ =~= seq![effect]);
    match arg {
        Some((n, t)) => {
            assert(strings_view(r.required@) =~= seq![n@]);
            assert(args_view(r.args@) =~= seq![(n@, t@, true)]);
        },
        None => {
            assert(strings_view(r.required@) =~= Seq::empty());
            assert(args_view(r.args@) =~= Seq::empty());
        },
    }
    r
}

/// A stable widget id's schema.
fn widget_id(name: &str, description: &str, keywords: &[&str]) -> (r: OpSchema)
    ensures
        is_row(r, id_row(name@, description@, strs_view(keywords@))),
{
    let mut effects: Vec<Effect> = Vec::new();
    effects.push(Effect::Write);
    let r = OpSchema {
        name: name.to_owned(),
        kind: SchemaKind::Id,
        description: description.to_owned(),
        effects,
        idempotent: false,
        verified: true,
        required: Vec::new(),
        args: Vec::new(),
        result: None,
        keywords: owned_strs(keywords),
    };
    assert(r.effects@ =~= seq![Effect::Write]);
    assert(strings_view(r.required@) =~= Seq::empty());
    assert(args_view(r.args@) =~= Seq::empty());
    r
}

/// The sample registry's schemas, row by row.
fn todo_schemas() -> (r: Vec<OpSchema>)
    ensures
        r@.len() == todo_rows().len(),
        forall|i: int| 0 <= i < r@.len() ==> is_row(#[trigger] r@[i], todo_rows()[i]),
{
    let mut v: Vec<OpSchema> = Vec::new();
    let kw0: [&str; 2] = ["hello", "handshake"];
    assert(strs_view(kw0@) =~= seq!["hello"@, "handshake"@]);
    let rq0: [&str; 0] = [];
    assert(strs_view(rq0@) =~= Seq::<Seq<char>>::empty());
    let s0 = protocol("hello", "Handshake: protocol version, app name, platform.", Effect::Read, true, &kw0, &rq0, None);
    assert(is_row(s0, todo_rows()[0]));
    v.push(s0);
    let kw1: [&str; 2] = ["wait", "ready"];
    assert(strs_view(kw1@) =~= seq!["wait"@, "ready"@]);
    let rq1: [&str; 0] = [];
    assert(strs_view(rq1@) =~= Seq::<Seq<char>>::empty());
    let s1 = protocol("wait", "Block until the host answers hello/ready.", Effect::Read, true, &kw1, &rq1, None);
    assert(is_row(s1, todo_rows()[1]));
    v.push(s1);
    let kw2: [&str; 3] = ["snapshot", "tree", "perceive"];
    assert(strs_view(kw2@) =~= seq!["snapshot"@, "tree"@, "perceive"@]);
    let rq2: [&str; 0] = [];
    assert(strs_view(rq2@) =~= Seq::<Seq<char>>::empty());
    let s2 = protocol("snapshot", "Read the semantic UI tree.", Effect::Read, true, &kw2, &rq2, None);
    assert(is_row(s2, todo_rows()[2]));
    v.push(s2);
    let kw3: [&str; 3] = ["screenshot", "png", "frame"];
    assert(strs_view(kw3@) =~= seq!["screenshot"@, "png"@, "frame"@]);
    let rq3: [&str; 0] = [];
    assert(strs_view(rq3@) =~= Seq::<Seq<char>>::empty());
    let s3 = protocol("screenshot", "Write an observe-only PNG of the app surface (not the desktop).", Effect::Read, true, &kw3, &rq3, None);
    assert(is_row(s3, todo_rows()[3]));
    v.push(s3);
    let kw4: [&str; 3] = ["click", "press", "tap"];
    assert(strs_view(kw4@) =~= seq!["click"@, "press"@, "tap"@]);
    let rq4: [&str; 1] = ["target"];
    assert(strs_view(rq4@) =~= seq!["target"@]);
    let s4 = protocol("click", "Activate a widget by stable id.", Effect::Write, false, &kw4, &rq4, None);
    assert(is_row(s4, todo_rows()[4]));
    v.push(s4);
    let kw5: [&str; 2] = ["type", "append"];
    assert(strs_view(kw5@) =~= seq!["type"@, "append"@]);
    let rq5: [&str; 2] = ["target", "text"];
    assert(strs_view(rq5@) =~= seq!["target"@, "text"@]);
    let s5 = protocol("type", "Append text to an editable widget.", Effect::Write, false, &kw5, &rq5, None);
    assert(is_row(s5, todo_rows()[5]));
    v.push(s5);
    let kw6: [&str; 3] = ["set", "value", "fill"];
    assert(strs_view(kw6@) =~= seq!["set"@, "value"@, "fill"@]);
    let rq6: [&str; 2] = ["target", "value"];
    assert(strs_view(rq6@) =~= seq!["target"@, "value"@]);
    let s6 = protocol("set_value", "Replace the value of an editable widget.", Effect::Write, true, &kw6, &rq6, None);
    assert(is_row(s6, todo_rows()[6]));
    v.push(s6);
    let kw7: [&str; 3] = ["key", "enter", "backspace"];
    assert(strs_view(kw7@) =~= seq!["key"@, "enter"@, "backspace"@]);
    let rq7: [&str; 2] = ["target", "key"];
    assert(strs_view(rq7@) =~= seq!["target"@, "key"@]);
    let s7 = protocol("key", "Send a key to a widget.", Effect::Write, false, &kw7, &rq7, Some(("key", "string")));
    assert(is_row(s7, todo_rows()[7]));
    v.push(s7);
    let kw8: [&str; 3] = ["assert", "check", "verify"];
    assert(strs_view(kw8@) =~= seq!["assert"@, "check"@, "verify"@]);
    let rq8: [&str; 1] = ["target"];
    assert(strs_view(rq8@) =~= seq!["target"@]);
    let s8 = protocol("assert", "Check snapshot fields on a stable id.", Effect::Read, true, &kw8, &rq8, None);
    assert(is_row(s8, todo_rows()[8]));
    v.push(s8);
    let kw9: [&str; 2] = ["invoke", "command"];
    assert(strs_view(kw9@) =~= seq!["invoke"@, "command"@]);
    let rq9: [&str; 1] = ["name"];
    assert(strs_view(rq9@) =~= seq!["name"@]);
    let s9 = protocol("invoke", "Call a named host command (allow-listed by the app).", Effect::Write, false, &kw9, &rq9, Some(("name", "string")));
    assert(is_row(s9, todo_rows()[9]));
    v.push(s9);
    let kw10: [&str; 3] = ["shutdown", "exit", "quit"];
    assert(strs_view(kw10@) =~= seq!["shutdown"@, "exit"@, "quit"@]);
    let rq10: [&str; 0] = [];
    assert(strs_view(rq10@) =~= Seq::<Seq<char>>::empty());
    let s10 = protocol("shutdown", "Ask the host to exit.", Effect::Exit, false, &kw10, &rq10, None);
    assert(is_row(s10, todo_rows()[10]));
    v.push(s10);
    let kw11: [&str; 5] = ["add", "create", "new", "todo", "task"];
    assert(strs_view(kw11@) =~= seq!["add"@, "create"@, "new"@, "todo"@, "task"@]);
    let s11 = todo_invoke("todo.add", "Create a todo item from a title.", Effect::Write, false, Some(("title", "string")), &kw11, todo_item_hint());
    assert(is_row(s11, todo_rows()[11]));
    v.push(s11);
    let kw12: [&str; 4] = ["toggle", "check", "complete", "todo"];
    assert(strs_view(kw12@) =~= seq!["toggle"@, "check"@, "complete"@, "todo"@]);
    let s12 = todo_invoke("todo.toggle", "Toggle a todo item's done state.", Effect::Write, false, Some(("id", "number")), &kw12, todo_item_hint());
    assert(is_row(s12, todo_rows()[12]));
    v.push(s12);
    let kw13: [&str; 3] = ["delete", "remove", "todo"];
    assert(strs_view(kw13@) =~= seq!["delete"@, "remove"@, "todo"@]);
    let s13 = todo_invoke("todo.delete", "Delete a todo item.", Effect::Write, false, Some(("id", "number")), &kw13, todo_item_hint());
    assert(is_row(s13, todo_rows()[13]));
    v.push(s13);
    let kw14: [&str; 3] = ["list", "todos", "items"];
    assert(strs_view(kw14@) =~= seq!["list"@, "todos"@, "items"@]);
    let mut list_items: Vec<serde_json::Value> = Vec::new();
    list_items.push(todo_item_hint());
    assert(list_items@ =~= seq![item_hint()]);
    let s14 = todo_invoke("todo.list", "List todo items.", Effect::Read, true, None, &kw14, json_array(list_items));
    assert(is_row(s14, todo_rows()[14]));
    v.push(s14);
    let kw15: [&str; 3] = ["input", "draft", "textbox"];
    assert(strs_view(kw15@) =~= seq!["input"@, "draft"@, "textbox"@]);
    let s15 = widget_id("todo-input", "Draft text field for a new todo.", &kw15);
    assert(is_row(s15, todo_rows()[15]));
    v.push(s15);
    let kw16: [&str; 2] = ["add", "button"];
    assert(strs_view(kw16@) =~= seq!["add"@, "button"@]);
    let s16 = widget_id("todo-add", "Add button that commits the draft.", &kw16);
    assert(is_row(s16, todo_rows()[16]));
    v.push(s16);
    let kw17: [&str; 1] = ["list"];
    assert(strs_view(kw17@) =~= seq!["list"@]);
    let s17 = widget_id("todo-list", "List of todo items.", &kw17);
    assert(is_row(s17, todo_rows()[17]));
    v.push(s17);
    let kw18: [&str; 1] = ["window"];
    assert(strs_view(kw18@) =~= seq!["window"@]);
    let s18 = widget_id("todo-window", "Root window of the sample todo app.", &kw18);
    assert(is_row(s18, todo_rows()[18]));
    v.push(s18);
    assert forall|i: int| 0 <= i < v@.len() implies is_row(#[trigger] v@[i], todo_rows()[i]) by {
        assert(v@.len() == 19);
    }
    v
}


/// Whether the registry accepts a schema described by `row` (see
/// `OpSchema::validate`): a non-blank name of `[A-Za-z0-9_.-]`, and each
/// required field declared in `args` or one of `target`, `text`, `value`.
pub open spec fn row_valid(row: SchemaRow) -> bool {
    &&& trim(row.name).len() > 0
    &&& forall|i: int| 0 <= i < row.name.len() ==> name_char(#[trigger] row.name[i])
    &&& forall|k: int|
        0 <= k < row.required.len() ==> row_required_ok(row, #[trigger] row.required[k])
}

pub open spec fn row_required_ok(row: SchemaRow, req: Seq<char>) -> bool {
    (exists|a: int| 0 <= a < row.args.len() && #[trigger] row.args[a].0 == req) || req == "target"@
        || req == "text"@ || req == "value"@
}

proof fn lemma_row_valid(s: OpSchema, row: SchemaRow)
    requires
        is_row(s, row),
    ensures
        (schema_error(s) is None) == row_valid(row),
{
    assert forall|x: Seq<char>| required_ok(s, x) == row_required_ok(row, x) by {
        if arg_names(s.args@).contains(x) {
            let a = choose|a: int| 0 <= a < arg_names(s.args@).len() && arg_names(s.args@)[a] == x;
            assert(row.args[a].0 == args_view(s.args@)[a].0);
        }
        if exists|a: int| 0 <= a < row.args.len() && #[trigger] row.args[a].0 == x {
            let a = choose|a: int| 0 <= a < row.args.len() && #[trigger] row.args[a].0 == x;
            assert(arg_names(s.args@)[a] == x);
        }
    }
    let req = strings_view(s.required@);
    if schema_error(s) is None {
        assert forall|k: int| 0 <= k < row.required.len() implies row_required_ok(row, #[trigger] row.required[k]) by {
            assert(required_ok(s, req[k]));
        }
    }
    if row_valid(row) {
        assert(!exists|k: int| 0 <= k < req.len() && !required_ok(s, #[trigger] req[k])) by {
            assert forall|k: int| 0 <= k < req.len() implies required_ok(s, #[trigger] req[k]) by {
                assert(row_required_ok(row, row.required[k]));
            }
        }
    }
}

/// The last row before `n` named `name` that the registry accepts.
pub open spec fn last_valid(rows: Seq<SchemaRow>, name: Seq<char>, n: int) -> Option<int>
    decreases n,
{
    if n <= 0 {
        None
    } else if rows[n - 1].name == name && row_valid(rows[n - 1]) {
        Some(n - 1)
    } else {
        last_valid(rows, name, n - 1)
    }
}

/// `reg` holds, under each name, the last accepted row of the first `n`
/// rows with that name, and nothing under any other name.
pub open spec fn holds_rows(reg: Registry, rows: Seq<SchemaRow>, n: int) -> bool {
    forall|name: Seq<char>|
        match #[trigger] last_valid(rows, name, n) {
            None => reg.find(name) is None,
            Some(k) => reg.find(name) matches Some(j) && is_row(reg.entries()[j], rows[k]),
        }
}

/// Demo registry: the generic protocol ops, then the sample todo invoke
/// names and widget ids. A row the registry refuses is left out.
pub fn todo_registry() -> (r: Registry)
    ensures
        r.wf(),
        holds_rows(r, todo_rows(), todo_rows().len() as int),
{
    let mut schemas = todo_schemas();
    let ghost rows = todo_rows();
    let ghost total = rows.len();
    let mut reg = Registry::new();
    let mut i: usize = 0;
    while schemas.len() > 0
        invariant
            rows == todo_rows(),
            total == rows.len(),
            i + schemas@.len() == total,
            forall|k: int| 0 <= k < schemas@.len() ==> is_row(#[trigger] schemas@[k], rows[i + k]),
            reg.wf(),
            holds_rows(reg, rows, i as int),
        decreases schemas.len(),
    {
        let ghost rest = schemas@;
        let s = schemas.remove(0);
        assert(s == rest[0]);
        assert(is_row(s, rows[i as int]));
        proof {
            lemma_row_valid(s, rows[i as int]);
        }
        let ghost before = reg;
        let _ = reg.insert(s);
        proof {
            assert forall|k: int| 0 <= k < schemas@.len() implies is_row(#[trigger] schemas@[k], rows[i + 1 + k]) by {
                assert(is_row(rest[k + 1], rows[i + (k + 1)]));
                assert(schemas@[k] == rest[k + 1]);
            }
            assert forall|name: Seq<char>| match #[trigger] last_valid(rows, name, i + 1) {
                None => reg.find(name) is None,
                Some(k) => reg.find(name) matches Some(j) && is_row(reg.entries()[j], rows[k]),
            } by {
                let prev = last_valid(rows, name, i as int);
                if name == rows[i as int].name && row_valid(rows[i as int]) {
                } else if name == rows[i as int].name {
                    assert(reg.entries() == before.entries());
                } else {
                    match prev {
                        None => {},
                        Some(k) => {
                            let j = before.find(name)->0;
                            assert(before.entries()[j].name@ == name);
                            assert(reg.entries()[j] == before.entries()[j]);
                        },
                    }
                }
            }
        }
        i += 1;
    }
    reg
}
} // verus!
