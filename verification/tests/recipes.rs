use gpui_agent::bind::apply_params;
use gpui_agent::placeholders::op_placeholders;
use gpui_agent::plan::{compile_recipe, compile_steps, order_check_recipe, schedule};
use gpui_agent::protocol::{AssertSpec, DeliveryMode, Op};
use gpui_agent::recipe::{
    check_params_bound, collect_placeholders, invoke_args, parse_recipe_source, parse_set, parse_wants, parse_wants_steps, substitute_string,
    tokenize, validate_recipe, Recipe, RecipeSource, RecipeStep, MAX_RECIPE_STEPS, RECIPE_FORMAT_VERSION,
};
use gpui_agent::registry::todo_registry;
use gpui_agent::resolve::resolve_intent;
use gpui_agent::schema::{Effect, OpSchema, Registry, SchemaKind};

fn wants(text: &str) -> Result<Vec<RecipeStep>, String> {
    parse_wants_steps(text.trim())
}

fn step(id: &str, needs: &[&str], op: Op) -> RecipeStep {
    RecipeStep {
        id: id.to_owned(),
        needs: needs.iter().map(|s| s.to_string()).collect(),
        op,
        screenshot: false,
    }
}

fn recipe(name: &str, params: &[&str], steps: Vec<RecipeStep>) -> Recipe {
    Recipe {
        v: RECIPE_FORMAT_VERSION,
        name: name.to_owned(),
        app: None,
        params: params.iter().map(|s| s.to_string()).collect(),
        steps,
    }
}

fn validate(r: &Recipe) -> Result<(), String> {
    validate_recipe(r, &todo_registry())
}

fn set_value(target: &str, value: &str) -> Op {
    Op::SetValue { target: target.to_owned(), value: value.to_owned() }
}

// ----- plan -----

#[test]
fn linear_wants_are_order_dependent() {
    let recipe = parse_wants("set-value todo-input Hi\nclick todo-add\nassert todo-item-1 name=Hi", "lin").unwrap();
    let check = order_check_recipe(&recipe, &vec![], &todo_registry()).unwrap();
    assert!(check.order_dependent);
}

#[test]
fn explicit_dag_is_stable_under_reverse() {
    let assert_window = AssertSpec { target: "todo-window".to_owned(), ..AssertSpec::default() };
    let steps = vec![
        step("a", &[], Op::Hello),
        step("b", &[], Op::Snapshot),
        step("c", &["a", "b"], Op::Assert { spec: assert_window }),
    ];
    let check = order_check_recipe(&recipe("dag", &[], steps), &vec![], &todo_registry()).unwrap();
    assert!(!check.order_dependent);
    assert_eq!(check.forward_waves.len(), 2);
    assert_eq!(check.forward_waves, check.reverse_waves);
    assert_eq!(check.forward_waves[0], vec!["a", "b"]);
    assert_eq!(check.forward_waves[1], vec!["c"]);
}

#[test]
fn cycle_is_rejected() {
    let steps = vec![step("a", &["b"], Op::Hello), step("b", &["a"], Op::Hello)];
    let err = compile_steps(&steps, &todo_registry()).err().unwrap();
    assert!(err.contains("cycle"), "{err}");
}

#[test]
fn unknown_need_is_named() {
    let steps = vec![step("a", &[], Op::Hello), step("b", &["ghost"], Op::Hello)];
    assert_eq!(schedule(&steps).unwrap_err(), "unknown need `ghost`");
}

#[test]
fn shutdown_requires_yes() {
    let recipe = parse_wants("hello\nshutdown", "bye").unwrap();
    let plan = compile_recipe(&recipe, &vec![], &todo_registry()).ok().unwrap();
    assert!(plan.requires_yes);
    assert!(plan.effects.contains(&Effect::Exit));
}

#[test]
fn compile_plan_copies_screenshot_flag() {
    let mut snap = step("snap", &[], Op::screenshot("out.png".to_owned()));
    snap.screenshot = true;
    let steps = vec![step("wait", &[], Op::Wait { timeout_ms: None }), snap];
    let plan = compile_recipe(&recipe("shots", &[], steps), &vec![], &todo_registry()).ok().unwrap();
    assert!(!plan.steps[0].screenshot);
    assert!(plan.steps[1].screenshot);
    assert_eq!(plan.steps[1].schema.as_deref(), Some("screenshot"));
    assert!(plan.steps[1].idempotent);
    assert!(!plan.requires_yes);
}

#[test]
fn implicit_linear_needs_are_chained() {
    let recipe = parse_wants("hello\nsnapshot", "lin").unwrap();
    let plan = compile_recipe(&recipe, &vec![], &todo_registry()).ok().unwrap();
    assert!(plan.steps[0].needs.is_empty());
    assert_eq!(plan.steps[1].needs, vec!["s1"]);
    assert_eq!(plan.waves.len(), 2);
}

#[test]
fn explicit_waves_group_independent_steps() {
    let steps = vec![
        step("z", &[], Op::Hello),
        step("y", &["z"], Op::Snapshot),
        step("a", &[], Op::Snapshot),
        step("x", &["y", "a"], Op::Hello),
    ];
    let (ordered, waves) = schedule(&steps).unwrap();
    assert_eq!(waves, vec![vec!["a", "z"], vec!["y"], vec!["x"]]);
    assert_eq!(ordered, vec![2, 0, 1, 3]);
    let plan = compile_steps(&steps, &todo_registry()).ok().unwrap();
    let ids: Vec<&str> = plan.steps.iter().map(|s| s.id.as_str()).collect();
    assert_eq!(ids, ["a", "z", "y", "x"]);
    assert_eq!(plan.steps[3].needs, vec!["y", "a"]);
}

// ----- registry and schema -----

#[test]
fn todo_registry_has_verified_invoke_names() {
    let reg = todo_registry();
    assert!(reg.get("todo.add").unwrap().verified);
    assert_eq!(reg.get("todo.add").unwrap().effects, vec![Effect::Write]);
    assert!(reg.get("shutdown").unwrap().effects.contains(&Effect::Exit));
    assert!(reg.get("click").is_some());
    assert!(reg.get("screenshot").unwrap().idempotent);
    assert!(reg.get("todo-input").is_some());
}

#[test]
fn todo_registry_holds_every_generic_protocol_op() {
    let reg = todo_registry();
    for name in ["hello", "wait", "snapshot", "screenshot", "click", "type", "set_value", "key", "assert", "invoke", "shutdown"] {
        assert!(reg.get(name).is_some(), "{name}");
    }
    assert_eq!(reg.get("key").unwrap().required, vec!["target", "key"]);
    assert_eq!(reg.get("invoke").unwrap().required, vec!["name"]);
    assert_eq!(reg.schemas().len(), 19);
    assert_eq!(reg.get("todo.toggle").unwrap().required, vec!["id"]);
}

fn bare_schema(name: &str) -> OpSchema {
    OpSchema {
        name: name.into(),
        kind: SchemaKind::Invoke,
        description: "no".into(),
        effects: vec![Effect::Write],
        idempotent: false,
        verified: false,
        required: vec![],
        args: vec![],
        result: None,
        keywords: vec![],
    }
}

#[test]
fn insert_rejects_non_allowlisted_schema_name() {
    let mut reg = Registry::new();
    let err = reg.insert(bare_schema("rm -rf")).unwrap_err();
    assert!(err.contains("alphanumeric"), "{err}");
    assert!(reg.get("rm -rf").is_none());
}

#[test]
fn rejects_empty_name() {
    let mut schema = bare_schema("");
    schema.kind = SchemaKind::Protocol;
    assert!(schema.validate().is_err());
}

#[test]
fn required_needs_an_args_entry() {
    let mut schema = bare_schema("x.y");
    schema.required = vec!["target".into(), "cmd".into()];
    assert_eq!(
        schema.validate().unwrap_err(),
        "schema `x.y` lists required `cmd` with no args entry"
    );
}

#[test]
fn insert_replaces_same_name() {
    let mut reg = Registry::new();
    reg.insert(bare_schema("a.b")).unwrap();
    let mut again = bare_schema("a.b");
    again.idempotent = true;
    reg.insert(again).unwrap();
    assert_eq!(reg.schemas().len(), 1);
    assert!(reg.get("a.b").unwrap().idempotent);
}

// ----- resolve -----

#[test]
fn resolves_todo_add() {
    let result = resolve_intent("add a todo titled Buy milk", &todo_registry()).unwrap();
    assert_eq!(result.schema, "todo.add");
    match result.op {
        Op::Invoke { name, args } => {
            assert_eq!(name, "todo.add");
            assert_eq!(args["title"], "Buy milk");
        }
        other => panic!("{other:?}"),
    }
}

#[test]
fn resolves_quoted_title() {
    let result = resolve_intent(r#"todo.add "Write docs""#, &todo_registry()).unwrap();
    assert_eq!(result.schema, "todo.add");
}

#[test]
fn resolves_toggle_id() {
    let result = resolve_intent("toggle todo id 1", &todo_registry()).unwrap();
    assert_eq!(result.schema, "todo.toggle");
    match result.op {
        Op::Invoke { args, .. } => assert_eq!(args["id"], 1),
        other => panic!("{other:?}"),
    }
}

#[test]
fn unknown_intent_fails_closed() {
    let err = resolve_intent("rm -rf /", &todo_registry()).unwrap_err();
    assert!(err.contains("fail closed"), "{err}");
}

#[test]
fn snapshot_intent() {
    let result = resolve_intent("take a snapshot of the tree", &todo_registry()).unwrap();
    assert_eq!(result.schema, "snapshot");
    assert!(result.effects.contains(&Effect::Read));
}

#[test]
fn screenshot_intent() {
    let result = resolve_intent("screenshot png frame", &todo_registry()).unwrap();
    assert_eq!(result.schema, "screenshot");
    assert!(matches!(result.op, Op::Screenshot { .. }));
}

#[test]
fn empty_intent_fails_closed() {
    let err = resolve_intent("   ", &todo_registry()).unwrap_err();
    assert!(err.contains("empty"), "{err}");
}

#[test]
fn shell_like_intents_fail_closed() {
    for intent in ["rm -rf /", "curl http://evil.example/x", "bash -c 'reboot'", "frobnicate xyzzy"] {
        let err = resolve_intent(intent, &todo_registry()).unwrap_err();
        assert!(err.contains("fail closed"), "{intent}: {err}");
    }
}

#[test]
fn ambiguous_short_intent_fails_closed() {
    let err = resolve_intent("todo", &todo_registry()).unwrap_err();
    assert!(err.contains("ambiguous"), "{err}");
}

#[test]
fn invoke_without_required_title_fails() {
    let err = resolve_intent("todo.add", &todo_registry()).unwrap_err();
    assert!(err.contains("title"), "{err}");
}

#[test]
fn invoke_without_required_id_fails() {
    let err = resolve_intent("todo.toggle", &todo_registry()).unwrap_err();
    assert!(err.contains("id"), "{err}");
}

#[test]
fn click_without_stable_id_fails() {
    let err = resolve_intent("click the button", &todo_registry()).unwrap_err();
    assert!(
        err.contains("stable id") || err.contains("fail closed") || err.contains("ambiguous"),
        "{err}"
    );
}

#[test]
fn type_and_key_intents_do_not_materialize_from_prose() {
    for intent in ["type", "key"] {
        let err = resolve_intent(intent, &todo_registry()).unwrap_err();
        assert!(
            err.contains("materialize") || err.contains("fail closed") || err.contains("ambiguous"),
            "{intent}: {err}"
        );
    }
}

// ----- wants text -----

#[test]
fn wants_attached_quotes_become_one_token() {
    let steps = wants(r#"invoke todo.add title="Buy milk""#).unwrap();
    match &steps[0].op {
        Op::Invoke { args, .. } => assert_eq!(args["title"], "Buy milk"),
        other => panic!("{other:?}"),
    }
}

#[test]
fn wants_parse_and_params() {
    let text = "\n# create a todo\nset-value todo-input $title\nclick todo-add\nassert todo-item-1 name=$title checked=false\n";
    let recipe = parse_wants(text, "crud").unwrap();
    assert_eq!(recipe.params, vec!["title"]);
    validate_recipe(&recipe, &todo_registry()).unwrap();
    let set = parse_set(&vec!["title=Buy milk".to_owned()]).unwrap();
    let bound = apply_params(&recipe, &set).unwrap();
    match &bound.steps[0].op {
        Op::SetValue { value, .. } => assert_eq!(value, "Buy milk"),
        other => panic!("{other:?}"),
    }
    match &bound.steps[2].op {
        Op::Assert { spec } => assert_eq!(spec.name.as_deref(), Some("Buy milk")),
        other => panic!("{other:?}"),
    }
}

#[test]
fn unknown_invoke_fails_closed() {
    let mut args = serde_json::Map::new();
    args.insert("cmd".to_owned(), serde_json::Value::String("rm".to_owned()));
    let r = recipe(
        "bad",
        &[],
        vec![step("x", &[], Op::Invoke { name: "shell.run".to_owned(), args: serde_json::Value::Object(args) })],
    );
    let err = validate(&r).unwrap_err();
    assert!(err.contains("unknown invoke"), "{err}");
}

#[test]
fn undeclared_placeholder_is_rejected() {
    let r = recipe("bad", &[], vec![step("x", &[], set_value("todo-input", "$title"))]);
    let err = validate(&r).unwrap_err();
    assert!(err.contains("not declared"), "{err}");
}

#[test]
fn empty_source_is_rejected() {
    let err = parse_recipe_source("", "empty", false).unwrap_err();
    assert!(err.contains("no steps"), "{err}");
    let err = parse_recipe_source("   \n# only comments\n\n", "c", false).unwrap_err();
    assert!(err.contains("no steps"), "{err}");
}

#[test]
fn recipe_source_picks_json_or_wants() {
    match parse_recipe_source("  {\"name\":\"x\"}\n", "x", false).unwrap() {
        RecipeSource::Json(t) => assert_eq!(t, "{\"name\":\"x\"}"),
        other => panic!("{other:?}"),
    }
    match parse_recipe_source("not-json", "bad", true).unwrap() {
        RecipeSource::Json(t) => assert_eq!(t, "not-json"),
        other => panic!("{other:?}"),
    }
    match parse_recipe_source("\nhello\n", "w", false).unwrap() {
        RecipeSource::Wants(r) => {
            assert_eq!(r.name, "w");
            assert_eq!(r.steps.len(), 1);
        }
        other => panic!("{other:?}"),
    }
}

#[test]
fn empty_json_steps_are_rejected() {
    let r = recipe("x", &[], vec![]);
    let err = validate(&r).unwrap_err();
    assert!(err.contains("no steps"), "{err}");
}

#[test]
fn unknown_wants_op_is_rejected() {
    let err = wants("frobnicate todo-add").unwrap_err();
    assert!(err.contains("unknown op"), "{err}");
}

#[test]
fn missing_required_params_at_apply() {
    let r = recipe("p", &["title"], vec![step("x", &[], set_value("todo-input", "$title"))]);
    validate(&r).unwrap();
    let err = apply_params(&r, &vec![]).unwrap_err();
    assert!(err.contains("missing --set title"), "{err}");
}

#[test]
fn duplicate_step_ids_are_rejected() {
    let r = recipe("dup", &[], vec![step("a", &[], Op::Hello), step("a", &[], Op::Snapshot)]);
    let err = validate(&r).unwrap_err();
    assert!(err.contains("duplicate"), "{err}");
}

#[test]
fn empty_step_id_and_empty_name_are_rejected() {
    let r = recipe("", &[], vec![step("a", &[], Op::Hello)]);
    let err = validate(&r).unwrap_err();
    assert!(err.contains("name"), "{err}");
    let r = recipe("x", &[], vec![step("", &[], Op::Hello)]);
    let err = validate(&r).unwrap_err();
    assert!(err.contains("step id"), "{err}");
}

#[test]
fn unknown_and_self_needs_are_rejected() {
    let r = recipe("x", &[], vec![step("a", &["ghost"], Op::Hello)]);
    let err = validate(&r).unwrap_err();
    assert!(err.contains("unknown"), "{err}");
    let r = recipe("x", &[], vec![step("a", &["a"], Op::Hello)]);
    let err = validate(&r).unwrap_err();
    assert!(err.contains("itself"), "{err}");
}

#[test]
fn unsupported_recipe_version() {
    let mut r = recipe("x", &[], vec![step("a", &[], Op::Hello)]);
    r.v = 99;
    let err = validate(&r).unwrap_err();
    assert!(err.contains("unsupported recipe version"), "{err}");
}

#[test]
fn too_many_steps_are_rejected() {
    let steps: Vec<RecipeStep> =
        (0..=MAX_RECIPE_STEPS).map(|i| step(&format!("s{i}"), &[], Op::Hello)).collect();
    let r = recipe("big", &[], steps);
    let err = validate(&r).unwrap_err();
    assert!(err.contains("max"), "{err}");
}

#[test]
fn invoke_protocol_name_is_not_an_invoke_schema() {
    let r = recipe(
        "x",
        &[],
        vec![step(
            "a",
            &[],
            Op::Invoke { name: "click".to_owned(), args: serde_json::Value::Object(serde_json::Map::new()) },
        )],
    );
    let err = validate(&r).unwrap_err();
    assert!(err.contains("not an invoke schema"), "{err}");
}

#[test]
fn wants_skips_comments_and_blanks() {
    let steps = wants("\n# heading\n\nhello\n  # mid\n\nsnapshot\n").unwrap();
    assert_eq!(steps.len(), 2);
    assert!(matches!(steps[0].op, Op::Hello));
    assert!(matches!(steps[1].op, Op::Snapshot));
    assert_eq!(steps[1].id, "s2");
}

#[test]
fn wants_unterminated_quote_is_invalid() {
    let err = wants(r#"set-value todo-input "no-end"#).unwrap_err();
    assert!(err.contains("unterminated quote"), "{err}");
}

#[test]
fn wants_invalid_lines() {
    assert!(wants("click").unwrap_err().contains("target"));
    assert!(wants("assert").unwrap_err().contains("target"));
    assert!(wants("invoke").unwrap_err().contains("name"));
    assert!(wants("set-value todo-input").unwrap_err().contains("set-value"));
    assert!(wants("type todo-input").unwrap_err().contains("type"));
    assert!(wants("assert todo-item-1 noflag").is_err());
}

#[test]
fn wants_delivery_and_assert_flags() {
    let recipe = parse_wants(
        "click --delivery virtual todo-add\nassert --id todo-item-1 --absent\nassert todo-x checked=true exists=false",
        "d",
    )
    .unwrap();
    assert_eq!(recipe.name, "d");
    assert_eq!(recipe.v, RECIPE_FORMAT_VERSION);
    assert!(recipe.params.is_empty());
    assert!(recipe.app.is_none());
    let ids: Vec<&str> = recipe.steps.iter().map(|s| s.id.as_str()).collect();
    assert_eq!(ids, vec!["s1", "s2", "s3"]);
    let steps = &recipe.steps;
    match &steps[0].op {
        Op::Click { target, delivery } => {
            assert_eq!(target, "todo-add");
            assert_eq!(*delivery, DeliveryMode::Virtual);
        }
        other => panic!("{other:?}"),
    }
    match &steps[1].op {
        Op::Assert { spec } => {
            assert_eq!(spec.target, "todo-item-1");
            assert_eq!(spec.exists, Some(false));
        }
        other => panic!("{other:?}"),
    }
    match &steps[2].op {
        Op::Assert { spec } => {
            assert_eq!(spec.checked, Some(true));
            assert_eq!(spec.exists, Some(false));
        }
        other => panic!("{other:?}"),
    }
}

#[test]
fn brace_and_bare_params_substitute() {
    let r = recipe(
        "p",
        &["title"],
        vec![step("a", &[], set_value("todo-input", "${title}")), step("b", &[], set_value("todo-input", "Hi $title"))],
    );
    validate(&r).unwrap();
    let set = parse_set(&vec!["title=Buy milk".to_owned()]).unwrap();
    let bound = apply_params(&r, &set).unwrap();
    match &bound.steps[0].op {
        Op::SetValue { value, .. } => assert_eq!(value, "Buy milk"),
        other => panic!("{other:?}"),
    }
    match &bound.steps[1].op {
        Op::SetValue { value, .. } => assert_eq!(value, "Hi Buy milk"),
        other => panic!("{other:?}"),
    }
}

#[test]
fn wants_standalone_quoted_value() {
    let steps = wants(r#"set-value todo-input "Buy milk""#).unwrap();
    match &steps[0].op {
        Op::SetValue { target, value } => {
            assert_eq!(target, "todo-input");
            assert_eq!(value, "Buy milk");
        }
        other => panic!("{other:?}"),
    }
}

#[test]
fn wants_escaped_quotes_inside_quotes() {
    let steps = wants(r#"set-value todo-input "Say \"hi\"""#).unwrap();
    match &steps[0].op {
        Op::SetValue { value, .. } => assert_eq!(value, r#"Say "hi""#),
        other => panic!("{other:?}"),
    }
}

#[test]
fn wants_key_and_wait_and_bad_delivery() {
    let steps = wants("wait\nkey todo-input Enter").unwrap();
    assert!(matches!(steps[0].op, Op::Wait { .. }));
    match &steps[1].op {
        Op::Key { target, key, .. } => {
            assert_eq!(target, "todo-input");
            assert_eq!(key, "Enter");
        }
        other => panic!("{other:?}"),
    }
    let err = wants("click --delivery").unwrap_err();
    assert!(err.contains("--delivery"), "{err}");
    let err = wants("assert todo-item-1 foo=bar").unwrap_err();
    assert!(err.contains("unknown assert field"), "{err}");
}

#[test]
fn wants_errors_name_the_line() {
    let err = wants("hello\nfrobnicate x").unwrap_err();
    assert!(err.starts_with("line 2:"), "{err}");
}

#[test]
fn parse_set_requires_equals() {
    let err = parse_set(&vec!["title".to_owned()]).unwrap_err();
    assert!(err.contains("KEY=VALUE"), "{err}");
    let set = parse_set(&vec!["title=Buy milk".to_owned()]).unwrap();
    assert_eq!(set, vec![("title".to_owned(), "Buy milk".to_owned())]);
}

#[test]
fn later_set_pair_wins() {
    let set = parse_set(&vec!["t=a".to_owned(), "t=b=c".to_owned()]).unwrap();
    assert_eq!(set[1], ("t".to_owned(), "b=c".to_owned()));
    assert_eq!(substitute_string("$t", &set).unwrap(), "b=c");
}

#[test]
fn text_without_placeholders_is_unchanged() {
    assert_eq!(substitute_string("cost: 5$", &vec![]).unwrap(), "cost: 5$");
    assert_eq!(substitute_string("plain", &vec![]).unwrap(), "plain");
    assert!(collect_placeholders("plain $1 text").is_empty());
    assert_eq!(collect_placeholders("$a ${b} $a"), vec!["a", "b", "a"]);
}

#[test]
fn tokenize_splits_on_whitespace_and_keeps_quotes_together() {
    assert_eq!(tokenize(r#"a  "b c" d="e f""#).unwrap(), vec!["a", "b c", "d=e f"]);
    assert!(tokenize(r#"a "b"#).is_err());
}

#[test]
fn compile_plan_missing_params_fail_closed() {
    let r = recipe("p", &["need_me"], vec![step("a", &[], set_value("todo-input", "$need_me"))]);
    let err = compile_recipe(&r, &vec![], &todo_registry()).err().unwrap();
    assert!(err.contains("need_me") || err.contains("missing --set"), "{err}");
    assert_eq!(err, "missing --set need_me=\u{2026}");
    let set = vec![("need_me".to_owned(), "x".to_owned())];
    assert!(check_params_bound(&r.params, &set).is_ok());
    assert!(compile_recipe(&r, &set, &todo_registry()).is_ok());
}

#[test]
fn compile_plan_unknown_invoke_fail_closed() {
    let r = recipe(
        "p",
        &[],
        vec![step("a", &[], Op::Invoke { name: "not.a.schema".to_owned(), args: serde_json::Value::Null })],
    );
    let err = compile_recipe(&r, &vec![], &todo_registry()).err().unwrap();
    assert!(err.contains("unknown invoke"), "{err}");
}

#[test]
fn invoke_args_are_json_when_they_parse() {
    let steps = wants(r#"invoke todo.toggle id=3 title="Buy milk" flag=true"#).unwrap();
    match &steps[0].op {
        Op::Invoke { name, args } => {
            assert_eq!(name, "todo.toggle");
            let obj = args.as_object().expect("an object");
            assert_eq!(obj.len(), 3);
            assert_eq!(obj["id"].as_u64(), Some(3));
            assert_eq!(obj["title"].as_str(), Some("Buy milk"));
            assert_eq!(obj["flag"].as_bool(), Some(true));
        }
        other => panic!("{other:?}"),
    }
}

#[test]
fn todo_schemas_hint_their_item_result() {
    let reg = todo_registry();
    let add = reg.get("todo.add").expect("todo.add");
    let hint = add.result.as_ref().expect("a result hint");
    assert_eq!(hint["id"].as_str(), Some("u64"));
    assert_eq!(hint["title"].as_str(), Some("string"));
    assert_eq!(hint["done"].as_str(), Some("bool"));
}

fn invoke_with_nested_args() -> Op {
    let mut inner = serde_json::Map::new();
    inner.insert("c".to_owned(), serde_json::Value::String("$x".to_owned()));
    let list = vec![
        serde_json::Value::String("${y}".to_owned()),
        serde_json::Value::from(3u64),
        serde_json::Value::Object(inner),
    ];
    let mut args = serde_json::Map::new();
    args.insert("a".to_owned(), serde_json::Value::String("pre $x post".to_owned()));
    args.insert("b".to_owned(), serde_json::Value::Array(list));
    Op::Invoke { name: "todo.$z".to_owned(), args: serde_json::Value::Object(args) }
}

#[test]
fn op_placeholders_walk_nested_invoke_args() {
    assert_eq!(op_placeholders(&invoke_with_nested_args()), vec!["x", "y", "z"]);
    let op = Op::Type { target: "$t".to_owned(), text: "$b $a $b".to_owned(), delivery: DeliveryMode::Semantic };
    assert_eq!(op_placeholders(&op), vec!["a", "b", "t"]);
    assert!(op_placeholders(&Op::Hello).is_empty());
}

#[test]
fn undeclared_placeholder_is_named() {
    let r = recipe("p", &["title"], vec![step("a", &[], set_value("todo-input", "$title $ghost"))]);
    assert_eq!(validate(&r).unwrap_err(), "placeholder $ghost is not declared in recipe.params");
}

#[test]
fn apply_params_binds_nested_invoke_args() {
    let r = recipe("p", &["x", "y", "z"], vec![step("a", &[], invoke_with_nested_args())]);
    let set = parse_set(&vec!["x=1".to_owned(), "y=2".to_owned(), "z=add".to_owned()]).unwrap();
    let bound = apply_params(&r, &set).unwrap();
    match &bound.steps[0].op {
        Op::Invoke { name, args } => {
            assert_eq!(name, "todo.add");
            assert_eq!(args["a"].as_str(), Some("pre 1 post"));
            assert_eq!(args["b"][0].as_str(), Some("2"));
            assert_eq!(args["b"][1].as_u64(), Some(3));
            assert_eq!(args["b"][2]["c"].as_str(), Some("1"));
        }
        other => panic!("{other:?}"),
    }
    let partial = parse_set(&vec!["x=1".to_owned(), "z=add".to_owned()]).unwrap();
    let lax = recipe("p", &["x"], vec![step("a", &[], invoke_with_nested_args())]);
    assert_eq!(apply_params(&lax, &partial).unwrap_err(), "missing --set y=\u{2026}");
}

#[test]
fn apply_params_binds_keys_before_targets() {
    let op = Op::Key { target: "$t".to_owned(), key: "$k".to_owned(), delivery: DeliveryMode::Semantic };
    let r = recipe("p", &[], vec![step("a", &[], op)]);
    assert_eq!(apply_params(&r, &vec![]).unwrap_err(), "missing --set k=\u{2026}");
}

#[test]
fn apply_params_binds_ids_and_needs() {
    let r = recipe("p", &["n"], vec![step("s$n", &[], Op::Hello), step("t", &["s$n"], Op::Snapshot)]);
    let set = parse_set(&vec!["n=9".to_owned()]).unwrap();
    let bound = apply_params(&r, &set).unwrap();
    assert_eq!(bound.steps[0].id, "s9");
    assert_eq!(bound.steps[1].needs, vec!["s9"]);
    assert_eq!(bound.name, "p");
    assert_eq!(bound.params, vec!["n"]);
}

#[test]
fn compile_recipe_refuses_ids_merged_by_binding() {
    let r = recipe("p", &["x"], vec![step("s$x", &[], Op::Hello), step("s1", &[], Op::Snapshot)]);
    let set = parse_set(&vec!["x=1".to_owned()]).unwrap();
    assert_eq!(compile_recipe(&r, &set, &todo_registry()).err().unwrap(), "duplicate step id `s1`");
}

#[test]
fn parse_wants_collects_params_sorted_once() {
    let recipe = parse_wants("set-value todo-input $b\nset-value todo-input ${a}\nclick $b", "w").unwrap();
    assert_eq!(recipe.params, vec!["a", "b"]);
    assert_eq!(parse_wants("# nothing\n", "w").unwrap_err(), "recipe has no steps");
}

#[test]
fn invoke_args_read_json_values() {
    let pairs = vec!["id=3".to_owned(), "title=Buy milk".to_owned(), "flag=true".to_owned(), "id=4".to_owned()];
    let v = invoke_args(&pairs).unwrap();
    assert_eq!(v["id"].as_u64(), Some(4));
    assert_eq!(v["title"].as_str(), Some("Buy milk"));
    assert_eq!(v["flag"].as_bool(), Some(true));
    assert_eq!(v.as_object().unwrap().len(), 3);
    assert_eq!(invoke_args(&vec!["oops".to_owned()]).unwrap_err(), "expected KEY=VALUE, got oops");
}
