use gpui_agent::cli::{require_token, Cli, Command, RecipeCommand};

fn args(v: &[&str]) -> Vec<String> {
    v.iter().map(|s| s.to_string()).collect()
}

#[test]
fn default_command_is_serve() {
    let cli = Cli::try_parse_from(&args(&["todo-headless"])).unwrap();
    assert_eq!(cli.command, None);
    assert_eq!(cli.command.unwrap_or(Command::Serve), Command::Serve);
    assert_eq!(cli.command_or_default(), Command::Serve);
}

#[test]
fn parses_serve_status_shutdown() {
    let serve = Cli::try_parse_from(&args(&["todo-headless", "serve"])).unwrap();
    assert_eq!(serve.command, Some(Command::Serve));
    let status = Cli::try_parse_from(&args(&["todo-headless", "status"])).unwrap();
    assert_eq!(status.command, Some(Command::Status));
    let shutdown = Cli::try_parse_from(&args(&["todo-headless", "shutdown"])).unwrap();
    assert_eq!(shutdown.command, Some(Command::Shutdown));
}

#[test]
fn unknown_subcommand_is_refused() {
    assert!(Cli::try_parse_from(&args(&["todo-headless", "launch"])).is_err());
    assert!(Cli::try_parse_from(&args(&["todo-headless", "serve", "extra"])).is_err());
}

#[test]
fn screenshot_flagged_requires_dir() {
    let cmd = RecipeCommand::Run {
        path: "examples/recipes/todo-crud.json".to_owned(),
        set: vec!["title=x".into()],
        yes: false,
        receipt_out: None,
        screenshot_dir: None,
        screenshot_flagged: true,
    };
    let err = cmd.screenshot_capture().unwrap_err();
    assert!(err.contains("--screenshot-dir"), "{err}");
}

#[test]
fn screenshot_capture_from_run_flags() {
    let cmd = RecipeCommand::Run {
        path: "r.json".to_owned(),
        set: vec![],
        yes: true,
        receipt_out: None,
        screenshot_dir: Some("shots".to_owned()),
        screenshot_flagged: true,
    };
    let cap = cmd.screenshot_capture().unwrap().unwrap();
    assert_eq!(cap.dir, "shots");
    assert!(cap.flagged_only);
    let plain = RecipeCommand::Run {
        path: "r.json".to_owned(),
        set: vec![],
        yes: false,
        receipt_out: None,
        screenshot_dir: None,
        screenshot_flagged: false,
    };
    assert!(plain.screenshot_capture().unwrap().is_none());
    let validate = RecipeCommand::Validate { path: "-".to_owned() };
    assert!(validate.screenshot_capture().unwrap().is_none());
}

#[test]
fn recipe_run_and_mcp_need_a_non_empty_token() {
    let missing = require_token(None, "recipe run").unwrap_err();
    assert!(missing.contains("GPUI_AGENT_TOKEN"), "{missing}");
    assert!(missing.starts_with("recipe run"), "{missing}");
    let empty = require_token(Some(""), "mcp").unwrap_err();
    assert!(empty.contains("token"), "{empty}");
    assert_eq!(require_token(Some("s3cret"), "mcp").unwrap(), "s3cret");
}
