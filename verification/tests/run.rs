use gpui_agent::plan::compile_steps;
use gpui_agent::protocol::Op;
use gpui_agent::recipe::RecipeStep;
use gpui_agent::registry::todo_registry;
use gpui_agent::run::{
    run_order, sanitize_step_id, screenshot_receipt, RecipeRun, RunError, ScreenshotCapture,
};

#[test]
fn sanitize_keeps_safe_ids() {
    assert_eq!(sanitize_step_id("wait"), "wait");
    assert_eq!(sanitize_step_id("add-1"), "add-1");
    assert_eq!(sanitize_step_id("weird/id"), "weird_id");
    assert_eq!(sanitize_step_id(""), "step");
}

#[test]
fn step_paths_are_numbered_and_joined() {
    let cap = ScreenshotCapture { dir: "shots".to_owned(), flagged_only: false };
    assert_eq!(cap.step_path(3, "add one"), "shots/003-add_one.png");
    let cap = ScreenshotCapture { dir: "shots/".to_owned(), flagged_only: false };
    assert_eq!(cap.step_path(12, ""), "shots/012-step.png");
    let cap = ScreenshotCapture { dir: String::new(), flagged_only: false };
    assert_eq!(cap.step_path(1000, "x"), "1000-x.png");
}

#[test]
fn receipts_record_failures_without_inventing_files() {
    let ok = screenshot_receipt("a.png".to_owned(), Ok((true, None)));
    assert!(ok.ok);
    assert!(ok.error.is_none());
    let refused = screenshot_receipt(
        "a.png".to_owned(),
        Ok((false, Some("screenshot_unavailable: headless".to_owned()))),
    );
    assert!(!refused.ok);
    assert_eq!(refused.error.as_deref(), Some("screenshot_unavailable: headless"));
    let silent = screenshot_receipt("a.png".to_owned(), Ok((false, None)));
    assert_eq!(silent.error.as_deref(), Some("screenshot failed"));
    let broken = screenshot_receipt("b.png".to_owned(), Err("connection reset".to_owned()));
    assert_eq!(broken.path, "b.png");
    assert_eq!(broken.error.as_deref(), Some("connection reset"));
}

fn step(id: &str, needs: &[&str], op: Op) -> RecipeStep {
    RecipeStep { id: id.to_owned(), needs: needs.iter().map(|s| s.to_string()).collect(), op, screenshot: false }
}

#[test]
fn run_order_follows_the_waves() {
    let steps = vec![
        step("b", &["a"], Op::Snapshot),
        step("a", &[], Op::Hello),
        step("c", &[], Op::Hello),
    ];
    let plan = compile_steps(&steps, &todo_registry()).ok().unwrap();
    let order = run_order(&plan.steps, &plan.waves);
    let ids: Vec<&str> = order.iter().map(|&i| plan.steps[i].id.as_str()).collect();
    assert_eq!(ids, ["a", "c", "b"]);
}

#[test]
fn exit_plans_need_yes() {
    let err = RecipeRun::start(vec![0], true, false).err().unwrap();
    assert!(matches!(err, RunError::NeedsYes));
    assert_eq!(err.message(), "recipe has shutdown/exit effects; pass --yes to run it");
    assert!(RecipeRun::start(vec![0], true, true).is_ok());
}

#[test]
fn run_stops_at_the_first_failed_step() {
    let mut run = RecipeRun::start(vec![2, 0, 1], false, false).ok().unwrap();
    assert_eq!(run.next_step(), Some(2));
    assert_eq!(run.shot_number(), 1);
    let v = run.record("x", Ok((true, None)));
    assert!(v.ok);
    assert_eq!(run.next_step(), Some(0));
    let v = run.record("y", Ok((false, None)));
    assert!(!v.ok);
    assert_eq!(run.next_step(), None);
    let err = run.finish().unwrap_err();
    assert_eq!(err.message(), "step `y` failed: request failed");
}

#[test]
fn transport_errors_stop_the_run_and_success_finishes_ok() {
    let mut run = RecipeRun::start(vec![0], false, false).ok().unwrap();
    run.record("only", Err("connection reset".to_owned()));
    assert_eq!(run.finish().unwrap_err().message(), "step `only` failed: connection reset");
    let mut ok = RecipeRun::start(vec![0, 1], false, false).ok().unwrap();
    ok.record("a", Ok((true, None)));
    ok.record("b", Ok((true, None)));
    assert_eq!(ok.next_step(), None);
    assert!(ok.finish().is_ok());
}
