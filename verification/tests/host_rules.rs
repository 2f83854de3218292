use gpui_agent::assertion::{
    assert_nodes, assert_viewport, AssertCheck, in_viewport_unavailable, is_in_viewport_unavailable, wait_until_step, WaitStep,
};
use gpui_agent::connections::{claim_admits, claim_connection};
use gpui_agent::dispatch::{gui_route, gui_turn, quits_after, route_request, GuiRoute, GuiTurn, Route};
use gpui_agent::mcp::{tool_names, tool_spec, ParamKind};
use std::sync::atomic::{AtomicUsize, Ordering};
use gpui_agent::mailbox::drain_latest;
use gpui_agent::plan::PlannedStep;
use gpui_agent::protocol::{AssertSpec, DeliveryMode, KeybindingScope, Op, Request};
use gpui_agent::run::first_unknown_wave_id;
use gpui_agent::scroll_capture::{
    check_scrolled_png_size, png_size_ok, scrolled_job_request, with_restore, RgbaImage,
    MAX_SCROLLED_PNG_BYTES,
};
use gpui_agent::server::ServerLimits;

fn planned(id: &str) -> PlannedStep {
    PlannedStep {
        id: id.to_owned(),
        op: Op::Hello,
        needs: vec![],
        screenshot: false,
        effects: vec![],
        schema: None,
        idempotent: true,
    }
}

#[test]
fn unknown_wave_id_is_the_first_unplanned() {
    let steps = vec![planned("a"), planned("b")];
    let waves = vec![vec!["a".to_owned()], vec!["b".to_owned(), "c".to_owned(), "d".to_owned()]];
    assert_eq!(first_unknown_wave_id(&steps, &waves), Some("c".to_owned()));
    let ok = vec![vec!["b".to_owned()], vec!["a".to_owned()]];
    assert_eq!(first_unknown_wave_id(&steps, &ok), None);
    assert_eq!(first_unknown_wave_id(&steps, &vec![]), None);
}

#[test]
fn in_viewport_errors_are_classified() {
    let e = in_viewport_unavailable("headless hosts have no painted window clip");
    assert_eq!(e, "in_viewport_unavailable: headless hosts have no painted window clip");
    assert!(is_in_viewport_unavailable(&e));
    assert!(is_in_viewport_unavailable("in_viewport_unavailable"));
    assert!(!is_in_viewport_unavailable("in_viewport_unavailablex: no"));
    assert!(!is_in_viewport_unavailable("node not found"));
}

#[test]
fn wait_until_stops_on_headless_viewport_or_deadline() {
    let e = in_viewport_unavailable("no clip");
    assert_eq!(wait_until_step(&e, true, false), WaitStep::Fail(e.clone()));
    assert_eq!(wait_until_step(&e, false, false), WaitStep::Retry);
    assert_eq!(
        wait_until_step("node `x` not found", false, true),
        WaitStep::Fail("wait_until timed out: node `x` not found".to_owned())
    );
    assert_eq!(wait_until_step("node `x` not found", true, false), WaitStep::Retry);
}

#[test]
fn gui_turns_and_routes() {
    assert_eq!(gui_turn(true, true), GuiTurn::AdvanceScrolledShot);
    assert_eq!(gui_turn(false, true), GuiTurn::AwaitKeybinding);
    assert_eq!(gui_turn(false, false), GuiTurn::Drain);
    let kb = Op::keybinding("todo::Add".to_owned(), KeybindingScope::Focused);
    assert_eq!(gui_route(&kb), GuiRoute::Keybinding);
    let shot = Op::screenshot("a.png".to_owned());
    assert_eq!(gui_route(&shot), GuiRoute::WindowShot);
    let scrolled = Op::screenshot_scrolled("a.png".to_owned(), "todo-list-scroll".to_owned(), None);
    assert_eq!(gui_route(&scrolled), GuiRoute::ScrolledShot);
    assert_eq!(gui_route(&Op::click_virtual("todo-add".to_owned())), GuiRoute::VirtualInput);
    assert_eq!(gui_route(&Op::click("todo-add".to_owned())), GuiRoute::Store);
    let assert_op = Op::Assert { spec: AssertSpec { target: "todo-add".to_owned(), ..AssertSpec::default() } };
    assert_eq!(gui_route(&assert_op), GuiRoute::Assert);
    let typed = Op::Type { target: "t".to_owned(), text: "x".to_owned(), delivery: DeliveryMode::Virtual };
    assert_eq!(gui_route(&typed), GuiRoute::VirtualInput);
    assert!(quits_after(&Op::Shutdown));
    assert!(!quits_after(&Op::Hello));
}

#[test]
fn scrolled_job_request_checks_in_order() {
    let ok = scrolled_job_request(Some(" shot.png "), Some(" todo-list-scroll "), None, "/tmp/shots", "todo-list-scroll");
    assert_eq!(ok, Ok(("shot.png".to_owned(), "todo-list-scroll".to_owned())));
    let no_path = scrolled_job_request(None, Some("todo-list-scroll"), None, "/tmp/shots", "todo-list-scroll");
    assert_eq!(no_path.unwrap_err(), "screenshot requires path");
    let no_target = scrolled_job_request(Some("a.png"), None, None, "/tmp/shots", "todo-list-scroll");
    assert!(no_target.unwrap_err().contains("requires target"));
    let other = scrolled_job_request(Some("a.png"), Some("sidebar"), None, "/tmp/shots", "todo-list-scroll");
    assert_eq!(
        other.unwrap_err(),
        "scroll_unavailable: unknown scroll target `sidebar` (want todo-list-scroll)"
    );
    let escape = scrolled_job_request(Some("../a.png"), Some("todo-list-scroll"), None, "/tmp/shots", "todo-list-scroll");
    assert!(escape.is_err());
}

#[test]
fn restore_failure_is_reported_only_after_success() {
    assert_eq!(with_restore::<u32>(Ok(7), Ok(())), Ok(7));
    assert_eq!(with_restore::<u32>(Ok(7), Err("no view".to_owned())), Err("restore scroll failed: no view".to_owned()));
    assert_eq!(with_restore::<u32>(Err("tile 2".to_owned()), Err("no view".to_owned())), Err("tile 2".to_owned()));
}

#[test]
fn stitched_png_size_is_capped() {
    assert!(check_scrolled_png_size(MAX_SCROLLED_PNG_BYTES).is_ok());
    assert_eq!(
        check_scrolled_png_size(MAX_SCROLLED_PNG_BYTES + 1).unwrap_err(),
        "stitched png exceeds 33554432 bytes (33554433)"
    );
}

#[test]
fn png_size_bound_refuses_overflowing_images() {
    let small = RgbaImage { width: 2, height: 3, pixels: vec![0; 24] };
    assert!(png_size_ok(&small));
    if usize::BITS == 64 {
        let huge = RgbaImage { width: 1 << 31, height: 1 << 31, pixels: vec![] };
        assert!(!png_size_ok(&huge));
    }
}

#[test]
fn drain_shows_the_newest_view() {
    let got = drain_latest::<u32>(vec![Ok(1), Err("down".to_owned()), Ok(3)], true);
    assert_eq!(got, Some(Ok(3)));
    assert_eq!(drain_latest::<u32>(vec![], false), None);
    assert_eq!(drain_latest::<u32>(vec![], true), Some(Err("daemon worker exited".to_owned())));
}

#[test]
fn server_idle_timeout_is_thirty_seconds() {
    assert_eq!(ServerLimits::default().idle_timeout, std::time::Duration::from_secs(30));
}

#[test]
fn connection_cap_admits_up_to_max_and_refunds_refusals() {
    let inflight = AtomicUsize::new(0);
    assert!(claim_connection(&inflight, 1));
    assert!(!claim_connection(&inflight, 1));
    assert_eq!(inflight.load(Ordering::SeqCst), 1);
    assert!(!claim_connection(&AtomicUsize::new(0), 0));
    assert!(claim_admits(0, 1));
    assert!(!claim_admits(1, 1));
    assert!(!claim_admits(5, 1));
}

#[test]
fn tool_descriptors_cover_every_listed_tool() {
    for name in tool_names() {
        let spec = tool_spec(name).unwrap();
        assert_eq!(spec.name, name);
    }
    assert!(tool_spec("todo.add").is_none());
    let click = tool_spec("click").unwrap();
    assert_eq!(click.required, Some(vec!["target"]));
    assert_eq!(click.params.len(), 2);
    assert_eq!(click.params[1].name, "delivery");
    assert_eq!(click.params[1].choices, vec!["semantic", "virtual"]);
    let wait = tool_spec("wait").unwrap();
    assert_eq!(wait.required, None);
    assert_eq!(wait.params[0].kind, ParamKind::Integer);
    let assert_tool = tool_spec("assert").unwrap();
    assert_eq!(assert_tool.required, Some(vec![]));
    assert_eq!(assert_tool.params.len(), 7);
}

fn facts(name: &str) -> gpui_agent::assertion::NodeFacts {
    gpui_agent::assertion::NodeFacts {
        name: name.to_owned(),
        value: None,
        role: "button".to_owned(),
        checked: None,
        visible: true,
    }
}

#[test]
fn assert_nodes_decides_from_ids_and_fields() {
    let ids = vec!["a".to_owned(), "b".to_owned(), "b".to_owned()];
    let nodes = vec![facts("Add"), facts("x"), facts("y")];
    let spec = AssertSpec { target: "a".to_owned(), name: Some("Add".to_owned()), ..AssertSpec::default() };
    assert_eq!(assert_nodes(&ids, &nodes, &spec), AssertCheck::Done(Ok(())));
    let wrong = AssertSpec { target: "a".to_owned(), name: Some("Remove".to_owned()), ..AssertSpec::default() };
    assert!(matches!(assert_nodes(&ids, &nodes, &wrong), AssertCheck::Done(Err(_))));
    let dup = AssertSpec { target: "b".to_owned(), ..AssertSpec::default() };
    assert_eq!(assert_nodes(&ids, &nodes, &dup), AssertCheck::Done(Err("duplicate id `b` (2 nodes)".to_owned())));
    let missing = AssertSpec { target: "z".to_owned(), ..AssertSpec::default() };
    assert_eq!(assert_nodes(&ids, &nodes, &missing), AssertCheck::Done(Err("node `z` not found".to_owned())));
    let absent = AssertSpec { target: "z".to_owned(), exists: Some(false), ..AssertSpec::default() };
    assert_eq!(assert_nodes(&ids, &nodes, &absent), AssertCheck::Done(Ok(())));
    let shown = AssertSpec { target: "a".to_owned(), in_viewport: Some(true), ..AssertSpec::default() };
    assert_eq!(assert_nodes(&ids, &nodes, &shown), AssertCheck::MeasureViewport(0));
    assert!(assert_viewport(&shown, Ok(true)).is_ok());
    assert!(assert_viewport(&shown, Ok(false)).unwrap_err().contains("in_viewport"));
    assert_eq!(assert_viewport(&shown, Err("in_viewport_unavailable: x".to_owned())).unwrap_err(), "in_viewport_unavailable: x");
}

#[test]
fn refused_screenshot_request_is_an_error_response() {
    let op = Op::Screenshot {
        path: Some("a.png".to_owned()),
        mode: gpui_agent::protocol::ScreenshotMode::Scrolled,
        target: None,
        max_height_px: None,
    };
    match route_request(&Request::new("7", op), None, None) {
        Route::Refused(resp) => {
            assert!(!resp.ok);
            assert_eq!(resp.id, "7");
            assert!(resp.error.unwrap().contains("requires target"));
        }
        other => panic!("{other:?}"),
    }
}
