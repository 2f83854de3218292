use gpui_agent::record::{
    escape_xml, os_record_help, resolve_record_target, role_color, row_label, RecordBackend,
    RecordTarget, SemanticRecorder,
};
use gpui_agent::record::{redact_passwords_only, redact_values, tree_to_ppm, tree_to_svg, FrameRow};

#[test]
fn resolve_record_target_video_uses_sidecar_dir() {
    let t = resolve_record_target("artifacts/recipe-run.mp4");
    assert_eq!(t.dir, "artifacts/recipe-run.mp4.frames");
    assert_eq!(t.mux_target.as_deref(), Some("artifacts/recipe-run.mp4"));
    let dir = resolve_record_target("artifacts/run");
    assert_eq!(dir.dir, "artifacts/run");
    assert!(dir.mux_target.is_none());
}

#[test]
fn backend_parse() {
    assert_eq!(RecordBackend::parse("semantic").unwrap(), RecordBackend::Semantic);
    assert_eq!(RecordBackend::parse("os").unwrap(), RecordBackend::Os);
    assert!(RecordBackend::parse("webcam").is_err());
}

#[test]
fn backend_aliases_and_error_text() {
    assert_eq!(RecordBackend::parse("tree").unwrap(), RecordBackend::Semantic);
    assert_eq!(RecordBackend::parse("window").unwrap(), RecordBackend::Os);
    assert_eq!(
        RecordBackend::parse("webcam").unwrap_err(),
        "unknown record backend `webcam` (want semantic or os)"
    );
}

#[test]
fn os_help_mentions_script_and_no_hid() {
    let help = os_record_help();
    assert!(help.contains("record-window.sh"));
    assert!(help.contains("semantic"));
    assert!(help.contains("never injects"));
}

#[test]
fn xml_is_escaped() {
    assert_eq!(escape_xml("a<b>&\"c'"), "a&lt;b&gt;&amp;&quot;c&apos;");
    assert_eq!(escape_xml("plain"), "plain");
}

#[test]
fn recorder_names_frames_by_index_and_sanitized_step() {
    let mut rec = SemanticRecorder::new(
        RecordTarget { dir: "out".to_owned(), mux_target: Some("out.mp4".to_owned()) },
        false,
    );
    rec.start("demo", "abc");
    let a = rec.add_frame(0, "wait", true);
    let b = rec.add_frame(1, "add!", false);
    assert_eq!(a.svg, "0000-wait.svg");
    assert_eq!(b.ppm, "0001-add_.ppm");
    assert!(!b.ok);
    let m = rec.manifest("other");
    assert_eq!(m.backend, "semantic");
    assert_eq!(m.fingerprint, "abc");
    assert_eq!(m.frames.len(), 2);
    assert_eq!(m.mux_hint, "ffmpeg -y -framerate 2 -i out/%04d-*.ppm out.mp4");
    assert_eq!(rec.dir(), "out");
}

#[test]
fn row_labels_and_colors() {
    let label = row_label("todo-input", "textbox", "Title", Some("draft"), None);
    assert_eq!(label, "todo-input  textbox  Title  value=draft");
    assert_eq!(row_label("t", "checkbox", "Done", None, Some(false)), "t  checkbox  Done  unchecked");
    assert_eq!(role_color("button"), "#38bdf8");
    assert_eq!(role_color("label"), "#64748b");
}

fn row(id: &str, role: &str, name: &str, value: Option<&str>) -> FrameRow {
    FrameRow { id: id.into(), role: role.into(), name: name.into(), value: value.map(String::from), checked: None }
}

fn sample_rows() -> Vec<FrameRow> {
    vec![
        row("todo-window", "window", "Agent Todo", None),
        row("todo-input", "textbox", "Draft", Some("secret-draft")),
        row("todo-add", "button", "Add", None),
    ]
}

#[test]
fn svg_redacts_values_by_default() {
    let redacted = redact_values(&sample_rows());
    let svg = tree_to_svg(&redacted, "add", true);
    assert!(svg.contains("todo-input"));
    assert!(svg.contains("\u{ab}redacted\u{bb}"));
    assert!(!svg.contains("secret-draft"));
    assert!(svg.contains("step add"));
}

#[test]
fn ppm_is_binary_p6() {
    let ppm = tree_to_ppm(&sample_rows(), true);
    assert!(ppm.starts_with(b"P6\n"));
    assert!(ppm.len() > 20);
}

#[test]
fn svg_layout_and_empty_frame() {
    let svg = tree_to_svg(&sample_rows(), "a<b", false);
    assert!(svg.starts_with("<svg xmlns=\"http://www.w3.org/2000/svg\" width=\"640\" height=\"132\""));
    assert!(svg.contains("step a&lt;b (fail)"));
    assert!(svg.contains("<rect x=\"12\" y=\"96\" width=\"8\" height=\"22\" fill=\"#38bdf8\"/>"));
    assert!(svg.contains("todo-input  textbox  Draft  value=secret-draft"));
    assert!(svg.ends_with("</svg>\n"));
    let empty = tree_to_svg(&Vec::new(), "s1", true);
    assert!(empty.contains("height=\"80\""));
    assert!(empty.contains("(no snapshot)"));
}

#[test]
fn ppm_paints_one_bar_per_row() {
    let ppm = tree_to_ppm(&sample_rows(), true);
    let header = b"P6\n160 32\n255\n";
    assert!(ppm.starts_with(header));
    assert_eq!(ppm.len(), header.len() + 160 * 32 * 3);
    let px = |y: usize, x: usize| {
        let i = header.len() + (y * 160 + x) * 3;
        [ppm[i], ppm[i + 1], ppm[i + 2]]
    };
    assert_eq!(px(0, 0), [15, 23, 42]);
    assert_eq!(px(4, 4), [251, 191, 36]);
    assert_eq!(px(12, 10), [167, 139, 250]);
    assert_eq!(px(11, 10), [15, 23, 42]);
    assert_eq!(px(20, 155), [56, 189, 248]);
    assert_eq!(px(20, 156), [15, 23, 42]);
}

#[test]
fn password_rows_alone_are_redacted_on_request() {
    let rows = vec![row("pw", "Password", "Secret", Some("hunter2")), row("n", "textbox", "Name", Some("Ada"))];
    let out = redact_passwords_only(&rows);
    assert_eq!(out[0].value.as_deref(), Some("\u{ab}redacted\u{bb}"));
    assert_eq!(out[1].value.as_deref(), Some("Ada"));
}
