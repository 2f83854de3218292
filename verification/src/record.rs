//! Observe-only recipe recording: where frames go, how they are named, the
//! row labels and colors that paint a semantic frame, and the manifest
//! written at the end. Writing the files is the host's part.

use vstd::prelude::*;

use crate::text::{
    chars_of, decimal, decimal_string, is_alnum, is_alnum_exec, lower, lower_seq, push_char,
    push_chars, str_eq, string_of, zero_padded, zero_padded_string,
};

verus! {

/// How `--record` is interpreted.
#[derive(Debug, Clone, Copy, PartialEq, Eq, Structural)]
pub enum RecordBackend {
    /// Snapshot the semantic tree after each step (works headless).
    Semantic,
    /// OS window capture: not done in-process, see [`os_record_help`].
    Os,
}

impl RecordBackend {
    /// `semantic` / `tree`, or `os` / `window`.
    pub fn parse(raw: &str) -> (r: Result<RecordBackend, String>)
        ensures
            match r {
                Ok(b) => (raw@ == "semantic"@ || raw@ == "tree"@) && b == RecordBackend::Semantic
                    || (raw@ == "os"@ || raw@ == "window"@) && b == RecordBackend::Os,
                Err(e) => raw@ != "semantic"@ && raw@ != "tree"@ && raw@ != "os"@ && raw@ != "window"@
                    && e@ == "unknown record backend `"@ + raw@ + "` (want semantic or os)"@,
            },
    {
        if str_eq(raw, "semantic") || str_eq(raw, "tree") {
            Ok(RecordBackend::Semantic)
        } else if str_eq(raw, "os") || str_eq(raw, "window") {
            Ok(RecordBackend::Os)
        } else {
            let mut e = "unknown record backend `".to_owned();
            e.append(raw);
            e.append("` (want semantic or os)");
            Err(e)
        }
    }
}

pub const OS_RECORD_HELP: &'static str = "record backend `os` is not in-process (no ScreenCaptureKit / ffmpeg crate, and this CLI never injects OS mouse/keyboard). On macOS, run scripts/record-window.sh alongside the desktop `todo` window (screencapture -l, observe-only). Headless/CI: omit --record-backend or use --record-backend semantic. See docs/RECORDING.md";

/// Error text for `--record-backend os`.
pub fn os_record_help() -> (r: &'static str)
    ensures
        r@ == OS_RECORD_HELP@,
{
    OS_RECORD_HELP
}

/// Where frames go, and an optional later mux target (`.mp4`).
#[derive(Debug, Clone, PartialEq, Eq)]
pub struct RecordTarget {
    pub dir: String,
    pub mux_target: Option<String>,
}

/// `Path::extension` of `path` (as UTF-8).
pub uninterp spec fn path_extension(path: Seq<char>) -> Option<Seq<char>>;

/// `PathBuf::set_extension(ext)` applied to `path`.
pub uninterp spec fn path_with_extension(path: Seq<char>, ext: Seq<char>) -> Seq<char>;

/// `Path::new(path).extension()`: the text after the last `.` of the file
/// name, unless the name has no `.` past its first character.
#[verifier::external_body]
fn extension_of(path: &str) -> (r: Option<String>)
    ensures
        match r {
            Some(e) => path_extension(path@) == Some(e@),
            None => path_extension(path@) is None,
        },
{
    std::path::Path::new(path).extension().and_then(|s| s.to_str()).map(|s| s.to_owned())
}

/// An extension `PathBuf::set_extension` takes without panicking: no path
/// separator in it.
pub open spec fn no_separator(ext: Seq<char>) -> bool {
    forall|i: int| 0 <= i < ext.len() ==> #[trigger] ext[i] != '/' && ext[i] != '\\'
}

/// `PathBuf::set_extension`: the file name's extension replaced by `ext`.
#[verifier::external_body]
fn with_extension(path: &str, ext: &str) -> (r: String)
    requires
        no_separator(ext@),
    ensures
        r@ == path_with_extension(path@, ext@),
{
    let mut p = std::path::PathBuf::from(path);
    p.set_extension(ext);
    p.to_string_lossy().into_owned()
}

/// A video file name whose frames go to a sibling directory.
pub open spec fn is_video_ext(ext: Seq<char>) -> bool {
    ext == "mp4"@ || ext == "gif"@ || ext == "webm"@ || ext == "mov"@
}

/// Where `--record PATH` puts its frames: a video extension (`.mp4`,
/// `.gif`, `.webm`, `.mov`, any case) records into `PATH` with
/// `.{ext}.frames` as extension and keeps `PATH` as the mux target;
/// anything else is the frames directory itself.
pub open spec fn record_target_spec(path: Seq<char>) -> (Seq<char>, Option<Seq<char>>) {
    let ext = match path_extension(path) {
        Some(e) => lower(e),
        None => Seq::empty(),
    };
    if is_video_ext(ext) {
        (path_with_extension(path, ext + ".frames"@), Some(path))
    } else {
        (path, None)
    }
}

fn is_video_ext_exec(ext: &Vec<char>) -> (r: bool)
    ensures
        r == is_video_ext(ext@),
{
    crate::protocol::eq_lit(ext, "mp4") || crate::protocol::eq_lit(ext, "gif") || crate::protocol::eq_lit(ext, "webm")
        || crate::protocol::eq_lit(ext, "mov")
}

/// Map `--record PATH` to a frames directory and an optional mux target.
pub fn resolve_record_target(path: &str) -> (r: RecordTarget)
    ensures
        (r.dir@, match r.mux_target {
            Some(m) => Some(m@),
            None => None,
        }) == record_target_spec(path@),
{
    let ext = match extension_of(path) {
        Some(e) => lower_seq(&chars_of(e.as_str())),
        None => Vec::new(),
    };
    if is_video_ext_exec(&ext) {
        let mut new_ext = string_of(ext.as_slice());
        new_ext.append(".frames");
        proof {
            reveal_strlit("mp4");
            reveal_strlit("gif");
            reveal_strlit("webm");
            reveal_strlit("mov");
            reveal_strlit(".frames");
            assert(no_separator(ext@));
            assert(no_separator(".frames"@));
            assert forall|i: int| 0 <= i < new_ext@.len() implies #[trigger] new_ext@[i] != '/' && new_ext@[i] != '\\' by {
                if i < ext@.len() {
                    assert(new_ext@[i] == ext@[i]);
                } else {
                    assert(new_ext@[i] == ".frames"@[i - ext@.len()]);
                }
            }
        }
        RecordTarget { dir: with_extension(path, new_ext.as_str()), mux_target: Some(path.to_owned()) }
    } else {
        RecordTarget { dir: path.to_owned(), mux_target: None }
    }
}

/// A character kept in a file name built from a step id.
pub open spec fn safe_char(c: char) -> bool {
    is_alnum(c) || c == '-' || c == '_'
}

/// Each unsafe character of `id` becomes `_`.
pub open spec fn sanitized(id: Seq<char>) -> Seq<char> {
    Seq::new(id.len(), |i: int| if safe_char(id[i]) { id[i] } else { '_' })
}

pub fn sanitize_chars(id: &str) -> (r: Vec<char>)
    ensures
        r@ == sanitized(id@),
{
    let v = chars_of(id);
    let mut out: Vec<char> = Vec::new();
    let mut i: usize = 0;
    while i < v.len()
        invariant
            i <= v.len(),
            v@ == id@,
            out@ == Seq::new(i as nat, |k: int| if safe_char(v@[k]) { v@[k] } else { '_' }),
        decreases v.len() - i,
    {
        let c = v[i];
        out.push(if is_alnum_exec(c) || c == '-' || c == '_' { c } else { '_' });
        i += 1;
        assert(out@ =~= Seq::new(i as nat, |k: int| if safe_char(v@[k]) { v@[k] } else { '_' }));
    }
    out
}

/// A step id as a file-name stem: unsafe characters become `_`, and an
/// empty id becomes `_`.
pub fn sanitize_step_id(id: &str) -> (r: String)
    ensures
        r@ == if id@.len() == 0 { seq!['_'] } else { sanitized(id@) },
{
    let out = sanitize_chars(id);
    if out.len() == 0 {
        let mut s = String::new();
        push_char(&mut s, '_');
        return s;
    }
    string_of(out.as_slice())
}

/// `{id}  {role}  {name}`, then `  value=..` and `  checked` /
/// `  unchecked` when present.
pub open spec fn row_label_spec(
    id: Seq<char>,
    role: Seq<char>,
    name: Seq<char>,
    value: Option<Seq<char>>,
    checked: Option<bool>,
) -> Seq<char> {
    let base = id + "  "@ + role + "  "@ + name;
    let with_value = match value {
        Some(v) => base + "  value="@ + v,
        None => base,
    };
    match checked {
        Some(true) => with_value + "  checked"@,
        Some(false) => with_value + "  unchecked"@,
        None => with_value,
    }
}

/// The text of one row of a semantic frame.
pub fn row_label(id: &str, role: &str, name: &str, value: Option<&str>, checked: Option<bool>) -> (r: String)
    ensures
        r@ == row_label_spec(id@, role@, name@, match value {
            Some(v) => Some(v@),
            None => None,
        }, checked),
{
    let mut s = id.to_owned();
    s.append("  ");
    s.append(role);
    s.append("  ");
    s.append(name);
    if let Some(v) = value {
        s.append("  value=");
        s.append(v);
    }
    if let Some(c) = checked {
        s.append(if c { "  checked" } else { "  unchecked" });
    }
    s
}

/// The bar color of a row's role in the SVG frame.
pub open spec fn role_color_spec(role: Seq<char>) -> Seq<char> {
    if role == "button"@ {
        "#38bdf8"@
    } else if role == "textbox"@ || role == "input"@ {
        "#a78bfa"@
    } else if role == "checkbox"@ || role == "switch"@ {
        "#34d399"@
    } else if role == "window"@ {
        "#fbbf24"@
    } else {
        "#64748b"@
    }
}

pub fn role_color(role: &str) -> (r: &'static str)
    ensures
        r@ == role_color_spec(role@),
{
    if str_eq(role, "button") {
        "#38bdf8"
    } else if str_eq(role, "textbox") || str_eq(role, "input") {
        "#a78bfa"
    } else if str_eq(role, "checkbox") || str_eq(role, "switch") {
        "#34d399"
    } else if str_eq(role, "window") {
        "#fbbf24"
    } else {
        "#64748b"
    }
}

/// The pixel color of a row in the PPM frame; a checked row is green.
pub open spec fn role_rgb_spec(role: Seq<char>, checked: Option<bool>) -> [u8; 3] {
    if checked == Some(true) {
        [52u8, 211u8, 153u8]
    } else if role == "button"@ {
        [56u8, 189u8, 248u8]
    } else if role == "textbox"@ || role == "input"@ {
        [167u8, 139u8, 250u8]
    } else if role == "checkbox"@ || role == "switch"@ {
        [52u8, 211u8, 153u8]
    } else if role == "window"@ {
        [251u8, 191u8, 36u8]
    } else {
        [100u8, 116u8, 139u8]
    }
}

pub fn role_rgb(role: &str, checked: Option<bool>) -> (r: [u8; 3])
    ensures
        r == role_rgb_spec(role@, checked),
{
    if checked == Some(true) {
        return [52, 211, 153];
    }
    if str_eq(role, "button") {
        [56, 189, 248]
    } else if str_eq(role, "textbox") || str_eq(role, "input") {
        [167, 139, 250]
    } else if str_eq(role, "checkbox") || str_eq(role, "switch") {
        [52, 211, 153]
    } else if str_eq(role, "window") {
        [251, 191, 36]
    } else {
        [100, 116, 139]
    }
}

/// The XML escape of one character.
pub open spec fn xml_char(c: char) -> Seq<char> {
    if c == '&' {
        "&amp;"@
    } else if c == '<' {
        "&lt;"@
    } else if c == '>' {
        "&gt;"@
    } else if c == '"' {
        "&quot;"@
    } else if c == '\'' {
        "&apos;"@
    } else {
        seq![c]
    }
}

/// `s` with `& < > " '` escaped for XML text and attributes.
pub open spec fn escape_xml_spec(s: Seq<char>) -> Seq<char>
    decreases s.len(),
{
    if s.len() == 0 {
        Seq::empty()
    } else {
        escape_xml_spec(s.drop_last()) + xml_char(s.last())
    }
}

pub fn escape_xml(s: &str) -> (r: String)
    ensures
        r@ == escape_xml_spec(s@),
{
    let v = chars_of(s);
    let mut out = String::new();
    let mut i: usize = 0;
    while i < v.len()
        invariant
            i <= v.len(),
            v@ == s@,
            out@ == escape_xml_spec(v@.subrange(0, i as int)),
        decreases v.len() - i,
    {
        let c = v[i];
        let ghost pre = v@.subrange(0, i as int);
        assert(v@.subrange(0, i + 1).drop_last() =~= pre);
        if c == '&' {
            out.append("&amp;");
        } else if c == '<' {
            out.append("&lt;");
        } else if c == '>' {
            out.append("&gt;");
        } else if c == '"' {
            out.append("&quot;");
        } else if c == '\'' {
            out.append("&apos;");
        } else {
            push_char(&mut out, c);
        }
        i += 1;
    }
    assert(v@.subrange(0, v.len() as int) =~= v@);
    out
}

// ---------------------------------------------------------------------------
// Frames: rows of a snapshot, painted as SVG or PPM
// ---------------------------------------------------------------------------

/// One node of a snapshot as a frame shows it, depth-first.
#[derive(Debug, Clone)]
pub struct FrameRow {
    pub id: String,
    pub role: String,
    pub name: String,
    pub value: Option<String>,
    pub checked: Option<bool>,
}

pub struct FrameRowView {
    pub id: Seq<char>,
    pub role: Seq<char>,
    pub name: Seq<char>,
    pub value: Option<Seq<char>>,
    pub checked: Option<bool>,
}

impl View for FrameRow {
    type V = FrameRowView;

    open spec fn view(&self) -> FrameRowView {
        FrameRowView {
            id: self.id@,
            role: self.role@,
            name: self.name@,
            value: match self.value {
                Some(v) => Some(v@),
                None => None,
            },
            checked: self.checked,
        }
    }
}

pub open spec fn frame_rows_view(v: Seq<FrameRow>) -> Seq<FrameRowView> {
    Seq::new(v.len(), |i: int| v[i]@)
}

pub open spec fn redacted_spec() -> Seq<char> {
    "\u{ab}redacted\u{bb}"@
}

/// `r` with its value, if it has one, replaced by `«redacted»` when `hide`.
pub open spec fn redact_row(r: FrameRowView, hide: bool) -> FrameRowView {
    FrameRowView {
        value: if hide && r.value is Some {
            Some(redacted_spec())
        } else {
            r.value
        },
        ..r
    }
}

fn redact_where(rows: &Vec<FrameRow>, passwords_only: bool) -> (r: Vec<FrameRow>)
    ensures
        r@.len() == rows@.len(),
        forall|i: int|
            0 <= i < rows@.len() ==> (#[trigger] r@[i])@ == redact_row(
                rows@[i]@,
                !passwords_only || lower(rows@[i].role@) == "password"@,
            ),
{
    let mut out: Vec<FrameRow> = Vec::new();
    let mut i: usize = 0;
    while i < rows.len()
        invariant
            i <= rows@.len(),
            out@.len() == i,
            forall|k: int|
                0 <= k < i ==> (#[trigger] out@[k])@ == redact_row(
                    rows@[k]@,
                    !passwords_only || lower(rows@[k].role@) == "password"@,
                ),
        decreases rows.len() - i,
    {
        let row = &rows[i];
        let hide = if passwords_only {
            let l = lower_seq(&chars_of(row.role.as_str()));
            crate::protocol::eq_lit(&l, "password")
        } else {
            true
        };
        let value = match &row.value {
            Some(v) => if hide {
                Some("\u{ab}redacted\u{bb}".to_owned())
            } else {
                Some(v.clone())
            },
            None => None,
        };
        out.push(FrameRow {
            id: row.id.clone(),
            role: row.role.clone(),
            name: row.name.clone(),
            value,
            checked: row.checked,
        });
        i += 1;
    }
    out
}

/// Every value replaced by `«redacted»` (the default for recordings).
pub fn redact_values(rows: &Vec<FrameRow>) -> (r: Vec<FrameRow>)
    ensures
        r@.len() == rows@.len(),
        forall|i: int| 0 <= i < rows@.len() ==> (#[trigger] r@[i])@ == redact_row(rows@[i]@, true),
{
    redact_where(rows, false)
}

/// Only the values of `password` rows (in any case) replaced.
pub fn redact_passwords_only(rows: &Vec<FrameRow>) -> (r: Vec<FrameRow>)
    ensures
        r@.len() == rows@.len(),
        forall|i: int|
            0 <= i < rows@.len() ==> (#[trigger] r@[i])@ == redact_row(rows@[i]@, lower(rows@[i].role@) == "password"@),
{
    redact_where(rows, true)
}

pub open spec fn svg_height(n: nat) -> nat {
    if n * 28 + 48 > 80 {
        n * 28 + 48
    } else {
        80
    }
}

pub open spec fn svg_header(n: nat, step_id: Seq<char>, ok: bool) -> Seq<char> {
    "<svg xmlns=\"http://www.w3.org/2000/svg\" width=\"640\" height=\""@ + decimal(svg_height(n))
        + "\" viewBox=\"0 0 640 "@ + decimal(svg_height(n))
        + "\">\n<rect width=\"100%\" height=\"100%\" fill=\""@ + (if ok {
        "#0f172a"@
    } else {
        "#3f1d1d"@
    }) + "\"/>\n<text x=\"12\" y=\"22\" fill=\"#e2e8f0\" font-family=\"monospace\" font-size=\"14\">step "@
        + escape_xml_spec(step_id) + " ("@ + (if ok {
        "ok"@
    } else {
        "fail"@
    }) + ")</text>\n"@
}

/// Row `i`: a role-colored bar and the escaped label, 28 pixels apart.
pub open spec fn svg_row(i: nat, r: FrameRowView) -> Seq<char> {
    "<rect x=\"12\" y=\""@ + decimal(40 + i * 28) + "\" width=\"8\" height=\"22\" fill=\""@ + role_color_spec(r.role)
        + "\"/>\n<text x=\"28\" y=\""@ + decimal(40 + i * 28 + 16)
        + "\" fill=\"#cbd5e1\" font-family=\"monospace\" font-size=\"12\">"@ + escape_xml_spec(
        row_label_spec(r.id, r.role, r.name, r.value, r.checked),
    ) + "</text>\n"@
}

pub open spec fn svg_rows(rows: Seq<FrameRowView>) -> Seq<char>
    decreases rows.len(),
{
    if rows.len() == 0 {
        Seq::empty()
    } else {
        svg_rows(rows.drop_last()) + svg_row((rows.len() - 1) as nat, rows.last())
    }
}

/// The SVG frame of a step: a header with the step id and outcome, one
/// line per row, a note when there was no snapshot.
pub open spec fn svg_spec(rows: Seq<FrameRowView>, step_id: Seq<char>, ok: bool) -> Seq<char> {
    svg_header(rows.len(), step_id, ok) + svg_rows(rows) + (if rows.len() == 0 {
        "<text x=\"12\" y=\"56\" fill=\"#94a3b8\" font-family=\"monospace\" font-size=\"12\">(no snapshot)</text>\n"@
    } else {
        Seq::empty()
    }) + "</svg>\n"@
}

/// Paint a step's rows as an SVG frame. The sizes are 32-bit numbers.
pub fn tree_to_svg(rows: &Vec<FrameRow>, step_id: &str, step_ok: bool) -> (r: String)
    requires
        rows@.len() * 28 + 48 <= u32::MAX,
    ensures
        r@ == svg_spec(frame_rows_view(rows@), step_id@, step_ok),
{
    let ghost rv = frame_rows_view(rows@);
    let n = rows.len() as u64;
    let height: u64 = if n * 28 + 48 > 80 {
        n * 28 + 48
    } else {
        80
    };
    let hd = decimal_string(height);
    let mut out = "<svg xmlns=\"http://www.w3.org/2000/svg\" width=\"640\" height=\"".to_owned();
    push_chars(&mut out, &hd);
    out.append("\" viewBox=\"0 0 640 ");
    push_chars(&mut out, &hd);
    out.append("\">\n<rect width=\"100%\" height=\"100%\" fill=\"");
    out.append(if step_ok {
        "#0f172a"
    } else {
        "#3f1d1d"
    });
    out.append("\"/>\n<text x=\"12\" y=\"22\" fill=\"#e2e8f0\" font-family=\"monospace\" font-size=\"14\">step ");
    out.append(escape_xml(step_id).as_str());
    out.append(" (");
    out.append(if step_ok {
        "ok"
    } else {
        "fail"
    });
    out.append(")</text>\n");
    assert(out@ == svg_header(rv.len(), step_id@, step_ok));
    let ghost head = out@;
    let mut i: usize = 0;
    while i < rows.len()
        invariant
            i <= rows@.len(),
            rows@.len() * 28 + 48 <= u32::MAX,
            rv == frame_rows_view(rows@),
            out@ == head + svg_rows(rv.subrange(0, i as int)),
        decreases rows.len() - i,
    {
        let row = &rows[i];
        let y = 40 + i as u64 * 28;
        let ghost pre = out@;
        out.append("<rect x=\"12\" y=\"");
        push_chars(&mut out, &decimal_string(y));
        out.append("\" width=\"8\" height=\"22\" fill=\"");
        out.append(role_color(row.role.as_str()));
        out.append("\"/>\n<text x=\"28\" y=\"");
        push_chars(&mut out, &decimal_string(y + 16));
        out.append("\" fill=\"#cbd5e1\" font-family=\"monospace\" font-size=\"12\">");
        let value = match &row.value {
            Some(v) => Some(v.as_str()),
            None => None,
        };
        let label = row_label(row.id.as_str(), row.role.as_str(), row.name.as_str(), value, row.checked);
        out.append(escape_xml(label.as_str()).as_str());
        out.append("</text>\n");
        proof {
            let sub = rv.subrange(0, i + 1);
            assert(sub.drop_last() =~= rv.subrange(0, i as int));
            assert(sub.last() == rows@[i as int]@);
            assert(out@ =~= pre + svg_row(i as nat, rows@[i as int]@));
        }
        i += 1;
    }
    assert(rv.subrange(0, rows@.len() as int) =~= rv);
    if rows.len() == 0 {
        out.append(
            "<text x=\"12\" y=\"56\" fill=\"#94a3b8\" font-family=\"monospace\" font-size=\"12\">(no snapshot)</text>\n",
        );
    }
    out.append("</svg>\n");
    out
}

pub open spec fn ppm_height(n: nat) -> nat {
    if n * 8 + 8 > 16 {
        n * 8 + 8
    } else {
        16
    }
}

pub open spec fn ppm_bg(ok: bool) -> [u8; 3] {
    if ok {
        [15u8, 23u8, 42u8]
    } else {
        [63u8, 29u8, 29u8]
    }
}

/// The row painted on line `y` of an `n`-row frame: row `i` covers the
/// seven lines from `4 + 8 * i`.
pub open spec fn ppm_row_at(n: nat, y: int) -> Option<int> {
    if y >= 4 && (y - 4) % 8 < 7 && (y - 4) / 8 < n {
        Some((y - 4) / 8)
    } else {
        None
    }
}

/// The color at line `y`, column `x` (a 4-pixel margin on the sides).
pub open spec fn ppm_pixel(rows: Seq<FrameRowView>, ok: bool, y: int, x: int) -> [u8; 3] {
    match ppm_row_at(rows.len(), y) {
        Some(i) => if 4 <= x < 156 {
            role_rgb_spec(rows[i].role, rows[i].checked)
        } else {
            ppm_bg(ok)
        },
        None => ppm_bg(ok),
    }
}

/// Line `y`: 160 pixels of three bytes.
pub open spec fn ppm_line(rows: Seq<FrameRowView>, ok: bool, y: int) -> Seq<u8> {
    Seq::new(480, |j: int| ppm_pixel(rows, ok, y, j / 3)[j % 3])
}

pub open spec fn ppm_lines(rows: Seq<FrameRowView>, ok: bool, n: nat) -> Seq<u8>
    decreases n,
{
    if n == 0 {
        Seq::empty()
    } else {
        ppm_lines(rows, ok, (n - 1) as nat) + ppm_line(rows, ok, n - 1)
    }
}

pub open spec fn ascii_bytes(s: Seq<char>) -> Seq<u8> {
    Seq::new(s.len(), |i: int| s[i] as u8)
}

/// The binary PPM (`P6`) frame of a step: 160 pixels wide, one colored
/// bar per row on a background that shows the outcome.
pub open spec fn ppm_spec(rows: Seq<FrameRowView>, ok: bool) -> Seq<u8> {
    ascii_bytes("P6\n160 "@ + decimal(ppm_height(rows.len())) + "\n255\n"@) + ppm_lines(
        rows,
        ok,
        ppm_height(rows.len()),
    )
}

fn push_ascii(out: &mut Vec<u8>, s: &Vec<char>)
    ensures
        final(out)@ == old(out)@ + ascii_bytes(s@),
{
    let ghost start = out@;
    let mut i: usize = 0;
    while i < s.len()
        invariant
            i <= s@.len(),
            out@ == start + ascii_bytes(s@.subrange(0, i as int)),
        decreases s.len() - i,
    {
        let c = s[i];
        #[verifier::truncate]
        let b = c as u8;
        out.push(b);
        assert(ascii_bytes(s@.subrange(0, i + 1)) =~= ascii_bytes(s@.subrange(0, i as int)).push(s@[i as int] as u8));
        i += 1;
    }
    assert(s@.subrange(0, s@.len() as int) =~= s@);
}

fn ppm_color(rows: &Vec<FrameRow>, ok: bool, y: u64, x: u64) -> (r: [u8; 3])
    requires
        rows@.len() * 8 + 8 <= u32::MAX,
    ensures
        r == ppm_pixel(frame_rows_view(rows@), ok, y as int, x as int),
{
    let bg: [u8; 3] = if ok {
        [15, 23, 42]
    } else {
        [63, 29, 29]
    };
    if y >= 4 && (y - 4) % 8 < 7 && (y - 4) / 8 < rows.len() as u64 && 4 <= x && x < 156 {
        let i = ((y - 4) / 8) as usize;
        role_rgb(rows[i].role.as_str(), rows[i].checked)
    } else {
        bg
    }
}

/// Paint a step's rows as a binary PPM frame. The sizes are 32-bit numbers.
pub fn tree_to_ppm(rows: &Vec<FrameRow>, step_ok: bool) -> (r: Vec<u8>)
    requires
        480 * ppm_height(rows@.len()) <= u32::MAX,
    ensures
        r@ == ppm_spec(frame_rows_view(rows@), step_ok),
{
    let ghost rv = frame_rows_view(rows@);
    let n = rows.len() as u64;
    let height: u64 = if n * 8 + 8 > 16 {
        n * 8 + 8
    } else {
        16
    };
    let mut header: Vec<char> = Vec::new();
    header.push('P');
    header.push('6');
    header.push('\n');
    header.push('1');
    header.push('6');
    header.push('0');
    header.push(' ');
    let hd = decimal_string(height);
    let mut k: usize = 0;
    while k < hd.len()
        invariant
            k <= hd@.len(),
            header@ == seq!['P', '6', '\n', '1', '6', '0', ' '] + hd@.subrange(0, k as int),
        decreases hd.len() - k,
    {
        header.push(hd[k]);
        k += 1;
        assert(header@ =~= seq!['P', '6', '\n', '1', '6', '0', ' '] + hd@.subrange(0, k as int));
    }
    header.push('\n');
    header.push('2');
    header.push('5');
    header.push('5');
    header.push('\n');
    proof {
        reveal_strlit("P6\n160 ");
        reveal_strlit("\n255\n");
        assert(hd@.subrange(0, hd@.len() as int) =~= hd@);
        assert(header@ =~= "P6\n160 "@ + decimal(ppm_height(rv.len())) + "\n255\n"@);
    }
    let mut out: Vec<u8> = Vec::new();
    push_ascii(&mut out, &header);
    let ghost head = out@;
    let mut y: u64 = 0;
    while y < height
        invariant
            y <= height,
            height == ppm_height(rv.len()),
            480 * height <= u32::MAX,
            rows@.len() * 8 + 8 <= u32::MAX,
            rv == frame_rows_view(rows@),
            out@ == head + ppm_lines(rv, step_ok, y as nat),
        decreases height - y,
    {
        let ghost line_start = out@;
        let mut x: u64 = 0;
        while x < 160
            invariant
                x <= 160,
                y < height,
                rows@.len() * 8 + 8 <= u32::MAX,
                rv == frame_rows_view(rows@),
                out@ == line_start + ppm_line(rv, step_ok, y as int).subrange(0, 3 * x as int),
            decreases 160 - x,
        {
            let c = ppm_color(rows, step_ok, y, x);
            out.push(c[0]);
            out.push(c[1]);
            out.push(c[2]);
            proof {
                let line = ppm_line(rv, step_ok, y as int);
                assert((3 * x + 0) / 3 == x && (3 * x + 0) % 3 == 0) by (nonlinear_arith);
                assert((3 * x + 1) / 3 == x && (3 * x + 1) % 3 == 1) by (nonlinear_arith);
                assert((3 * x + 2) / 3 == x && (3 * x + 2) % 3 == 2) by (nonlinear_arith);
                assert(line[3 * x as int] == c[0]);
                assert(line[3 * x + 1] == c[1]);
                assert(line[3 * x + 2] == c[2]);
                assert(out@ =~= line_start + line.subrange(0, 3 * (x + 1) as int));
            }
            x += 1;
        }
        proof {
            assert(ppm_line(rv, step_ok, y as int).subrange(0, 480) =~= ppm_line(rv, step_ok, y as int));
        }
        y += 1;
    }
    out
}

/// Names and outcome of one recorded frame.
#[derive(Debug, Clone)]
pub struct RecordFrameMeta {
    pub index: u32,
    pub step_id: String,
    pub ok: bool,
    pub svg: String,
    pub ppm: String,
}

/// The frame list and mux hint saved when a recorded run ends.
#[derive(Debug, Clone)]
pub struct RecordManifest {
    pub backend: &'static str,
    pub recipe: String,
    pub fingerprint: String,
    pub include_values: bool,
    pub frames: Vec<RecordFrameMeta>,
    pub mux_target: Option<String>,
    pub mux_hint: String,
}

/// `{index:04}-{sanitized step id}`: the stem of a frame's files.
pub open spec fn frame_stem(index: u32, step_id: Seq<char>) -> Seq<char> {
    zero_padded(index as nat, 4) + "-"@ + if step_id.len() == 0 { seq!['_'] } else { sanitized(step_id) }
}

/// A [`SemanticRecorder`] as plain values.
pub struct RecorderState {
    pub dir: Seq<char>,
    pub include_values: bool,
    pub mux_target: Option<Seq<char>>,
    pub recipe: Seq<char>,
    pub fingerprint: Seq<char>,
    pub frames: nat,
}

pub open spec fn opt_view(o: Option<String>) -> Option<Seq<char>> {
    match o {
        Some(s) => Some(s@),
        None => None,
    }
}

/// The state of a semantic recording: one SVG + PPM per step.
pub struct SemanticRecorder {
    dir: String,
    include_values: bool,
    mux_target: Option<String>,
    recipe: String,
    fingerprint: String,
    frames: Vec<RecordFrameMeta>,
}

impl SemanticRecorder {
    pub closed spec fn state(&self) -> RecorderState {
        RecorderState {
            dir: self.dir@,
            include_values: self.include_values,
            mux_target: opt_view(self.mux_target),
            recipe: self.recipe@,
            fingerprint: self.fingerprint@,
            frames: self.frames@.len(),
        }
    }

    /// A recorder for `target`; the host has created the directory.
    pub fn new(target: RecordTarget, include_values: bool) -> (r: Self)
        ensures
            r.state() == (RecorderState {
                dir: target.dir@,
                include_values,
                mux_target: opt_view(target.mux_target),
                recipe: Seq::empty(),
                fingerprint: Seq::empty(),
                frames: 0,
            }),
    {
        let r = SemanticRecorder {
            dir: target.dir,
            include_values,
            mux_target: target.mux_target,
            recipe: String::new(),
            fingerprint: String::new(),
            frames: Vec::new(),
        };
        r
    }

    /// Where the frames go.
    pub fn dir(&self) -> (r: &str)
        ensures
            r@ == self.state().dir,
    {
        self.dir.as_str()
    }

    /// Remember the plan being recorded.
    pub fn start(&mut self, recipe: &str, fingerprint: &str)
        ensures
            final(self).state() == (RecorderState { recipe: recipe@, fingerprint: fingerprint@, ..old(self).state() }),
    {
        self.recipe = recipe.to_owned();
        self.fingerprint = fingerprint.to_owned();
    }

    /// Add the frame of step `step_id` and name its files
    /// `{index:04}-{sanitized}.svg` / `.ppm`.
    pub fn add_frame(&mut self, index: u32, step_id: &str, ok: bool) -> (r: RecordFrameMeta)
        ensures
            r.svg@ == frame_stem(index, step_id@) + ".svg"@,
            r.ppm@ == frame_stem(index, step_id@) + ".ppm"@,
            r.index == index,
            r.step_id@ == step_id@,
            r.ok == ok,
            final(self).state() == (RecorderState { frames: old(self).state().frames + 1, ..old(self).state() }),
    {
        let mut stem = string_of(zero_padded_string(index as u64, 4).as_slice());
        stem.append("-");
        stem.append(sanitize_step_id(step_id).as_str());
        let mut svg = stem.clone();
        svg.append(".svg");
        let mut ppm = stem;
        ppm.append(".ppm");
        let meta = RecordFrameMeta { index, step_id: step_id.to_owned(), ok, svg, ppm };
        let out = RecordFrameMeta {
            index,
            step_id: meta.step_id.clone(),
            ok,
            svg: meta.svg.clone(),
            ppm: meta.ppm.clone(),
        };
        self.frames.push(meta);
        out
    }

    /// The manifest for the end of the run: the plan's fingerprint, or the
    /// receipt's when the plan gave none, and an `ffmpeg` hint for muxing.
    pub fn manifest(&self, receipt_fingerprint: &str) -> (r: RecordManifest)
        ensures
            r.backend@ == "semantic"@,
            r.include_values == self.state().include_values,
            r.recipe@ == self.state().recipe,
            r.fingerprint@ == if self.state().fingerprint.len() == 0 {
                receipt_fingerprint@
            } else {
                self.state().fingerprint
            },
            r.frames@.len() == self.state().frames,
            opt_view(r.mux_target) == self.state().mux_target,
            r.mux_hint@ == match self.state().mux_target {
                Some(out) => "ffmpeg -y -framerate 2 -i "@ + self.state().dir + "/%04d-*.ppm "@ + out,
                None => "ffmpeg -y -framerate 2 -pattern_type glob -i '"@ + self.state().dir + "/*.ppm' "@
                    + self.state().dir + "/recipe-run.mp4"@,
            },
    {
        let mux_hint = match &self.mux_target {
            Some(out) => {
                let mut h = "ffmpeg -y -framerate 2 -i ".to_owned();
                h.append(self.dir.as_str());
                h.append("/%04d-*.ppm ");
                h.append(out.as_str());
                h
            },
            None => {
                let mut h = "ffmpeg -y -framerate 2 -pattern_type glob -i '".to_owned();
                h.append(self.dir.as_str());
                h.append("/*.ppm' ");
                h.append(self.dir.as_str());
                h.append("/recipe-run.mp4");
                h
            },
        };
        let fingerprint = if self.fingerprint.as_str().is_empty() {
            receipt_fingerprint.to_owned()
        } else {
            self.fingerprint.clone()
        };
        let mux_target = match &self.mux_target {
            Some(m) => Some(m.clone()),
            None => None,
        };
        let mut frames: Vec<RecordFrameMeta> = Vec::new();
        let mut i: usize = 0;
        while i < self.frames.len()
            invariant
                i <= self.frames.len(),
                frames@.len() == i,
            decreases self.frames.len() - i,
        {
            let f = &self.frames[i];
            frames.push(RecordFrameMeta {
                index: f.index,
                step_id: f.step_id.clone(),
                ok: f.ok,
                svg: f.svg.clone(),
                ppm: f.ppm.clone(),
            });
            i += 1;
        }
        RecordManifest {
            backend: "semantic",
            recipe: self.recipe.clone(),
            fingerprint,
            include_values: self.include_values,
            frames,
            mux_target,
            mux_hint,
        }
    }
}

} // verus!
