//! Observe-only pixel capture for the app surface: the prefixed
//! "unavailable" error, the client path requirement, confinement of client
//! names under the host screenshot directory, and the argv for a capture of
//! exactly one window.

use vstd::prelude::*;

use crate::text::{
    chars_of, decimal, decimal_string, ends_with, has_tag, has_tag_exec, join, join_chars,
    push_chars, seq_eq, split_chars, split_on, string_of, tagged, tagged_string, trim,
    trim_bounds,
};

verus! {

/// Stable error prefix so agents can branch without parsing prose.
pub const SCREENSHOT_UNAVAILABLE: &'static str = "screenshot_unavailable";

/// `result.backend` when the PNG came from macOS `screencapture -l`.
pub const SCREENSHOT_BACKEND_SCREENCAPTURE: &'static str = "screencapture";

pub const SCREENSHOT_PATH_CONFINE_ERR: &'static str =
    "screenshot path must be a relative .png name under the host screenshot dir";

pub fn screenshot_unavailable(detail: &str) -> (r: String)
    ensures
        r@ == tagged(SCREENSHOT_UNAVAILABLE@, detail@),
{
    tagged_string(SCREENSHOT_UNAVAILABLE, detail)
}

pub fn is_screenshot_unavailable(error: &str) -> (r: bool)
    ensures
        r == has_tag(error@, SCREENSHOT_UNAVAILABLE@),
{
    has_tag_exec(error, SCREENSHOT_UNAVAILABLE)
}

/// Client-supplied destination, trimmed. Empty is a request error, not
/// "unavailable": the host never invents a path.
pub fn require_screenshot_path(path: Option<&str>) -> (r: Result<&str, String>)
    ensures
        match path {
            Some(p) if trim(p@).len() > 0 => r matches Ok(q) && q@ == trim(p@),
            _ => r matches Err(e) && e@ == "screenshot requires path"@,
        },
{
    match path {
        Some(p) => {
            let v = chars_of(p);
            let (a, b) = trim_bounds(&v);
            if a < b {
                Ok(p.substring_char(a, b))
            } else {
                Err("screenshot requires path".to_owned())
            }
        },
        None => Err("screenshot requires path".to_owned()),
    }
}

/// The path pieces that name something: empty pieces and `.` are dropped,
/// as `Path::components` does.
pub open spec fn kept(segs: Seq<Seq<char>>) -> Seq<Seq<char>>
    decreases segs.len(),
{
    if segs.len() == 0 {
        Seq::empty()
    } else {
        let p = kept(segs.drop_last());
        let g = segs.last();
        if g.len() == 0 || g == "."@ {
            p
        } else {
            p.push(g)
        }
    }
}

/// A piece that may not appear in a confined path: `..`, or a `~` home
/// reference.
pub open spec fn forbidden_piece(g: Seq<char>) -> bool {
    g == ".."@ || (g.len() > 0 && g[0] == '~')
}

pub open spec fn has_forbidden(segs: Seq<Seq<char>>) -> bool {
    exists|i: int| 0 <= i < segs.len() && forbidden_piece(#[trigger] segs[i])
}

/// `base.join(rel)` for a relative `rel`.
pub open spec fn join_base(base: Seq<char>, rel: Seq<char>) -> Seq<char> {
    if base.len() == 0 {
        rel
    } else if base.last() == '/' {
        base + rel
    } else {
        base + seq!['/'] + rel
    }
}

/// Where a client-named screenshot may be written, or why it may not.
pub open spec fn confine_spec(client: Seq<char>, base: Seq<char>) -> Result<Seq<char>, Seq<char>> {
    let t = trim(client);
    let segs = split_on(t, '/');
    let k = kept(segs);
    if t.len() == 0 {
        Err("screenshot requires path"@)
    } else if t[0] == '/' || has_forbidden(segs) {
        Err(SCREENSHOT_PATH_CONFINE_ERR@)
    } else if k.len() == 0 {
        Err("screenshot requires path"@)
    } else if !(ends_with(k.last(), ".png"@) && k.last().len() >= 5) {
        Err("screenshot path must end with .png"@)
    } else if k.last()[0] == '-' || k.last()[0] == '.' {
        Err("screenshot filename must not start with '-' or '.'"@)
    } else {
        Ok(join_base(base, join(k, seq!['/'])))
    }
}

proof fn lemma_kept_step(segs: Seq<Seq<char>>, i: int)
    requires
        0 <= i < segs.len(),
    ensures
        kept(segs.subrange(0, i + 1)) == (if segs[i].len() == 0 || segs[i] == "."@ {
            kept(segs.subrange(0, i))
        } else {
            kept(segs.subrange(0, i)).push(segs[i])
        }),
{
    let t = segs.subrange(0, i + 1);
    assert(t.drop_last() =~= segs.subrange(0, i));
}

/// Resolve `client` against `base`: relative `.png` names only, no `..`, no
/// `~`, no leading `-` or `.` on the file name.
pub fn confine_screenshot_path_in(client: &str, base: &str) -> (r: Result<String, String>)
    ensures
        match r {
            Ok(p) => confine_spec(client@, base@) == Ok::<Seq<char>, Seq<char>>(p@),
            Err(e) => confine_spec(client@, base@) == Err::<Seq<char>, Seq<char>>(e@),
        },
{
    let raw = chars_of(client);
    let t = crate::text::trim_chars(&raw);
    if t.len() == 0 {
        return Err("screenshot requires path".to_owned());
    }
    let segs = split_chars(&t, '/');
    let ghost gs = split_on(t@, '/');
    let dot = chars_of(".");
    let dotdot = chars_of("..");
    let mut keep: Vec<Vec<char>> = Vec::new();
    let mut bad = false;
    let mut i: usize = 0;
    while i < segs.len()
        invariant
            i <= segs.len(),
            segs@.len() == gs.len(),
            forall|j: int| 0 <= j < segs@.len() ==> #[trigger] segs@[j]@ == gs[j],
            dot@ == "."@,
            dotdot@ == ".."@,
            keep@.map_values(|p: Vec<char>| p@) == kept(gs.subrange(0, i as int)),
            bad == has_forbidden(gs.subrange(0, i as int)),
        decreases segs.len() - i,
    {
        proof {
            lemma_kept_step(gs, i as int);
        }
        let g = &segs[i];
        let is_dot = seq_eq(g, &dot);
        let is_dotdot = seq_eq(g, &dotdot);
        let tilde = g.len() > 0 && g[0] == '~';
        let ghost pre = gs.subrange(0, i as int);
        let ghost next = gs.subrange(0, i + 1);
        assert(next.drop_last() =~= pre);
        assert(next[i as int] == gs[i as int]);
        if is_dotdot || tilde {
            bad = true;
            assert(forbidden_piece(next[i as int]));
        } else {
            assert forall|j: int| 0 <= j < next.len() && forbidden_piece(#[trigger] next[j]) implies
                has_forbidden(pre) by {
                if j < i {
                    assert(pre[j] == next[j]);
                }
            }
        }
        if g.len() != 0 && !is_dot {
            let piece = g.clone();
            proof {
                assert(piece@ == g@);
            }
            keep.push(piece);
            assert(keep@.map_values(|p: Vec<char>| p@) =~= kept(pre).push(gs[i as int]));
        }
        i += 1;
    }
    assert(gs.subrange(0, segs.len() as int) =~= gs);
    if t[0] == '/' || bad {
        return Err(SCREENSHOT_PATH_CONFINE_ERR.to_owned());
    }
    if keep.len() == 0 {
        return Err("screenshot requires path".to_owned());
    }
    let last_idx: usize = keep.len() - 1;
    let file = &keep[last_idx];
    assert(file@ == kept(gs).last());
    let png = chars_of(".png");
    let mut ok_ext = file.len() >= 5;
    if ok_ext {
        let off: usize = file.len() - 4;
        let tail = crate::text::slice_chars(file, off, file.len());
        proof {
            reveal_strlit(".png");
        }
        ok_ext = seq_eq(&tail, &png);
    }
    proof {
        reveal_strlit(".png");
    }
    if !ok_ext {
        return Err("screenshot path must end with .png".to_owned());
    }
    if file[0] == '-' || file[0] == '.' {
        return Err("screenshot filename must not start with '-' or '.'".to_owned());
    }
    let rel = join_chars(&keep, '/');
    let b = chars_of(base);
    let mut dest = base.to_owned();
    if b.len() > 0 && b[b.len() - 1] != '/' {
        crate::text::push_char(&mut dest, '/');
    }
    push_chars(&mut dest, &rel);
    assert(ends_with(kept(gs).last(), ".png"@) && kept(gs).last().len() >= 5);
    assert(rel@ == join(kept(gs), seq!['/']));
    assert(dest@ =~= join_base(base@, rel@));
    Ok(dest)
}

/// Resolve a client screenshot name against the host's screenshot
/// directory `base` (the host reads it from its environment).
pub fn confine_screenshot_path(client: &str, base: &str) -> (r: Result<String, String>)
    ensures
        match r {
            Ok(p) => confine_spec(client@, base@) == Ok::<Seq<char>, Seq<char>>(p@),
            Err(e) => confine_spec(client@, base@) == Err::<Seq<char>, Seq<char>>(e@),
        },
{
    confine_screenshot_path_in(client, base)
}

/// A 1x1 transparent PNG for tests and mock hosts only; never a stand-in
/// for a real window capture.
pub const TEST_PNG: [u8; 67] = [
    0x89, 0x50, 0x4E, 0x47, 0x0D, 0x0A, 0x1A, 0x0A, 0x00, 0x00, 0x00, 0x0D, 0x49, 0x48, 0x44, 0x52,
    0x00, 0x00, 0x00, 0x01, 0x00, 0x00, 0x00, 0x01, 0x08, 0x06, 0x00, 0x00, 0x00, 0x1F, 0x15, 0xC4,
    0x89, 0x00, 0x00, 0x00, 0x0A, 0x49, 0x44, 0x41, 0x54, 0x78, 0x9C, 0x63, 0x00, 0x01, 0x00, 0x00,
    0x05, 0x00, 0x01, 0x0D, 0x0A, 0x2D, 0xB4, 0x00, 0x00, 0x00, 0x00, 0x49, 0x45, 0x4E, 0x44, 0xAE,
    0x42, 0x60, 0x82,
];

/// Argv for `screencapture` of one window: `-l<id>` glued together, `-o`,
/// `-x`, and the trimmed path as the single last slot.
pub fn screencapture_window_argv(window_id: u32, path: &str) -> (r: Result<Vec<String>, String>)
    ensures
        trim(path@).len() == 0 ==> (r matches Err(e) && e@ == "screenshot requires path"@),
        trim(path@).len() > 0 && window_id == 0 ==> (r matches Err(e) && e@ == tagged(
            SCREENSHOT_UNAVAILABLE@,
            "refusing screencapture without a CGWindowID (would not be this app window)"@,
        )),
        trim(path@).len() > 0 && window_id != 0 ==> (r matches Ok(v) && v@.len() == 4 && v@[0]@
            == "-l"@ + decimal(window_id as nat) && v@[1]@ == "-o"@ && v@[2]@ == "-x"@ && v@[3]@
            == trim(path@)),
{
    let p = match require_screenshot_path(Some(path)) {
        Ok(p) => p,
        Err(e) => return Err(e),
    };
    if window_id == 0 {
        return Err(
            screenshot_unavailable(
                "refusing screencapture without a CGWindowID (would not be this app window)",
            ),
        );
    }
    let digits = decimal_string(window_id as u64);
    let mut flag = "-l".to_owned();
    push_chars(&mut flag, &digits);
    let mut out: Vec<String> = Vec::new();
    out.push(flag);
    out.push("-o".to_owned());
    out.push("-x".to_owned());
    out.push(p.to_owned());
    Ok(out)
}


/// Bytes that start like a PNG file (`\x89PNG`).
pub open spec fn png_magic(b: Seq<u8>) -> bool {
    b.len() >= 4 && b[0] == 0x89u8 && b[1] == 0x50u8 && b[2] == 0x4Eu8 && b[3] == 0x47u8
}

/// What a host does with the file a capture tool was asked to write at
/// `path`, given how reading it back went: a PNG is kept; a missing file
/// or any other content is `screenshot_unavailable`, and a non-PNG file is
/// to be removed (no fake image is left behind).
pub fn written_png_verdict(path: &str, read: Result<Vec<u8>, String>) -> (r: Result<(), String>)
    ensures
        match read {
            Err(e) => r matches Err(m) && m@ == tagged(
                SCREENSHOT_UNAVAILABLE@,
                "screencapture produced no file at "@ + path@ + ": "@ + e@,
            ),
            Ok(b) => if png_magic(b@) {
                r is Ok
            } else {
                r matches Err(m) && m@ == tagged(
                    SCREENSHOT_UNAVAILABLE@,
                    "screencapture wrote a non-PNG at "@ + path@ + "; refusing to keep it"@,
                )
            },
        },
{
    match read {
        Err(e) => {
            let mut d = "screencapture produced no file at ".to_owned();
            d.append(path);
            d.append(": ");
            d.append(e.as_str());
            Err(screenshot_unavailable(d.as_str()))
        },
        Ok(b) => {
            if b.len() >= 4 && b[0] == 0x89u8 && b[1] == 0x50u8 && b[2] == 0x4Eu8 && b[3] == 0x47u8 {
                Ok(())
            } else {
                let mut d = "screencapture wrote a non-PNG at ".to_owned();
                d.append(path);
                d.append("; refusing to keep it");
                Err(screenshot_unavailable(d.as_str()))
            }
        },
    }
}

} // verus!
