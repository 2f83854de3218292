//! Planning for the optional `virtual` delivery mode: which keystroke
//! tokens a `key` or `type` op becomes. Modifier chords are refused here;
//! they belong to the allow-listed `keybinding` op.

use vstd::prelude::*;

use crate::text::{
    chars_of, contains_char_exec, lower, lower_char, lower_seq, push_chars, starts_with, starts_with_exec,
    string_of, tagged, tagged_string, trim, trim_chars,
};

verus! {

/// Stable error prefix so agents can branch without parsing prose.
pub const VIRTUAL_UNAVAILABLE: &'static str = "virtual_unavailable";

pub fn virtual_unavailable(detail: &str) -> (r: String)
    ensures
        r@ == tagged(VIRTUAL_UNAVAILABLE@, detail@),
{
    tagged_string(VIRTUAL_UNAVAILABLE, detail)
}

/// A key name that carries a modifier or a chord separator.
pub open spec fn looks_like_modifier_chord_spec(key: Seq<char>) -> bool {
    let l = lower(key);
    ||| exists|i: int| 0 <= i < l.len() && l[i] == '-'
    ||| starts_with(l, "cmd"@)
    ||| starts_with(l, "ctrl"@)
    ||| starts_with(l, "alt"@)
    ||| starts_with(l, "shift"@)
    ||| starts_with(l, "super"@)
    ||| starts_with(l, "meta"@)
    ||| starts_with(l, "win"@)
}

/// The keystroke token a protocol `key` name maps to.
pub open spec fn keystroke_spec(key: Seq<char>) -> Result<Seq<char>, Seq<char>> {
    let t = trim(key);
    let l = lower(t);
    if t.len() == 0 {
        Err(tagged(VIRTUAL_UNAVAILABLE@, "empty key"@))
    } else if looks_like_modifier_chord_spec(t) {
        Err(
            tagged(
                VIRTUAL_UNAVAILABLE@,
                "modifiers are not allowed on free-form key `"@ + t + "`; use op keybinding"@,
            ),
        )
    } else if l == "enter"@ || l == "return"@ {
        Ok("enter"@)
    } else if l == "backspace"@ {
        Ok("backspace"@)
    } else if l == "tab"@ {
        Ok("tab"@)
    } else if l == "escape"@ || l == "esc"@ {
        Ok("escape"@)
    } else if l == "space"@ || l == " "@ {
        Ok("space"@)
    } else if l == "delete"@ || l == "del"@ {
        Ok("delete"@)
    } else if l.len() == 1 {
        Ok(l)
    } else {
        Err(
            tagged(
                VIRTUAL_UNAVAILABLE@,
                "unhandled virtual key `"@ + l
                    + "` (first slice: Enter, Backspace, Tab, Escape, Delete, Space, ASCII)"@,
            ),
        )
    }
}

fn starts_lit(v: &Vec<char>, lit: &str) -> (r: bool)
    ensures
        r == starts_with(v@, lit@),
{
    let l = chars_of(lit);
    starts_with_exec(v, &l)
}

fn eq_lit(v: &Vec<char>, lit: &str) -> (r: bool)
    ensures
        r == (v@ == lit@),
{
    let l = chars_of(lit);
    crate::text::seq_eq(v, &l)
}

fn looks_like_modifier_chord(key: &Vec<char>) -> (r: bool)
    ensures
        r == looks_like_modifier_chord_spec(key@),
{
    let l = lower_seq(key);
    contains_char_exec(&l, '-') || starts_lit(&l, "cmd") || starts_lit(&l, "ctrl") || starts_lit(
        &l,
        "alt",
    ) || starts_lit(&l, "shift") || starts_lit(&l, "super") || starts_lit(&l, "meta")
        || starts_lit(&l, "win")
}

/// Map a protocol `key` (`Enter`, `Backspace`, ...) to a modifier-free
/// keystroke token.
pub fn keystroke_token(key: &str) -> (r: Result<String, String>)
    ensures
        match r {
            Ok(t) => keystroke_spec(key@) == Ok::<Seq<char>, Seq<char>>(t@),
            Err(e) => keystroke_spec(key@) == Err::<Seq<char>, Seq<char>>(e@),
        },
{
    let raw = chars_of(key);
    let t = trim_chars(&raw);
    if t.len() == 0 {
        return Err(virtual_unavailable("empty key"));
    }
    if looks_like_modifier_chord(&t) {
        let mut detail = "modifiers are not allowed on free-form key `".to_owned();
        push_chars(&mut detail, &t);
        detail.append("`; use op keybinding");
        return Err(virtual_unavailable(detail.as_str()));
    }
    let l = lower_seq(&t);
    if eq_lit(&l, "enter") || eq_lit(&l, "return") {
        Ok("enter".to_owned())
    } else if eq_lit(&l, "backspace") {
        Ok("backspace".to_owned())
    } else if eq_lit(&l, "tab") {
        Ok("tab".to_owned())
    } else if eq_lit(&l, "escape") || eq_lit(&l, "esc") {
        Ok("escape".to_owned())
    } else if eq_lit(&l, "space") || eq_lit(&l, " ") {
        Ok("space".to_owned())
    } else if eq_lit(&l, "delete") || eq_lit(&l, "del") {
        Ok("delete".to_owned())
    } else if l.len() == 1 {
        Ok(string_of(l.as_slice()))
    } else {
        let mut detail = "unhandled virtual key `".to_owned();
        push_chars(&mut detail, &l);
        detail.append("` (first slice: Enter, Backspace, Tab, Escape, Delete, Space, ASCII)");
        Err(virtual_unavailable(detail.as_str()))
    }
}

/// The `Debug` rendering of a character (`format!("{c:?}")`), quotes and
/// escapes included.
pub uninterp spec fn char_debug(c: char) -> Seq<char>;

/// `format!("{c:?}")`.
#[verifier::external_body]
fn debug_char(c: char) -> (r: String)
    ensures
        r@ == char_debug(c),
{
    format!("{c:?}")
}

/// Printable ASCII other than space.
pub open spec fn is_ascii_graphic(c: char) -> bool {
    '!' <= c && c <= '~'
}

/// The keystroke token `type` uses for one character, or `None` if the
/// character cannot be typed virtually.
pub open spec fn char_token(c: char) -> Option<Seq<char>> {
    if c == ' ' {
        Some("space"@)
    } else if c == '\n' {
        Some("enter"@)
    } else if c == '\t' {
        Some("tab"@)
    } else if is_ascii_graphic(c) {
        Some(seq![c])
    } else {
        None
    }
}

/// One keystroke token per character for `type` (ASCII and space).
pub fn text_keystrokes(text: &str) -> (r: Result<Vec<String>, String>)
    ensures
        match r {
            Ok(v) => v@.len() == text@.len() && forall|i: int|
                0 <= i < text@.len() ==> char_token(text@[i]) == Some(#[trigger] v@[i]@),
            Err(e) => exists|i: int|
                0 <= i < text@.len() && char_token(text@[i]) is None && (forall|j: int|
                    0 <= j < i ==> char_token(#[trigger] text@[j]) is Some) && e@ == tagged(
                    VIRTUAL_UNAVAILABLE@,
                    "virtual type is ASCII-only in this slice (got "@ + char_debug(text@[i])
                        + ")"@,
                ),
        },
{
    let chars = chars_of(text);
    let mut out: Vec<String> = Vec::new();
    let mut i: usize = 0;
    while i < chars.len()
        invariant
            chars@ == text@,
            i <= chars.len(),
            out@.len() == i,
            forall|j: int| 0 <= j < i ==> char_token(chars@[j]) == Some(#[trigger] out@[j]@),
        decreases chars.len() - i,
    {
        let ch = chars[i];
        let token: String = if ch == ' ' {
            "space".to_owned()
        } else if ch == '\n' {
            "enter".to_owned()
        } else if ch == '\t' {
            "tab".to_owned()
        } else if '!' <= ch && ch <= '~' {
            let mut one = String::new();
            crate::text::push_char(&mut one, ch);
            assert(one@ =~= seq![ch]);
            one
        } else {
            let mut detail = "virtual type is ASCII-only in this slice (got ".to_owned();
            let shown = debug_char(ch);
            detail.append(shown.as_str());
            detail.append(")");
            assert forall|j: int| 0 <= j < i implies char_token(#[trigger] text@[j]) is Some by {
                assert(char_token(chars@[j]) == Some(out@[j]@));
            }
            let e = virtual_unavailable(detail.as_str());
            assert(char_token(text@[i as int]) is None);
            assert(e@ =~= tagged(
                VIRTUAL_UNAVAILABLE@,
                "virtual type is ASCII-only in this slice (got "@ + char_debug(text@[i as int])
                    + ")"@,
            ));
            return Err(e);
        };
        out.push(token);
        i += 1;
    }
    Ok(out)
}

/// `lower(trim(key))` is already lowercase.
proof fn lemma_lower_trim(key: Seq<char>)
    ensures
        lower(lower(trim(key))) == lower(trim(key)),
        lower(trim(key)).len() == trim(key).len(),
{
    let t = trim(key);
    let l = lower(t);
    assert forall|i: int| 0 <= i < l.len() implies lower_char(l[i]) == l[i] by {
        assert(l[i] == lower_char(t[i]));
    }
    assert(lower(l) =~= l);
}

/// A lowercase word of two or more letters, without `-`, whose first two
/// letters begin no modifier name is no modifier chord.
proof fn lemma_not_modifier(l: Seq<char>)
    requires
        l.len() >= 2,
        lower(l) == l,
        forall|i: int| 0 <= i < l.len() ==> l[i] != '-',
        !(l[0] == 'c' && (l[1] == 'm' || l[1] == 't')),
        !(l[0] == 'a' && l[1] == 'l'),
        !(l[0] == 's' && (l[1] == 'h' || l[1] == 'u')),
        !(l[0] == 'm' && l[1] == 'e'),
        !(l[0] == 'w' && l[1] == 'i'),
    ensures
        !looks_like_modifier_chord_spec(l),
{
    reveal_strlit("cmd");
    reveal_strlit("ctrl");
    reveal_strlit("alt");
    reveal_strlit("shift");
    reveal_strlit("super");
    reveal_strlit("meta");
    reveal_strlit("win");
    let ps = seq!["cmd"@, "ctrl"@, "alt"@, "shift"@, "super"@, "meta"@, "win"@];
    assert forall|k: int| 0 <= k < ps.len() implies !starts_with(l, #[trigger] ps[k]) by {
        if starts_with(l, ps[k]) {
            assert(l.subrange(0, ps[k].len() as int)[0] == l[0]);
            assert(l.subrange(0, ps[k].len() as int)[1] == l[1]);
        }
    }
    assert(!starts_with(l, ps[0]));
    assert(!starts_with(l, ps[1]));
    assert(!starts_with(l, ps[2]));
    assert(!starts_with(l, ps[3]));
    assert(!starts_with(l, ps[4]));
    assert(!starts_with(l, ps[5]));
    assert(!starts_with(l, ps[6]));
}

proof fn lemma_key_enter(key: Seq<char>)
    requires
        lower(trim(key)) == "enter"@,
    ensures
        keystroke_spec(key) == Ok::<Seq<char>, Seq<char>>("enter"@),
{
    reveal_strlit("enter");
    reveal_strlit("return");
    reveal_strlit("backspace");
    reveal_strlit("tab");
    reveal_strlit("escape");
    reveal_strlit("esc");
    reveal_strlit("space");
    reveal_strlit("delete");
    reveal_strlit("del");
    reveal_strlit(" ");
    let l = lower(trim(key));
    assert(l.len() != "return"@.len());
    assert(l.len() != "backspace"@.len());
    assert(l.len() != "tab"@.len());
    assert(l.len() != "escape"@.len());
    assert(l.len() != "esc"@.len());
    assert(l[0] != "space"@[0]);
    assert(l.len() != "delete"@.len());
    assert(l.len() != "del"@.len());
    assert(l.len() != " "@.len());
    lemma_lower_trim(key);
    lemma_not_modifier(lower(trim(key)));
}

proof fn lemma_key_return(key: Seq<char>)
    requires
        lower(trim(key)) == "return"@,
    ensures
        keystroke_spec(key) == Ok::<Seq<char>, Seq<char>>("enter"@),
{
    reveal_strlit("enter");
    reveal_strlit("return");
    reveal_strlit("backspace");
    reveal_strlit("tab");
    reveal_strlit("escape");
    reveal_strlit("esc");
    reveal_strlit("space");
    reveal_strlit("delete");
    reveal_strlit("del");
    reveal_strlit(" ");
    let l = lower(trim(key));
    assert(l.len() != "enter"@.len());
    assert(l.len() != "backspace"@.len());
    assert(l.len() != "tab"@.len());
    assert(l[0] != "escape"@[0]);
    assert(l.len() != "esc"@.len());
    assert(l.len() != "space"@.len());
    assert(l[0] != "delete"@[0]);
    assert(l.len() != "del"@.len());
    assert(l.len() != " "@.len());
    lemma_lower_trim(key);
    lemma_not_modifier(lower(trim(key)));
}

proof fn lemma_key_backspace(key: Seq<char>)
    requires
        lower(trim(key)) == "backspace"@,
    ensures
        keystroke_spec(key) == Ok::<Seq<char>, Seq<char>>("backspace"@),
{
    reveal_strlit("enter");
    reveal_strlit("return");
    reveal_strlit("backspace");
    reveal_strlit("tab");
    reveal_strlit("escape");
    reveal_strlit("esc");
    reveal_strlit("space");
    reveal_strlit("delete");
    reveal_strlit("del");
    reveal_strlit(" ");
    let l = lower(trim(key));
    assert(l.len() != "enter"@.len());
    assert(l.len() != "return"@.len());
    assert(l.len() != "tab"@.len());
    assert(l.len() != "escape"@.len());
    assert(l.len() != "esc"@.len());
    assert(l.len() != "space"@.len());
    assert(l.len() != "delete"@.len());
    assert(l.len() != "del"@.len());
    assert(l.len() != " "@.len());
    lemma_lower_trim(key);
    lemma_not_modifier(lower(trim(key)));
}

proof fn lemma_key_tab(key: Seq<char>)
    requires
        lower(trim(key)) == "tab"@,
    ensures
        keystroke_spec(key) == Ok::<Seq<char>, Seq<char>>("tab"@),
{
    reveal_strlit("enter");
    reveal_strlit("return");
    reveal_strlit("backspace");
    reveal_strlit("tab");
    reveal_strlit("escape");
    reveal_strlit("esc");
    reveal_strlit("space");
    reveal_strlit("delete");
    reveal_strlit("del");
    reveal_strlit(" ");
    let l = lower(trim(key));
    assert(l.len() != "enter"@.len());
    assert(l.len() != "return"@.len());
    assert(l.len() != "backspace"@.len());
    assert(l.len() != "escape"@.len());
    assert(l[0] != "esc"@[0]);
    assert(l.len() != "space"@.len());
    assert(l.len() != "delete"@.len());
    assert(l[0] != "del"@[0]);
    assert(l.len() != " "@.len());
    lemma_lower_trim(key);
    lemma_not_modifier(lower(trim(key)));
}

proof fn lemma_key_escape(key: Seq<char>)
    requires
        lower(trim(key)) == "escape"@,
    ensures
        keystroke_spec(key) == Ok::<Seq<char>, Seq<char>>("escape"@),
{
    reveal_strlit("enter");
    reveal_strlit("return");
    reveal_strlit("backspace");
    reveal_strlit("tab");
    reveal_strlit("escape");
    reveal_strlit("esc");
    reveal_strlit("space");
    reveal_strlit("delete");
    reveal_strlit("del");
    reveal_strlit(" ");
    let l = lower(trim(key));
    assert(l.len() != "enter"@.len());
    assert(l[0] != "return"@[0]);
    assert(l.len() != "backspace"@.len());
    assert(l.len() != "tab"@.len());
    assert(l.len() != "esc"@.len());
    assert(l.len() != "space"@.len());
    assert(l[0] != "delete"@[0]);
    assert(l.len() != "del"@.len());
    assert(l.len() != " "@.len());
    lemma_lower_trim(key);
    lemma_not_modifier(lower(trim(key)));
}

proof fn lemma_key_esc(key: Seq<char>)
    requires
        lower(trim(key)) == "esc"@,
    ensures
        keystroke_spec(key) == Ok::<Seq<char>, Seq<char>>("escape"@),
{
    reveal_strlit("enter");
    reveal_strlit("return");
    reveal_strlit("backspace");
    reveal_strlit("tab");
    reveal_strlit("escape");
    reveal_strlit("esc");
    reveal_strlit("space");
    reveal_strlit("delete");
    reveal_strlit("del");
    reveal_strlit(" ");
    let l = lower(trim(key));
    assert(l.len() != "enter"@.len());
    assert(l.len() != "return"@.len());
    assert(l.len() != "backspace"@.len());
    assert(l[0] != "tab"@[0]);
    assert(l.len() != "escape"@.len());
    assert(l.len() != "space"@.len());
    assert(l.len() != "delete"@.len());
    assert(l[0] != "del"@[0]);
    assert(l.len() != " "@.len());
    lemma_lower_trim(key);
    lemma_not_modifier(lower(trim(key)));
}

proof fn lemma_key_space(key: Seq<char>)
    requires
        lower(trim(key)) == "space"@,
    ensures
        keystroke_spec(key) == Ok::<Seq<char>, Seq<char>>("space"@),
{
    reveal_strlit("enter");
    reveal_strlit("return");
    reveal_strlit("backspace");
    reveal_strlit("tab");
    reveal_strlit("escape");
    reveal_strlit("esc");
    reveal_strlit("space");
    reveal_strlit("delete");
    reveal_strlit("del");
    reveal_strlit(" ");
    let l = lower(trim(key));
    assert(l[0] != "enter"@[0]);
    assert(l.len() != "return"@.len());
    assert(l.len() != "backspace"@.len());
    assert(l.len() != "tab"@.len());
    assert(l.len() != "escape"@.len());
    assert(l.len() != "esc"@.len());
    assert(l.len() != "delete"@.len());
    assert(l.len() != "del"@.len());
    assert(l.len() != " "@.len());
    lemma_lower_trim(key);
    lemma_not_modifier(lower(trim(key)));
}

proof fn lemma_key_delete(key: Seq<char>)
    requires
        lower(trim(key)) == "delete"@,
    ensures
        keystroke_spec(key) == Ok::<Seq<char>, Seq<char>>("delete"@),
{
    reveal_strlit("enter");
    reveal_strlit("return");
    reveal_strlit("backspace");
    reveal_strlit("tab");
    reveal_strlit("escape");
    reveal_strlit("esc");
    reveal_strlit("space");
    reveal_strlit("delete");
    reveal_strlit("del");
    reveal_strlit(" ");
    let l = lower(trim(key));
    assert(l.len() != "enter"@.len());
    assert(l[0] != "return"@[0]);
    assert(l.len() != "backspace"@.len());
    assert(l.len() != "tab"@.len());
    assert(l[0] != "escape"@[0]);
    assert(l.len() != "esc"@.len());
    assert(l.len() != "space"@.len());
    assert(l.len() != "del"@.len());
    assert(l.len() != " "@.len());
    lemma_lower_trim(key);
    lemma_not_modifier(lower(trim(key)));
}

proof fn lemma_key_del(key: Seq<char>)
    requires
        lower(trim(key)) == "del"@,
    ensures
        keystroke_spec(key) == Ok::<Seq<char>, Seq<char>>("delete"@),
{
    reveal_strlit("enter");
    reveal_strlit("return");
    reveal_strlit("backspace");
    reveal_strlit("tab");
    reveal_strlit("escape");
    reveal_strlit("esc");
    reveal_strlit("space");
    reveal_strlit("delete");
    reveal_strlit("del");
    reveal_strlit(" ");
    let l = lower(trim(key));
    assert(l.len() != "enter"@.len());
    assert(l.len() != "return"@.len());
    assert(l.len() != "backspace"@.len());
    assert(l[0] != "tab"@[0]);
    assert(l.len() != "escape"@.len());
    assert(l[0] != "esc"@[0]);
    assert(l.len() != "space"@.len());
    assert(l.len() != "delete"@.len());
    assert(l.len() != " "@.len());
    lemma_lower_trim(key);
    lemma_not_modifier(lower(trim(key)));
}

/// The named keys map to their keystroke tokens whatever their case and
/// surrounding whitespace: Enter or Return to `enter`, Backspace to
/// `backspace`, Tab to `tab`, Escape or Esc to `escape`, Space to `space`,
/// Delete or Del to `delete`.
pub proof fn lemma_named_keys(key: Seq<char>)
    ensures
        lower(trim(key)) == "enter"@ || lower(trim(key)) == "return"@ ==> keystroke_spec(key) == Ok::<Seq<char>, Seq<char>>("enter"@),
        lower(trim(key)) == "backspace"@ ==> keystroke_spec(key) == Ok::<Seq<char>, Seq<char>>("backspace"@),
        lower(trim(key)) == "tab"@ ==> keystroke_spec(key) == Ok::<Seq<char>, Seq<char>>("tab"@),
        lower(trim(key)) == "escape"@ || lower(trim(key)) == "esc"@ ==> keystroke_spec(key) == Ok::<Seq<char>, Seq<char>>("escape"@),
        lower(trim(key)) == "space"@ ==> keystroke_spec(key) == Ok::<Seq<char>, Seq<char>>("space"@),
        lower(trim(key)) == "delete"@ || lower(trim(key)) == "del"@ ==> keystroke_spec(key) == Ok::<Seq<char>, Seq<char>>("delete"@),
{
    if lower(trim(key)) == "enter"@ {
        lemma_key_enter(key);
    }
    if lower(trim(key)) == "return"@ {
        lemma_key_return(key);
    }
    if lower(trim(key)) == "backspace"@ {
        lemma_key_backspace(key);
    }
    if lower(trim(key)) == "tab"@ {
        lemma_key_tab(key);
    }
    if lower(trim(key)) == "escape"@ {
        lemma_key_escape(key);
    }
    if lower(trim(key)) == "esc"@ {
        lemma_key_esc(key);
    }
    if lower(trim(key)) == "space"@ {
        lemma_key_space(key);
    }
    if lower(trim(key)) == "delete"@ {
        lemma_key_delete(key);
    }
    if lower(trim(key)) == "del"@ {
        lemma_key_del(key);
    }
}

} // verus!
