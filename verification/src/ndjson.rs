//! Capped NDJSON line reading: one request per line, refused when longer
//! than the cap or not UTF-8.

use std::io::{BufRead, Read};

use vstd::prelude::*;

verus! {

#[verifier::external_type_specification]
#[verifier::external_body]
pub struct ExIoError(std::io::Error);

/// How one capped read ended.
#[derive(Debug, Clone, Copy, PartialEq, Eq, Structural)]
pub enum LineOutcome {
    /// Nothing was read: end of input.
    Eof,
    /// A complete line of at most the cap, newline stripped, valid UTF-8.
    Line,
    /// More than the cap arrived before a newline.
    TooLong,
    /// The line is not valid UTF-8.
    NotUtf8,
}

/// The line held in `raw` with one trailing `\n`, then one `\r`, removed.
pub open spec fn strip_eol(raw: Seq<u8>) -> Seq<u8> {
    let a = if raw.len() > 0 && raw.last() == 10u8 { raw.drop_last() } else { raw };
    if raw.len() > 0 && raw.last() == 10u8 && a.len() > 0 && a.last() == 13u8 {
        a.drop_last()
    } else {
        a
    }
}

/// `raw` without one trailing `\n`: the line as the cap counts it.
pub open spec fn without_newline(raw: Seq<u8>) -> Seq<u8> {
    if raw.len() > 0 && raw.last() == 10u8 {
        raw.drop_last()
    } else {
        raw
    }
}

/// How a read that gave the bytes `raw` ends: nothing read is the end of
/// input; a line longer than the cap (the newline not counted) or not
/// UTF-8 is refused.
pub open spec fn line_outcome_spec(raw: Seq<u8>, max_bytes: nat) -> LineOutcome {
    if raw.len() == 0 {
        LineOutcome::Eof
    } else if without_newline(raw).len() > max_bytes {
        LineOutcome::TooLong
    } else if !vstd::utf8::valid_utf8(strip_eol(raw)) {
        LineOutcome::NotUtf8
    } else {
        LineOutcome::Line
    }
}

/// `std::str::from_utf8(b).is_ok()`.
#[verifier::external_body]
fn is_utf8(b: &[u8]) -> (r: bool)
    ensures
        r == vstd::utf8::valid_utf8(b@),
{
    std::str::from_utf8(b).is_ok()
}

/// Classify the bytes of one capped read and strip its line ending.
pub fn finish_line(buf: &mut Vec<u8>, max_bytes: usize) -> (r: LineOutcome)
    ensures
        r == line_outcome_spec(old(buf)@, max_bytes as nat),
        r == LineOutcome::Line || r == LineOutcome::NotUtf8 ==> final(buf)@ == strip_eol(old(buf)@),
        r == LineOutcome::Eof || r == LineOutcome::TooLong ==> final(buf)@ == old(buf)@,
{
    if buf.len() == 0 {
        return LineOutcome::Eof;
    }
    let body = if buf[buf.len() - 1] == 10u8 {
        buf.len() - 1
    } else {
        buf.len()
    };
    if body > max_bytes {
        return LineOutcome::TooLong;
    }
    let ghost raw = buf@;
    if buf[buf.len() - 1] == 10u8 {
        buf.pop();
        if buf.len() > 0 && buf[buf.len() - 1] == 13u8 {
            buf.pop();
        }
    }
    assert(buf@ =~= strip_eol(raw));
    if !is_utf8(buf.as_slice()) {
        return LineOutcome::NotUtf8;
    }
    LineOutcome::Line
}

#[verifier::external_type_specification]
#[verifier::external_body]
#[verifier::reject_recursive_types(T)]
pub struct ExTake<T>(std::io::Take<T>);

/// `Read::take`: the reader, limited to `limit` more bytes.
#[verifier::external_body]
fn take_bytes<R: Read>(reader: R, limit: u64) -> std::io::Take<R> {
    reader.take(limit)
}

/// `BufRead::read_until(b'\n')`: appends bytes up to and including the
/// first newline, or up to the end of input, and returns how many it
/// appended. Which bytes come depends on the reader.
#[verifier::external_body]
fn read_until_newline<B: BufRead>(reader: &mut B, buf: &mut Vec<u8>) -> (r: std::io::Result<usize>)
    ensures
        r matches Ok(n) ==> final(buf)@.len() == old(buf)@.len() + n
            && final(buf)@.subrange(0, old(buf)@.len() as int) == old(buf)@ && forall|k: int|
            old(buf)@.len() <= k < final(buf)@.len() - 1 ==> final(buf)@[k] != 10u8,
{
    reader.read_until(b'\n', buf)
}

/// `std::io::Error::new(ErrorKind::InvalidData, msg)`.
/// The error `std::io::Error::new(ErrorKind::InvalidData, msg)`: its kind
/// is `InvalidData` and its message `msg`.
pub uninterp spec fn invalid_data_error(msg: Seq<char>) -> std::io::Error;

pub open spec fn too_long_msg() -> Seq<char> {
    "line too long"@
}

pub open spec fn not_utf8_msg() -> Seq<char> {
    "line is not valid UTF-8"@
}

#[verifier::external_body]
fn invalid_data(msg: &str) -> (r: std::io::Error)
    ensures
        r == invalid_data_error(msg@),
{
    std::io::Error::new(std::io::ErrorKind::InvalidData, msg.to_owned())
}

/// How many bytes one capped read may take: the cap and the newline.
fn line_cap(max_bytes: usize) -> (l: u64)
    requires
        max_bytes < u64::MAX,
    ensures
        l == max_bytes + 1,
{
    max_bytes as u64 + 1
}

/// Read one line into `buf`, capped at `max_bytes` (excluding the newline).
///
/// `Ok(false)` on end of input. A line longer than the cap, or one that is
/// not UTF-8, is an `InvalidData` error; at most `max_bytes + 1` bytes are
/// asked of the reader. On `Ok(true)` `buf` holds the line without `\n` /
/// `\r\n`. Which bytes come is the reader's, and so is any other error:
/// what is done with them is [`finish_read`]'s exact contract.
pub fn read_limited_line_into<R: BufRead>(reader: &mut R, buf: &mut Vec<u8>, max_bytes: usize) -> (r:
    std::io::Result<bool>)
    requires
        max_bytes < u64::MAX,
    ensures
        r matches Ok(true) ==> exists|raw: Seq<u8>|
            #![trigger strip_eol(raw)]
            raw.len() <= max_bytes + 1 && line_outcome_spec(raw, max_bytes as nat) == LineOutcome::Line
                && final(buf)@ == strip_eol(raw),
        r matches Ok(false) ==> final(buf)@.len() == 0,
{
    buf.clear();
    let limit = line_cap(max_bytes);
    let mut capped = take_bytes(&mut *reader, limit);
    let read = read_until_newline(&mut capped, buf);
    finish_read(read, buf, max_bytes)
}

/// The answer to one capped read that left the bytes `buf`: the reader's
/// error as it is; end of input; the line, its ending stripped; or an
/// `InvalidData` error for a line over the cap or not UTF-8.
pub fn finish_read(read: std::io::Result<usize>, buf: &mut Vec<u8>, max_bytes: usize) -> (r: std::io::Result<bool>)
    ensures
        match read {
            Err(e) => r == Err::<bool, std::io::Error>(e),
            Ok(_) => match line_outcome_spec(old(buf)@, max_bytes as nat) {
                LineOutcome::Eof => r == Ok::<bool, std::io::Error>(false) && final(buf)@ == old(buf)@,
                LineOutcome::Line => r == Ok::<bool, std::io::Error>(true) && final(buf)@ == strip_eol(old(buf)@),
                LineOutcome::TooLong => r == Err::<bool, std::io::Error>(invalid_data_error(too_long_msg())),
                LineOutcome::NotUtf8 => r == Err::<bool, std::io::Error>(invalid_data_error(not_utf8_msg())),
            },
        },
{
    match read {
        Ok(_) => {},
        Err(e) => return Err(e),
    }
    proof {
        reveal_strlit("line too long");
        reveal_strlit("line is not valid UTF-8");
    }
    match finish_line(buf, max_bytes) {
        LineOutcome::Eof => Ok(false),
        LineOutcome::TooLong => Err(invalid_data("line too long")),
        LineOutcome::NotUtf8 => Err(invalid_data("line is not valid UTF-8")),
        LineOutcome::Line => Ok(true),
    }
}

/// `String::from_utf8` on bytes already known to be UTF-8.
#[verifier::external_body]
fn string_from_utf8(v: Vec<u8>) -> (r: String)
    requires
        vstd::utf8::valid_utf8(v@),
    ensures
        r@ == vstd::utf8::decode_utf8(v@),
{
    String::from_utf8(v).expect("checked utf-8")
}

/// Read one line, capped at `max_bytes`; `Ok(None)` on end of input.
pub fn read_limited_line<R: BufRead>(reader: &mut R, max_bytes: usize) -> (r: std::io::Result<
    Option<String>,
>)
    requires
        max_bytes < u64::MAX,
    ensures
        r matches Ok(Some(s)) ==> exists|raw: Seq<u8>|
            line_outcome_spec(raw, max_bytes as nat) == LineOutcome::Line && s@
                == vstd::utf8::decode_utf8(strip_eol(raw)),
{
    let mut buf: Vec<u8> = Vec::new();
    let read = read_limited_line_into(reader, &mut buf, max_bytes);
    line_string(read, buf)
}

/// The owned line of a capped read's answer: the line as text on
/// `Ok(true)`, `None` on end of input (`Ok(false)`), the error as it is.
pub fn line_string(read: std::io::Result<bool>, buf: Vec<u8>) -> (r: std::io::Result<Option<String>>)
    requires
        read matches Ok(true) ==> vstd::utf8::valid_utf8(buf@),
    ensures
        match read {
            Ok(true) => r matches Ok(Some(s)) && s@ == vstd::utf8::decode_utf8(buf@),
            Ok(false) => r matches Ok(None),
            Err(e) => r == Err::<Option<String>, std::io::Error>(e),
        },
{
    match read {
        Ok(true) => Ok(Some(string_from_utf8(buf))),
        Ok(false) => Ok(None),
        Err(e) => Err(e),
    }
}

/// `u8::is_ascii_whitespace`: space, tab, line feed, form feed, carriage
/// return.
pub open spec fn ascii_ws(b: u8) -> bool {
    b == 0x20 || b == 0x09 || b == 0x0a || b == 0x0c || b == 0x0d
}

/// A line with nothing but ASCII whitespace, which the server skips.
pub fn line_is_blank(line: &[u8]) -> (r: bool)
    ensures
        r == forall|i: int| 0 <= i < line@.len() ==> ascii_ws(#[trigger] line@[i]),
{
    let mut i: usize = 0;
    while i < line.len()
        invariant
            i <= line@.len(),
            forall|k: int| 0 <= k < i ==> ascii_ws(#[trigger] line@[k]),
        decreases line.len() - i,
    {
        let b = line[i];
        if !(b == 0x20 || b == 0x09 || b == 0x0a || b == 0x0c || b == 0x0d) {
            return false;
        }
        i += 1;
    }
    true
}

} // verus!
