//! SMTP-style `DATA` block framing and dot-stuffing.
//!
//! A message body is a sequence of text lines. On the wire the body is sent
//! line by line and terminated by a line containing exactly `.`. Any body line
//! beginning with `.` is *dot-stuffed* by prefixing an extra `.` on send; the
//! receiver strips one leading `.` from any body line beginning with `..`.
//!
//! This module operates on already-split lines (no CRLFs). Reading and writing
//! CRLF-terminated lines is the business of [`crate::wire`].
use std::borrow::Cow;

use vstd::prelude::*;

use crate::text;

verus! {

broadcast use vstd::string::group_string_axioms;

/// The line that terminates a DATA block or message body.
pub const TERMINATOR: &'static str = ".";

/// CRLF line terminator used on the wire.
pub const CRLF: &'static str = "\r\n";

/// The wire form of a body line.
pub open spec fn stuffed(line: Seq<char>) -> Seq<char> {
    if line.len() > 0 && line[0] == '.' {
        seq!['.'] + line
    } else {
        line
    }
}

/// The body line that a received line stands for.
pub open spec fn unstuffed(line: Seq<char>) -> Seq<char> {
    if line.len() > 1 && line[0] == '.' && line[1] == '.' {
        line.drop_first()
    } else {
        line
    }
}

/// Dot-stuff a single outgoing body line: if it begins with `.`, prefix one
/// extra `.`. Returns a borrowed slice when no stuffing is needed.
pub fn stuff_line(line: &str) -> (s: Cow<'_, str>)
    ensures
        s@ == stuffed(line@),
{
    let mut chars = line.chars();
    let first = chars.next();
    if first == Some('.') {
        let mut s = String::new();
        s.push('.');
        s.append(line);
        assert(s@ =~= seq!['.'] + line@);
        Cow::Owned(s)
    } else {
        Cow::Borrowed(line)
    }
}

/// Reverse [`stuff_line`] for an incoming body line: strip one leading `.` if
/// the line begins with `..`.
///
/// The caller must have already determined that `line` is a body line and not
/// the lone `.` terminator.
pub fn unstuff_line(line: &str) -> (s: &str)
    ensures
        s@ == unstuffed(line@),
{
    let mut chars = line.chars();
    let first = chars.next();
    let second = chars.next();
    if first == Some('.') && second == Some('.') {
        let n = line.unicode_len();
        assert(line@.subrange(1, n as int) =~= line@.drop_first());
        line.substring_char(1, n)
    } else {
        line
    }
}

/// The body lines in wire form, each with its line terminator.
pub open spec fn stuffed_lines(lines: Seq<Seq<char>>) -> Seq<char>
    decreases lines.len(),
{
    if lines.len() == 0 {
        Seq::empty()
    } else {
        stuffed_lines(lines.drop_last()) + stuffed(lines.last()) + CRLF@
    }
}

/// The complete DATA block for a body, with its terminating line.
pub open spec fn block(lines: Seq<Seq<char>>) -> Seq<char> {
    stuffed_lines(lines) + TERMINATOR@ + CRLF@
}

/// Serialize a body (as a slice of lines) into a complete DATA block with the
/// terminating `.` line, using CRLF between lines.
pub fn encode_body(lines: &[String]) -> (out: String)
    ensures
        out@ == block(text::views(lines@)),
{
    let mut out = String::new();
    let mut i: usize = 0;
    let ghost all = text::views(lines@);
    while i < lines.len()
        invariant
            i <= lines.len(),
            all == text::views(lines@),
            out@ == stuffed_lines(all.take(i as int)),
        decreases lines.len() - i,
    {
        let stuffed_line = stuff_line(lines[i].as_str());
        match &stuffed_line {
            Cow::Borrowed(s) => out.append(s),
            Cow::Owned(s) => out.append(s.as_str()),
        }
        out.append(CRLF);
        assert(all.take(i + 1).drop_last() =~= all.take(i as int));
        assert(all.take(i + 1).last() == lines@[i as int]@);
        i += 1;
    }
    assert(all.take(i as int) =~= all);
    out.append(TERMINATOR);
    out.append(CRLF);
    out
}

// --- laws ------------------------------------------------------------------------

/// Un-stuffing undoes stuffing.
pub proof fn stuffing_round_trip(line: Seq<char>)
    ensures
        unstuffed(stuffed(line)) == line,
{
    assert((seq!['.'] + line).drop_first() =~= line);
}

/// No body line is mistaken for the terminator.
pub proof fn stuffed_line_is_no_terminator(line: Seq<char>)
    ensures
        stuffed(line) != TERMINATOR@,
{
    reveal_strlit(".");
    if line.len() > 0 && line[0] == '.' {
        assert(stuffed(line).len() == 1 + line.len());
    } else if stuffed(line) == TERMINATOR@ {
        assert(line[0] == TERMINATOR@[0]);
    }
}

/// The first line of a body leads its wire form.
pub proof fn lemma_stuffed_lines(lines: Seq<Seq<char>>)
    requires
        lines.len() > 0,
    ensures
        stuffed_lines(lines) == stuffed(lines[0]) + CRLF@ + stuffed_lines(lines.drop_first()),
    decreases lines.len(),
{
    let rest = lines.drop_first();
    if lines.len() == 1 {
        assert(lines.drop_last() =~= Seq::<Seq<char>>::empty());
        assert(rest =~= Seq::<Seq<char>>::empty());
        assert(stuffed_lines(lines) =~= stuffed(lines[0]) + CRLF@ + stuffed_lines(rest));
    } else {
        lemma_stuffed_lines(lines.drop_last());
        assert(lines.drop_last().drop_first() =~= rest.drop_last());
        assert(stuffed_lines(lines) =~= stuffed(lines[0]) + CRLF@ + stuffed_lines(rest));
    }
}

} // verus!
