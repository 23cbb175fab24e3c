//! Cutting a byte stream into lines, and what text becomes on its way through
//! one.
use vstd::prelude::*;
use vstd::utf8::*;

use crate::frame;
use crate::text;

verus! {

broadcast use vstd::string::group_string_axioms;

/// The line feed byte.
pub const LF: u8 = 10;

/// The carriage return byte.
pub const CR: u8 = 13;

/// Result of trying to extract a line from a read buffer.
#[derive(Debug)]
pub enum LineTake {
    /// A complete line (CRLF or LF stripped).
    Line(Vec<u8>),
    /// No complete line buffered yet.
    Need,
    /// The line exceeded the allowed length.
    TooLong,
}

/// The model of a [`LineTake`].
pub enum LineTakeView {
    Line(Seq<u8>),
    Need,
    TooLong,
}

impl View for LineTake {
    type V = LineTakeView;

    open spec fn view(&self) -> LineTakeView {
        match self {
            LineTake::Line(l) => LineTakeView::Line(l@),
            LineTake::Need => LineTakeView::Need,
            LineTake::TooLong => LineTakeView::TooLong,
        }
    }
}

/// The index of the first line feed, or the length where there is none.
pub open spec fn find_lf(buf: Seq<u8>) -> nat
    decreases buf.len(),
{
    if buf.len() == 0 || buf[0] == LF {
        0
    } else {
        1 + find_lf(buf.drop_first())
    }
}

/// `line` without one trailing carriage return.
pub open spec fn strip_cr(line: Seq<u8>) -> Seq<u8> {
    if line.len() > 0 && line.last() == CR {
        line.drop_last()
    } else {
        line
    }
}

/// The first complete line of a buffer, without its terminator.
pub open spec fn first_line(buf: Seq<u8>) -> Seq<u8> {
    strip_cr(buf.take(find_lf(buf) as int))
}

/// What follows the first complete line of a buffer.
pub open spec fn after_line(buf: Seq<u8>) -> Seq<u8> {
    buf.skip(find_lf(buf) as int + 1)
}

/// What [`take_line`] gives and leaves behind. The length of a line does not count
/// its terminator, nor a carriage return that may turn out to begin it.
pub open spec fn taken(buf: Seq<u8>, max: nat) -> (LineTakeView, Seq<u8>) {
    if find_lf(buf) < buf.len() {
        if first_line(buf).len() > max {
            (LineTakeView::TooLong, after_line(buf))
        } else {
            (LineTakeView::Line(first_line(buf)), after_line(buf))
        }
    } else if strip_cr(buf).len() > max {
        (LineTakeView::TooLong, buf)
    } else {
        (LineTakeView::Need, buf)
    }
}

pub proof fn lemma_find_lf(buf: Seq<u8>)
    ensures
        find_lf(buf) <= buf.len(),
        find_lf(buf) < buf.len() ==> buf[find_lf(buf) as int] == LF,
        forall|i: int| 0 <= i < find_lf(buf) ==> buf[i] != LF,
    decreases buf.len(),
{
    if buf.len() > 0 && buf[0] != LF {
        lemma_find_lf(buf.drop_first());
        assert forall|i: int| 0 <= i < find_lf(buf) implies buf[i] != LF by {
            if i > 0 {
                assert(buf[i] == buf.drop_first()[i - 1]);
            }
        }
    }
}

pub proof fn lemma_find_lf_is(buf: Seq<u8>, k: int)
    requires
        0 <= k <= buf.len(),
        forall|i: int| 0 <= i < k ==> buf[i] != LF,
        k < buf.len() ==> buf[k] == LF,
    ensures
        find_lf(buf) == k,
{
    lemma_find_lf(buf);
    let f = find_lf(buf) as int;
    if f < k {
        assert(buf[f] != LF);
    } else if k < f {
        assert(buf[k] != LF);
    }
}

/// The index of the first line feed, or the length where there is none.
pub fn lf_index(buf: &Vec<u8>) -> (k: usize)
    ensures
        k == find_lf(buf@),
        k <= buf@.len(),
{
    let mut k: usize = 0;
    while k < buf.len() && buf[k] != LF
        invariant
            k <= buf.len(),
            forall|i: int| 0 <= i < k ==> buf@[i] != LF,
        decreases buf.len() - k,
    {
        k += 1;
    }
    proof {
        lemma_find_lf_is(buf@, k as int);
    }
    k
}

/// Remove the first line, of which the line feed stands at `k`, and return it
/// without its terminator.
pub fn cut_line(buf: &mut Vec<u8>, k: usize) -> (line: Vec<u8>)
    requires
        k == find_lf(old(buf)@),
        k < old(buf).len(),
    ensures
        line@ == first_line(old(buf)@),
        final(buf)@ == after_line(old(buf)@),
{
    let ghost before = buf@;
    let mut rest = buf.split_off(k + 1);
    std::mem::swap(buf, &mut rest);
    let mut line = rest;
    line.pop();
    assert(line@ =~= before.take(k as int));
    assert(buf@ =~= before.skip(k + 1));
    if line.len() > 0 && line[line.len() - 1] == CR {
        line.pop();
        assert(line@ =~= before.take(k as int).drop_last());
    }
    line
}

/// Extract a complete line from a read buffer, if one is present and, without
/// its terminator, not longer than `max`. A complete line that is too long is
/// removed; an incomplete one is left where it is. A carriage return at the end of
/// an incomplete line may begin its terminator, and does not count.
pub fn take_line(buf: &mut Vec<u8>, max: usize) -> (r: LineTake)
    ensures
        (r@, final(buf)@) == taken(old(buf)@, max as nat),
{
    let k = lf_index(buf);
    if k < buf.len() {
        let line = cut_line(buf, k);
        if line.len() > max {
            LineTake::TooLong
        } else {
            LineTake::Line(line)
        }
    } else if buf.len() > max && (buf.len() - 1 > max || buf[buf.len() - 1] != CR) {
        LineTake::TooLong
    } else {
        LineTake::Need
    }
}

/// What remains of a buffer once the line it starts with is discarded: all of
/// it is discarded where the line is not complete.
pub open spec fn discarded(buf: Seq<u8>) -> Seq<u8> {
    if find_lf(buf) < buf.len() {
        after_line(buf)
    } else {
        Seq::empty()
    }
}

/// Discard the line that the buffer starts with. Returns whether its end was
/// reached.
pub fn discard_line(buf: &mut Vec<u8>) -> (done: bool)
    ensures
        done == (find_lf(old(buf)@) < old(buf)@.len()),
        final(buf)@ == discarded(old(buf)@),
{
    let k = lf_index(buf);
    if k < buf.len() {
        let mut rest = buf.split_off(k + 1);
        std::mem::swap(buf, &mut rest);
        assert(buf@ =~= after_line(old(buf)@));
        true
    } else {
        buf.clear();
        false
    }
}

// --- input in pieces -------------------------------------------------------------------

/// Where the first line feed stands once more input has come.
pub proof fn lemma_find_lf_on(buf: Seq<u8>, more: Seq<u8>)
    ensures
        find_lf(buf) < buf.len() ==> find_lf(buf + more) == find_lf(buf),
        find_lf(buf) == buf.len() ==> find_lf(buf + more) == buf.len() + find_lf(more),
{
    lemma_find_lf(buf);
    lemma_find_lf(more);
    let k = find_lf(buf) as int;
    let j = find_lf(more) as int;
    let all = buf + more;
    if k < buf.len() {
        assert forall|i: int| 0 <= i < k implies all[i] != LF by {
            assert(all[i] == buf[i]);
        }
        assert(all[k] == buf[k]);
        lemma_find_lf_is(all, k);
    } else {
        assert forall|i: int| 0 <= i < k + j implies all[i] != LF by {
            if i < k {
                assert(all[i] == buf[i]);
            } else {
                assert(all[i] == more[i - k]);
            }
        }
        if j < more.len() {
            assert(all[k + j] == more[j]);
        }
        lemma_find_lf_is(all, k + j);
    }
}

/// Taking a line does not depend on how the input was split: a complete line is
/// taken as it is whatever follows, and leaves that behind it; a line that is too
/// long before its end has come is too long when it has; and of a buffer that
/// needs more input, nothing was taken.
pub proof fn lines_do_not_depend_on_pieces(buf: Seq<u8>, more: Seq<u8>, max: nat)
    ensures
        find_lf(buf) < buf.len() ==> taken(buf + more, max) == (
            taken(buf, max).0,
            taken(buf, max).1 + more,
        ),
        find_lf(buf) == buf.len() && taken(buf, max).0 is TooLong ==> taken(
            buf + more,
            max,
        ).0 is TooLong,
        taken(buf, max).0 is Need ==> taken(buf, max).1 == buf,
{
    lemma_find_lf_on(buf, more);
    lemma_find_lf(buf);
    lemma_find_lf(more);
    let all = buf + more;
    let k = find_lf(buf) as int;
    if k < buf.len() {
        assert(all.take(k) =~= buf.take(k));
        assert(all.skip(k + 1) =~= buf.skip(k + 1) + more);
    } else {
        let j = find_lf(more) as int;
        assert(all.take(k + j) =~= buf + more.take(j));
        if j == 0 {
            assert(buf + more.take(j) =~= buf);
        }
        assert(strip_cr(buf + more.take(j)).len() >= strip_cr(buf).len());
    }
}

// --- text on the wire ----------------------------------------------------------

/// No character but the line feed has a line feed among its bytes.
proof fn lemma_char_no_lf(c: char)
    requires
        c != '\n',
    ensures
        forall|i: int|
            0 <= i < encode_scalar(c as u32).len() ==> #[trigger] encode_scalar(c as u32)[i] != LF,
{
    let v = c as u32;
    char_is_scalar(c);
    if v < 0x80 {
        assert((v & 0x7F) as u8 == v as u8) by (bit_vector)
            requires
                v < 0x80,
        ;
        assert(encode_scalar(v) =~= seq![v as u8]);
    } else {
        assert(0xC0u8 | ((v >> 6) & 0x1F) as u8 >= 0x80) by (bit_vector);
        assert(0xE0u8 | ((v >> 12) & 0x0F) as u8 >= 0x80) by (bit_vector);
        assert(0xF0u8 | ((v >> 18) & 0x7) as u8 >= 0x80) by (bit_vector);
        assert(0x80u8 | (v & 0x3F) as u8 >= 0x80) by (bit_vector);
        assert(0x80u8 | ((v >> 6) & 0x3F) as u8 >= 0x80) by (bit_vector);
        assert(0x80u8 | ((v >> 12) & 0x3F) as u8 >= 0x80) by (bit_vector);
    }
}

pub proof fn lemma_encode_concat(a: Seq<char>, b: Seq<char>)
    ensures
        encode_utf8(a + b) == encode_utf8(a) + encode_utf8(b),
    decreases a.len(),
{
    if a.len() == 0 {
        assert(a + b =~= b);
        assert(encode_utf8(a) =~= Seq::<u8>::empty());
        assert(encode_utf8(a) + encode_utf8(b) =~= encode_utf8(b));
    } else {
        assert((a + b).drop_first() =~= a.drop_first() + b);
        lemma_encode_concat(a.drop_first(), b);
        assert(encode_utf8(a + b) =~= encode_utf8(a) + encode_utf8(b));
    }
}

/// Text without a line feed encodes to bytes without a line feed.
proof fn lemma_encode_no_lf(a: Seq<char>)
    requires
        !a.contains('\n'),
    ensures
        forall|i: int| 0 <= i < encode_utf8(a).len() ==> encode_utf8(a)[i] != LF,
    decreases a.len(),
{
    if a.len() > 0 {
        let tail = a.drop_first();
        assert(!tail.contains('\n')) by {
            if tail.contains('\n') {
                let j = choose|j: int| 0 <= j < tail.len() && tail[j] == '\n';
                assert(a[j + 1] == '\n');
            }
        }
        assert(a[0] != '\n');
        lemma_encode_no_lf(tail);
        lemma_char_no_lf(a[0]);
        let head = encode_scalar(a[0] as u32);
        assert forall|i: int| 0 <= i < encode_utf8(a).len() implies encode_utf8(a)[i] != LF by {
            if i < head.len() {
                assert(encode_utf8(a)[i] == head[i]);
            } else {
                assert(encode_utf8(a)[i] == encode_utf8(tail)[i - head.len()]);
            }
        }
    }
}

/// What the bytes of `CRLF` are.
proof fn lemma_encode_crlf()
    ensures
        encode_utf8(frame::CRLF@) == seq![CR, LF],
{
    reveal_strlit("\r\n");
    let s = frame::CRLF@;
    assert(s =~= seq!['\r', '\n']);
    assert(is_ascii_chars(s));
    is_ascii_chars_encode_utf8(s);
    assert(s[0] as u8 == encode_utf8(s)[0] && s[1] as u8 == encode_utf8(s)[1]);
    assert(encode_utf8(s) =~= seq![CR, LF]);
}

/// A line of text that holds no line feed, sent with CRLF ahead of anything
/// else, is the first line that the receiver takes, and what follows it is left
/// in the buffer.
pub proof fn sent_line_is_first_line(line: Seq<char>, rest: Seq<char>)
    requires
        !line.contains('\n'),
    ensures
        ({
            let buf = encode_utf8(line + frame::CRLF@ + rest);
            &&& find_lf(buf) == encode_utf8(line).len() + 1
            &&& find_lf(buf) < buf.len()
            &&& first_line(buf) == encode_utf8(line)
            &&& after_line(buf) == encode_utf8(rest)
            &&& text::lossy(first_line(buf)) == line
        }),
{
    broadcast use {encode_utf8_valid_utf8, encode_utf8_decode_utf8};

    let buf = encode_utf8(line + frame::CRLF@ + rest);
    let head = encode_utf8(line);
    lemma_encode_concat(line + frame::CRLF@, rest);
    lemma_encode_concat(line, frame::CRLF@);
    lemma_encode_crlf();
    lemma_encode_no_lf(line);
    assert(buf =~= head + seq![CR, LF] + encode_utf8(rest));
    lemma_find_lf_is(buf, head.len() as int + 1);
    assert(buf.take(head.len() as int + 1) =~= head.push(CR));
    assert(head.push(CR).drop_last() =~= head);
    assert(buf.skip(head.len() as int + 2) =~= encode_utf8(rest));
}

} // verus!
