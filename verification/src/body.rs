//! Receiving a DATA body line by line, within limits.
use vstd::prelude::*;
use vstd::utf8::*;

use crate::config::Limits;
use crate::frame;
use crate::text;
use crate::wire;
use crate::wire::LineTake;
use crate::wire::LineTakeView;

verus! {

broadcast use vstd::string::group_string_axioms;

/// The model of a [`Body`].
#[verifier::ext_equal]
pub struct BodyView {
    /// The lines so far, un-stuffed.
    pub lines: Seq<Seq<char>>,
    /// The octets so far, a line terminator counted as one.
    pub total: nat,
    /// Whether the body, or a line of it, is over its limit.
    pub too_large: bool,
    /// Whether the buffer starts inside a line that is over its limit.
    pub skipping: bool,
}

/// What came of looking for the next line of a body.
#[derive(Debug, Clone, Copy, PartialEq, Eq, Structural)]
pub enum Received {
    /// A line was taken; look again.
    More,
    /// No complete line is buffered.
    Wait,
    /// The terminator was taken: the body is complete.
    End,
}

impl BodyView {
    /// A body of which nothing has arrived.
    pub open spec fn empty() -> BodyView {
        BodyView { lines: Seq::empty(), total: 0, too_large: false, skipping: false }
    }

    /// The body with one more line, within a limit on its octets.
    pub open spec fn with_line(self, line: Seq<char>, max: nat) -> BodyView {
        let total = self.total + encode_utf8(line).len() + 1;
        if self.too_large {
            self
        } else if total > max {
            BodyView { too_large: true, ..self }
        } else {
            BodyView { lines: self.lines.push(line), total, ..self }
        }
    }

    /// The body, and what remains of the buffer, once the next line was taken
    /// off it. An over-long line makes the body too large, and is discarded up to
    /// its end, however long that takes to arrive.
    pub open spec fn received(self, buf: Seq<u8>, limits: Limits) -> (BodyView, Seq<u8>, Received) {
        let (take, rest) = wire::taken(buf, limits.max_body_line_bytes as nat);
        let complete = wire::find_lf(buf) < buf.len();
        let going = if complete {
            Received::More
        } else {
            Received::Wait
        };
        if self.skipping {
            (BodyView { skipping: !complete, ..self }, wire::discarded(buf), going)
        } else {
            match take {
                LineTakeView::Line(line) => if text::lossy(line) == frame::TERMINATOR@ {
                    (self, rest, Received::End)
                } else {
                    (
                        self.with_line(
                            frame::unstuffed(text::lossy(line)),
                            limits.max_message_bytes as nat,
                        ),
                        rest,
                        Received::More,
                    )
                },
                LineTakeView::TooLong => (
                    BodyView { too_large: true, skipping: !complete, ..self },
                    wire::discarded(buf),
                    going,
                ),
                LineTakeView::Need => (self, buf, Received::Wait),
            }
        }
    }
}

/// A message body that is being received.
pub struct Body {
    lines: Vec<String>,
    total: usize,
    too_large: bool,
    skipping: bool,
}

impl View for Body {
    type V = BodyView;

    closed spec fn view(&self) -> BodyView {
        BodyView {
            lines: text::views(self.lines@),
            total: self.total as nat,
            too_large: self.too_large,
            skipping: self.skipping,
        }
    }
}

impl Body {
    /// A body of which nothing has arrived.
    pub fn new() -> (b: Self)
        ensures
            b@ == BodyView::empty(),
    {
        let b = Body { lines: Vec::new(), total: 0, too_large: false, skipping: false };
        assert(b@ =~= BodyView::empty());
        b
    }

    /// The lines, unless the body is too large.
    pub fn into_lines(self) -> (lines: Option<Vec<String>>)
        ensures
            match lines {
                Some(v) => !self@.too_large && text::views(v@) == self@.lines,
                None => self@.too_large,
            },
    {
        if self.too_large {
            None
        } else {
            Some(self.lines)
        }
    }

    /// Add a line, unless the body gets too large.
    fn add_line(&mut self, line: &str, max: usize)
        ensures
            final(self)@ == old(self)@.with_line(line@, max as nat),
    {
        if self.too_large {
            return;
        }
        let n: usize = line.as_bytes().len();
        let sum = match self.total.checked_add(n) {
            None => None,
            Some(t) => t.checked_add(1),
        };
        match sum {
            Some(total) if total <= max => {
                self.lines.push(line.to_string());
                self.total = total;
                assert(self@.lines =~= old(self)@.lines.push(line@));
            },
            _ => {
                self.too_large = true;
            },
        }
        assert(self@ =~= old(self)@.with_line(line@, max as nat));
    }

    /// Take the next line off a read buffer, if there is one: it is un-stuffed
    /// and counted against the limits. A body that is too large is still drained
    /// to its terminator, so the stream stays framed.
    pub fn receive(&mut self, buf: &mut Vec<u8>, limits: &Limits) -> (got: Received)
        ensures
            old(self)@.received(old(buf)@, *limits) == (final(self)@, final(buf)@, got),
    {
        if self.skipping {
            let complete = wire::discard_line(buf);
            self.skipping = !complete;
            return if complete {
                Received::More
            } else {
                Received::Wait
            };
        }
        let buffered = buf.len();
        proof {
            wire::lemma_find_lf(buf@);
        }
        match wire::take_line(buf, limits.max_body_line_bytes) {
            LineTake::Line(line) => {
                let text = text::utf8_lossy(line.as_slice());
                if text::str_eq(text.as_str(), frame::TERMINATOR) {
                    Received::End
                } else {
                    self.add_line(frame::unstuff_line(text.as_str()), limits.max_message_bytes);
                    Received::More
                }
            },
            LineTake::TooLong => {
                // An over-long line that is complete was taken off the buffer;
                // of one that is not, the rest is still to come.
                self.too_large = true;
                if buf.len() < buffered {
                    Received::More
                } else {
                    buf.clear();
                    self.skipping = true;
                    Received::Wait
                }
            },
            LineTake::Need => Received::Wait,
        }
    }
}

// --- laws --------------------------------------------------------------------------------

/// Whether a body line is longer on the wire than a line may be.
pub open spec fn overlong(line: Seq<char>, limits: Limits) -> bool {
    encode_utf8(frame::stuffed(line)).len() > limits.max_body_line_bytes
}

/// The octets that body lines count against the limit on a message.
pub open spec fn body_size(lines: Seq<Seq<char>>) -> nat
    decreases lines.len(),
{
    if lines.len() == 0 {
        0
    } else {
        encode_utf8(lines[0]).len() + 1 + body_size(lines.drop_first())
    }
}

/// Whether body lines are all within the limits.
pub open spec fn within(lines: Seq<Seq<char>>, limits: Limits) -> bool {
    &&& body_size(lines) <= limits.max_message_bytes
    &&& forall|i: int| 0 <= i < lines.len() ==> !overlong(#[trigger] lines[i], limits)
}

/// Whether no body line holds a line feed.
pub open spec fn single_lines(lines: Seq<Seq<char>>) -> bool {
    forall|i: int| 0 <= i < lines.len() ==> !frame::stuffed(#[trigger] lines[i]).contains('\n')
}

/// What becomes of a body as lines are received.
pub open spec fn collected(b: BodyView, lines: Seq<Seq<char>>, limits: Limits) -> BodyView
    decreases lines.len(),
{
    if lines.len() == 0 {
        b
    } else if overlong(lines[0], limits) {
        collected(BodyView { too_large: true, ..b }, lines.drop_first(), limits)
    } else {
        collected(
            b.with_line(lines[0], limits.max_message_bytes as nat),
            lines.drop_first(),
            limits,
        )
    }
}

/// Lines are collected from the first on.
pub proof fn lemma_collected_first(b: BodyView, lines: Seq<Seq<char>>, limits: Limits)
    requires
        lines.len() > 0,
    ensures
        collected(b, lines, limits) == collected(
            collected(b, seq![lines[0]], limits),
            lines.drop_first(),
            limits,
        ),
{
    let one = seq![lines[0]];
    assert(one.drop_first() =~= Seq::<Seq<char>>::empty());
    let b1 = if overlong(lines[0], limits) {
        BodyView { too_large: true, ..b }
    } else {
        b.with_line(lines[0], limits.max_message_bytes as nat)
    };
    assert(collected(b1, one.drop_first(), limits) == b1);
    assert(collected(b, one, limits) == b1);
}

/// A line of a DATA block is taken off the buffer, and what follows it stays.
pub proof fn body_line_is_received(
    b: BodyView,
    line: Seq<char>,
    rest: Seq<char>,
    limits: Limits,
)
    requires
        !b.skipping,
        !frame::stuffed(line).contains('\n'),
    ensures
        b.received(encode_utf8(frame::stuffed(line) + frame::CRLF@ + rest), limits) == (
            collected(b, seq![line], limits),
            encode_utf8(rest),
            Received::More,
        ),
{
    wire::sent_line_is_first_line(frame::stuffed(line), rest);
    frame::stuffed_line_is_no_terminator(line);
    frame::stuffing_round_trip(line);
    let one = seq![line];
    assert(one.drop_first() =~= Seq::<Seq<char>>::empty());
    assert(one[0] == line);
    let b1 = if overlong(line, limits) {
        BodyView { too_large: true, ..b }
    } else {
        b.with_line(line, limits.max_message_bytes as nat)
    };
    assert(collected(b1, one.drop_first(), limits) == b1);
}

/// The terminator of a DATA block ends the body.
pub proof fn terminator_is_received(b: BodyView, rest: Seq<char>, limits: Limits)
    requires
        !b.skipping,
        limits.max_body_line_bytes >= 1,
    ensures
        b.received(encode_utf8(frame::TERMINATOR@ + frame::CRLF@ + rest), limits) == (
            b,
            encode_utf8(rest),
            Received::End,
        ),
{
    reveal_strlit(".");
    let dot = frame::TERMINATOR@;
    assert(dot =~= seq!['.']);
    is_ascii_chars_encode_utf8(dot);
    wire::sent_line_is_first_line(dot, rest);
}

/// Within the limits a body is collected whole; over one of them, and only then,
/// it is too large.
pub proof fn too_large_is_over_a_limit(b: BodyView, lines: Seq<Seq<char>>, limits: Limits)
    requires
        !b.too_large,
        b.total <= limits.max_message_bytes,
    ensures
        ({
            let after = collected(b, lines, limits);
            &&& after.skipping == b.skipping
            &&& after.too_large <==> b.total + body_size(lines) > limits.max_message_bytes
                || exists|i: int| 0 <= i < lines.len() && overlong(#[trigger] lines[i], limits)
            &&& !after.too_large ==> after.lines == b.lines + lines
        }),
    decreases lines.len(),
{
    if lines.len() == 0 {
        assert(b.lines + lines =~= b.lines);
    } else {
        let tail = lines.drop_first();
        if overlong(lines[0], limits) {
            lemma_stays_too_large(BodyView { too_large: true, ..b }, tail, limits);
        } else {
            let b1 = b.with_line(lines[0], limits.max_message_bytes as nat);
            if b1.too_large {
                lemma_stays_too_large(b1, tail, limits);
            } else {
                too_large_is_over_a_limit(b1, tail, limits);
                assert(b1.lines + tail =~= b.lines + lines);
                if exists|i: int| 0 <= i < tail.len() && overlong(#[trigger] tail[i], limits) {
                    let i = choose|i: int|
                        0 <= i < tail.len() && overlong(#[trigger] tail[i], limits);
                    assert(lines[i + 1] == tail[i]);
                }
                if exists|i: int| 0 <= i < lines.len() && overlong(#[trigger] lines[i], limits) {
                    let i = choose|i: int|
                        0 <= i < lines.len() && overlong(#[trigger] lines[i], limits);
                    assert(tail[i - 1] == lines[i]);
                }
            }
        }
    }
}

proof fn lemma_stays_too_large(b: BodyView, lines: Seq<Seq<char>>, limits: Limits)
    requires
        b.too_large,
    ensures
        collected(b, lines, limits).too_large,
        collected(b, lines, limits).skipping == b.skipping,
    decreases lines.len(),
{
    if lines.len() > 0 {
        let b1 = if overlong(lines[0], limits) {
            BodyView { too_large: true, ..b }
        } else {
            b.with_line(lines[0], limits.max_message_bytes as nat)
        };
        lemma_stays_too_large(b1, lines.drop_first(), limits);
    }
}

/// What becomes of a body, and of a buffer, when lines are taken off it until it
/// is used up or the body is complete.
pub open spec fn drained(b: BodyView, buf: Seq<u8>, limits: Limits) -> (BodyView, Seq<u8>, Received)
    decreases buf.len(),
{
    let (next, rest, got) = b.received(buf, limits);
    if got == Received::More && rest.len() < buf.len() {
        drained(next, rest, limits)
    } else {
        (next, rest, got)
    }
}

/// A line that was taken is gone from the buffer.
pub proof fn lemma_received_shrinks(b: BodyView, buf: Seq<u8>, limits: Limits)
    ensures
        b.received(buf, limits).2 != Received::Wait ==> wire::find_lf(buf) < buf.len()
            && b.received(buf, limits).1 == wire::after_line(buf) && b.received(buf, limits).1.len()
            < buf.len(),
{
    wire::lemma_find_lf(buf);
}

/// One line of a body does not depend on how the input was split: one that is
/// complete is received as it is whatever follows; and where more input is
/// needed, the body goes on as if all of it had come at once.
pub proof fn body_line_does_not_depend_on_pieces(
    b: BodyView,
    buf: Seq<u8>,
    more: Seq<u8>,
    limits: Limits,
)
    ensures
        ({
            let (next, rest, got) = b.received(buf, limits);
            if got == Received::Wait {
                b.received(buf + more, limits) == next.received(rest + more, limits)
            } else {
                b.received(buf + more, limits) == (next, rest + more, got)
            }
        }),
{
    let max = limits.max_body_line_bytes as nat;
    let (next, rest, got) = b.received(buf, limits);
    wire::lines_do_not_depend_on_pieces(buf, more, max);
    wire::lemma_find_lf_on(buf, more);
    wire::lemma_find_lf(buf);
    wire::lemma_find_lf(more);
    let k = wire::find_lf(buf) as int;
    let j = wire::find_lf(more) as int;
    let all = buf + more;
    if k < buf.len() {
        assert(all.skip(k + 1) =~= buf.skip(k + 1) + more);
    } else {
        assert(Seq::<u8>::empty() + more =~= more);
        if j < more.len() {
            assert(all.skip(k + j + 1) =~= more.skip(j + 1));
        }
    }
}

/// A body reads back however its input was split into pieces: the lines, whether
/// it is too large, whether it is complete and what remains of the buffer are the
/// same as if all the input had come at once.
pub proof fn body_does_not_depend_on_pieces(
    b: BodyView,
    buf: Seq<u8>,
    more: Seq<u8>,
    limits: Limits,
)
    ensures
        ({
            let (next, rest, got) = drained(b, buf, limits);
            if got == Received::Wait {
                drained(b, buf + more, limits) == drained(next, rest + more, limits)
            } else {
                drained(b, buf + more, limits) == (next, rest + more, got)
            }
        }),
    decreases buf.len(),
{
    let (next, rest, got) = b.received(buf, limits);
    lemma_received_shrinks(b, buf, limits);
    lemma_received_shrinks(b, buf + more, limits);
    lemma_received_shrinks(next, rest + more, limits);
    body_line_does_not_depend_on_pieces(b, buf, more, limits);
    if got == Received::More {
        body_does_not_depend_on_pieces(next, rest, more, limits);
    }
}

/// What becomes of a body whose input comes in pieces, each of them drained before
/// the next one comes. What follows the end of the body stays.
pub open spec fn drained_in_pieces(
    b: BodyView,
    buf: Seq<u8>,
    pieces: Seq<Seq<u8>>,
    limits: Limits,
) -> (BodyView, Seq<u8>, Received)
    decreases pieces.len(),
{
    let (next, rest, got) = drained(b, buf, limits);
    if pieces.len() == 0 {
        (next, rest, got)
    } else if got == Received::End {
        (next, rest + pieces.flatten(), got)
    } else {
        drained_in_pieces(next, rest + pieces.first(), pieces.drop_first(), limits)
    }
}

/// Draining ends at the end of the body or of the input.
proof fn lemma_drained_ends(b: BodyView, buf: Seq<u8>, limits: Limits)
    ensures
        drained(b, buf, limits).2 != Received::More,
    decreases buf.len(),
{
    lemma_received_shrinks(b, buf, limits);
    let (next, rest, got) = b.received(buf, limits);
    if got == Received::More {
        lemma_drained_ends(next, rest, limits);
    }
}

/// A body reads back however many pieces its input comes in.
pub proof fn body_in_pieces_is_the_whole(
    b: BodyView,
    buf: Seq<u8>,
    pieces: Seq<Seq<u8>>,
    limits: Limits,
)
    ensures
        drained_in_pieces(b, buf, pieces, limits) == drained(b, buf + pieces.flatten(), limits),
    decreases pieces.len(),
{
    let (next, rest, got) = drained(b, buf, limits);
    lemma_drained_ends(b, buf, limits);
    body_does_not_depend_on_pieces(b, buf, pieces.flatten(), limits);
    if pieces.len() == 0 {
        assert(buf + pieces.flatten() =~= buf);
    } else if got == Received::Wait {
        let tail = pieces.drop_first();
        body_in_pieces_is_the_whole(next, rest + pieces.first(), tail, limits);
        assert((rest + pieces.first()) + tail.flatten() =~= rest + pieces.flatten());
    }
}

/// The DATA block of a body that is sent ahead of anything else is drained to its
/// end, exactly, and gives the lines of the body.
pub proof fn block_is_drained(
    b: BodyView,
    lines: Seq<Seq<char>>,
    rest: Seq<char>,
    limits: Limits,
)
    requires
        !b.skipping,
        limits.max_body_line_bytes >= 1,
        single_lines(lines),
    ensures
        drained(b, encode_utf8(frame::block(lines) + rest), limits) == (
            collected(b, lines, limits),
            encode_utf8(rest),
            Received::End,
        ),
    decreases lines.len(),
{
    let buf = frame::block(lines) + rest;
    lemma_received_shrinks(b, encode_utf8(buf), limits);
    if lines.len() == 0 {
        assert(buf =~= frame::TERMINATOR@ + frame::CRLF@ + rest);
        terminator_is_received(b, rest, limits);
    } else {
        let tail = lines.drop_first();
        let more = frame::block(tail) + rest;
        frame::lemma_stuffed_lines(lines);
        assert(buf =~= frame::stuffed(lines[0]) + frame::CRLF@ + more);
        body_line_is_received(b, lines[0], more, limits);
        lemma_collected_first(b, lines, limits);
        let next = collected(b, seq![lines[0]], limits);
        assert(next.skipping == b.skipping) by {
            assert(seq![lines[0]].drop_first() =~= Seq::<Seq<char>>::empty());
            let b1 = if overlong(lines[0], limits) {
                BodyView { too_large: true, ..b }
            } else {
                b.with_line(lines[0], limits.max_message_bytes as nat)
            };
            assert(collected(b1, seq![lines[0]].drop_first(), limits) == b1);
        }
        assert forall|i: int| 0 <= i < tail.len() implies !frame::stuffed(
            #[trigger] tail[i],
        ).contains('\n') by {
            assert(tail[i] == lines[i + 1]);
        }
        block_is_drained(next, tail, rest, limits);
    }
}

/// A body that is sent as a DATA block reads back, however its input was split
/// into pieces: within the limits the same lines in the same order, over one of
/// them as too large, and in either case exactly the block is used up.
pub proof fn sent_body_reads_back(
    lines: Seq<Seq<char>>,
    rest: Seq<char>,
    pieces: Seq<Seq<u8>>,
    limits: Limits,
)
    requires
        limits.max_body_line_bytes >= 1,
        single_lines(lines),
        pieces.flatten() == encode_utf8(frame::block(lines) + rest),
    ensures
        ({
            let (b, left, got) = drained_in_pieces(
                BodyView::empty(),
                Seq::empty(),
                pieces,
                limits,
            );
            &&& got == Received::End
            &&& left == encode_utf8(rest)
            &&& b.too_large <==> !within(lines, limits)
            &&& within(lines, limits) ==> b.lines == lines
        }),
{
    let b = BodyView::empty();
    body_in_pieces_is_the_whole(b, Seq::empty(), pieces, limits);
    assert(Seq::<u8>::empty() + pieces.flatten() =~= pieces.flatten());
    block_is_drained(b, lines, rest, limits);
    too_large_is_over_a_limit(b, lines, limits);
    assert(b.lines + lines =~= lines);
}

/// What a line does to a body. A single dot ends it. Any other is a line of it, of
/// which the first of two leading dots is taken off: it is added behind the others,
/// and counts its octets and one more, unless that is over the limit for a message,
/// which makes the body too large. A body that is too large takes no more lines. A
/// line over the limit for lines makes it too large as well, and so does such a line
/// whose end has not arrived; what is left of that is skipped. An incomplete line
/// within the limit is awaited.
pub proof fn lines_of_a_body(b: BodyView, line: Seq<u8>, rest: Seq<u8>, limits: Limits)
    requires
        !line.contains(10u8),
    ensures
        ({
            let bare = if line.len() > 0 && line.last() == 13u8 {
                line.drop_last()
            } else {
                line
            };
            let long = bare.len() > limits.max_body_line_bytes;
            let said = text::lossy(bare);
            let kept = if said.len() > 1 && said[0] == '.' && said[1] == '.' {
                said.skip(1)
            } else {
                said
            };
            let total = b.total + encode_utf8(kept).len() + 1;
            let (whole, left, got) = b.received(line + seq![10u8] + rest, limits);
            let (part, over, so_far) = b.received(line, limits);
            &&& left == rest
            &&& got == if !b.skipping && !long && said == "."@ {
                Received::End
            } else {
                Received::More
            }
            &&& !whole.skipping
            &&& b.skipping || long || said == "."@ ==> whole.lines == b.lines && whole.total
                == b.total
            &&& b.skipping || (!long && said == "."@) ==> whole.too_large == b.too_large
            &&& !b.skipping && long ==> whole.too_large
            &&& !b.skipping && !long && said != "."@ ==> {
                &&& b.too_large ==> whole == b
                &&& !b.too_large && total > limits.max_message_bytes ==> whole.too_large
                    && whole.lines == b.lines && whole.total == b.total
                &&& !b.too_large && total <= limits.max_message_bytes ==> !whole.too_large
                    && whole.lines == b.lines + seq![kept] && whole.total == total
            }
            &&& so_far == Received::Wait
            &&& part.lines == b.lines && part.total == b.total
            &&& part.skipping == (b.skipping || long)
            &&& part.too_large == (b.too_large || (!b.skipping && long))
            &&& part.skipping ==> over.len() == 0
            &&& !part.skipping ==> over == line
        }),
{
    let buf = line + seq![10u8] + rest;
    let k = line.len() as int;
    assert forall|i: int| 0 <= i < k implies buf[i] != 10u8 && line[i] != 10u8 by {
        assert(buf[i] == line[i]);
        assert(line.contains(line[i]));
    }
    assert(buf[k] == 10u8);
    wire::lemma_find_lf_is(buf, k);
    wire::lemma_find_lf_is(line, k);
    assert(buf.take(k) =~= line);
    assert(buf.skip(k + 1) =~= rest);
    let said = text::lossy(wire::strip_cr(line));
    if said.len() > 0 {
        assert(said.skip(1) =~= said.drop_first());
    }
    assert(b.lines.push(frame::unstuffed(said)) =~= b.lines + seq![frame::unstuffed(said)]);
}

} // verus!
