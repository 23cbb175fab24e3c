//! What a client reads does not depend on how its input was split.
use vstd::prelude::*;

use crate::client;
use crate::client::ClientView;
use crate::client::Read;
use crate::client::UnitView;
use crate::frame;
use crate::status::Code;
use crate::wire;

verus! {

broadcast use vstd::string::group_string_axioms;

/// What was read off a buffer, with more input behind it.
pub open spec fn followed<T>(r: Read<T>, more: Seq<u8>) -> Read<T> {
    match r {
        Read::Done(x, rest) => Read::Done(x, rest + more),
        Read::Fail(e, rest) => Read::Fail(e, rest + more),
        Read::Need => Read::Need,
    }
}

proof fn lemma_line_on(buf: Seq<u8>, more: Seq<u8>, max: nat)
    ensures
        !(client::line_read(buf, max) is Need) ==> client::line_read(buf + more, max) == followed(
            client::line_read(buf, max),
            more,
        ),
        client::line_read(buf, max) matches Read::Done(_, rest) ==> rest.len() < buf.len(),
{
    wire::lemma_find_lf(buf);
    wire::lemma_find_lf(more);
    wire::lemma_find_lf_on(buf, more);
    let all = buf + more;
    let k = wire::find_lf(buf) as int;
    if k > max {
        assert(all.skip(max as int + 1) =~= buf.skip(max as int + 1) + more);
    } else if k < buf.len() {
        assert(all.take(k) =~= buf.take(k));
        assert(all.skip(k + 1) =~= buf.skip(k + 1) + more);
    }
}

proof fn lemma_block_on(buf: Seq<u8>, more: Seq<u8>, max: nat)
    ensures
        !(client::block_read(buf, max) is Need) ==> client::block_read(buf + more, max) == followed(
            client::block_read(buf, max),
            more,
        ),
    decreases buf.len(),
{
    lemma_line_on(buf, more, max);
    if let Read::Done(line, rest) = client::line_read(buf, max) {
        if line != frame::TERMINATOR@ {
            lemma_block_on(rest, more, max);
        }
    }
}

proof fn lemma_push_on(code: Code, header: Seq<char>, buf: Seq<u8>, more: Seq<u8>, max: nat)
    ensures
        !(client::push_read(code, header, buf, max) is Need) ==> client::push_read(
            code,
            header,
            buf + more,
            max,
        ) == followed(client::push_read(code, header, buf, max), more),
{
    lemma_block_on(buf, more, max);
}

/// What a server sends as one unit is read as it is whatever follows, and leaves
/// that behind it.
pub proof fn units_do_not_depend_on_pieces(buf: Seq<u8>, more: Seq<u8>, max: nat)
    ensures
        !(client::unit_read(buf, max) is Need) ==> client::unit_read(buf + more, max) == followed(
            client::unit_read(buf, max),
            more,
        ),
{
    lemma_line_on(buf, more, max);
    if let Read::Done(line, rest) = client::line_read(buf, max) {
        if let Ok((code, header)) = client::status_of(line) {
            lemma_push_on(code, header, rest, more, max);
            lemma_block_on(rest, more, max);
        }
    }
}

/// The client once more input has come.
pub open spec fn with_input(c: ClientView, more: Seq<u8>) -> ClientView {
    ClientView { rbuf: c.rbuf + more, ..c }
}

/// An exchange does not depend on how its input was split: where more input is
/// needed, it goes on as if all of it had been there at once, and where it is not,
/// what comes later changes nothing.
pub proof fn exchange_does_not_depend_on_pieces(c: ClientView, more: Seq<u8>)
    requires
        !c.eof,
        !(c.exchange is Idle),
    ensures
        ({
            let (next, p) = c.polled();
            with_input(c, more).polled() == (if p is Read {
                with_input(next, more).polled()
            } else {
                (with_input(next, more), p)
            })
        }),
    decreases c.rbuf.len(),
{
    if c.exchange is Greeting {
        lemma_line_on(c.rbuf, more, c.max_line);
    } else {
        client::lemma_unit_read(c.rbuf, c.max_line);
        client::lemma_unit_read(c.rbuf + more, c.max_line);
        units_do_not_depend_on_pieces(c.rbuf, more, c.max_line);
        if let Read::Done(UnitView::Push(ev), rest) = client::unit_read(c.rbuf, c.max_line) {
            let kept = ClientView { rbuf: rest, pending: c.pending.push(ev), ..c };
            exchange_does_not_depend_on_pieces(kept, more);
            assert(c.responded() == kept.responded());
            assert(with_input(c, more).responded() == with_input(kept, more).responded());
        }
    }
}

/// Awaiting a push does not depend on how the input was split either.
pub proof fn events_do_not_depend_on_pieces(c: ClientView, more: Seq<u8>)
    requires
        !c.eof,
    ensures
        ({
            let (next, ev) = c.evented();
            with_input(c, more).evented() == (if ev is None {
                with_input(next, more).evented()
            } else {
                (with_input(next, more), ev)
            })
        }),
{
    lemma_line_on(c.rbuf, more, c.max_line);
    if let Read::Done(line, rest) = client::line_read(c.rbuf, c.max_line) {
        if let Ok((code, header)) = client::status_of(line) {
            lemma_push_on(code, header, rest, more, c.max_line);
        }
    }
}

} // verus!
