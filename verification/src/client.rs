//! The client side of a connection.
//!
//! A [`Client`] exposes request/response commands ([`Client::register`],
//! [`Client::publish`], [`Client::subscribe`], ...) and [`Client::next_event`]
//! for server-initiated `1xx` pushes (delivered messages, drop notices, notes).
//! It does no input or output of its own: its owner writes what a command
//! returns, hands over the bytes that arrive ([`Client::feed`]) and asks for the
//! outcome ([`Client::poll`]).
//!
//! Commands and `next_event` share the one connection. Any `1xx` push seen while
//! awaiting a command's reply is kept and later returned by `next_event`.
use std::collections::VecDeque;

use vstd::prelude::*;
use vstd::slice::slice_subrange;
use vstd::utf8::*;

use crate::command::CommandView;
use crate::frame;
use crate::message::Message;
use crate::message::MessageView;
use crate::number;
use crate::reply::Reply;
use crate::reply::ReplyView;
use crate::status;
use crate::status::Code;
use crate::text;
use crate::wire;

verus! {

broadcast use vstd::string::group_string_axioms;

/// Default cap on a single received line.
pub const DEFAULT_MAX_LINE: usize = 131072;

/// An asynchronous, server-initiated event (a `1xx` push).
#[derive(Debug, Clone, PartialEq, Eq)]
pub enum Event {
    /// A delivered message (`101 MSG`).
    Message(Message),
    /// A slow-consumer tail-drop notice (`102 DROP`).
    Drop {
        /// The message type messages were dropped for.
        msg_type: String,
        /// How many were dropped since the previous notice for this type.
        count: u64,
    },
    /// A free-form informational note (`190 NOTE`).
    Note(String),
}

/// The model of an [`Event`].
pub enum EventView {
    Message(MessageView),
    Drop { msg_type: Seq<char>, count: u64 },
    Note(Seq<char>),
}

impl View for Event {
    type V = EventView;

    open spec fn view(&self) -> EventView {
        match self {
            Event::Message(m) => EventView::Message(m@),
            Event::Drop { msg_type, count } => EventView::Drop {
                msg_type: msg_type@,
                count: *count,
            },
            Event::Note(s) => EventView::Note(s@),
        }
    }
}

/// Errors returned by the client.
#[derive(Debug, Clone, PartialEq, Eq)]
pub enum ClientError {
    /// Underlying IO error, in words.
    Io(String),
    /// The server closed the connection unexpectedly.
    Closed,
    /// The server returned a `4xx`/`5xx` error for a command.
    Server {
        /// The MBP status code.
        code: Code,
        /// The reason text.
        text: String,
    },
    /// The server sent a response that violates the protocol.
    Protocol(String),
}

/// The model of a [`ClientError`].
pub enum ClientErrorView {
    Io(Seq<char>),
    Closed,
    Server { code: Code, text: Seq<char> },
    Protocol(Seq<char>),
}

impl View for ClientError {
    type V = ClientErrorView;

    open spec fn view(&self) -> ClientErrorView {
        match self {
            ClientError::Io(s) => ClientErrorView::Io(s@),
            ClientError::Closed => ClientErrorView::Closed,
            ClientError::Server { code, text } => ClientErrorView::Server {
                code: *code,
                text: text@,
            },
            ClientError::Protocol(s) => ClientErrorView::Protocol(s@),
        }
    }
}

impl ClientErrorView {
    /// The error in words.
    pub open spec fn text(self) -> Seq<char> {
        match self {
            ClientErrorView::Io(s) => "io error: "@ + s,
            ClientErrorView::Closed => "connection closed by server"@,
            ClientErrorView::Server { code, text } => "server error "@ + number::decimal(
                code as nat,
            ) + ": "@ + text,
            ClientErrorView::Protocol(s) => "protocol error: "@ + s,
        }
    }
}

impl ClientError {
    /// The error in words.
    pub fn to_text(&self) -> (s: String)
        ensures
            s@ == self@.text(),
    {
        match self {
            ClientError::Io(s) => "io error: ".to_string().concat(s.as_str()),
            ClientError::Closed => "connection closed by server".to_string(),
            ClientError::Server { code, text } => "server error ".to_string().concat(
                number::to_decimal(*code as u64).as_str(),
            ).concat(": ").concat(text.as_str()),
            ClientError::Protocol(s) => "protocol error: ".to_string().concat(s.as_str()),
        }
    }
}

// --- status lines ------------------------------------------------------------------

/// A protocol error that quotes a line.
pub open spec fn quoting(what: Seq<char>, line: Seq<char>) -> ClientErrorView {
    ClientErrorView::Protocol(what + line)
}

/// What follows the code of a status line and the one character after it. A
/// character there that is not ASCII counts as no text.
pub open spec fn status_rest(line: Seq<char>) -> Seq<char> {
    if line.len() >= 4 && line[3] <= '\u{7f}' {
        line.skip(4)
    } else {
        Seq::empty()
    }
}

/// The code and text of a status line.
pub open spec fn status_of(line: Seq<char>) -> Result<(Code, Seq<char>), ClientErrorView> {
    if encode_utf8(line).len() < 3 {
        Err(quoting("short response line: "@, text::debug_text(line)))
    } else {
        match number::parse_digits(line.take(3), 65535) {
            Some(n) if line.len() >= 3 => Ok((n as Code, status_rest(line))),
            _ => Err(quoting("non-numeric status: "@, text::debug_text(line))),
        }
    }
}

/// Split `"<code> <text>"` into `(code, text)`.
pub fn split_status(line: &str) -> (r: Result<(Code, String), ClientError>)
    ensures
        match r {
            Ok((code, text)) => status_of(line@) == Ok::<_, ClientErrorView>((code, text@)),
            Err(e) => status_of(line@) == Err::<(Code, Seq<char>), _>(e@),
        },
{
    if line.as_bytes().len() < 3 {
        return Err(
            ClientError::Protocol(
                "short response line: ".to_string().concat(text::debug_str(line).as_str()),
            ),
        );
    }
    let chars = text::to_chars(line);
    if chars.len() >= 3 {
        let head = text::from_chars(&chars, 0, 3);
        assert(head@ =~= line@.take(3));
        if let Some(n) = number::read_digits(head.as_str(), 65535) {
            let rest = if chars.len() >= 4 && chars[3] <= '\u{7f}' {
                assert(line@.skip(4) =~= line@.subrange(4, line@.len() as int));
                text::from_chars(&chars, 4, chars.len())
            } else {
                String::new()
            };
            return Ok((n as Code, rest));
        }
    }
    Err(
        ClientError::Protocol(
            "non-numeric status: ".to_string().concat(text::debug_str(line).as_str()),
        ),
    )
}

// --- reading off the buffer ------------------------------------------------------------

/// What reading something off the front of a buffer gives: the thing, or an
/// error, with what remains of the buffer; or that more input is needed.
pub enum Read<T> {
    Done(T, Seq<u8>),
    Fail(ClientErrorView, Seq<u8>),
    Need,
}

/// Read a line, not longer than `max` with its carriage return. Of a longer line
/// one octet beyond the limit is consumed.
pub open spec fn line_read(buf: Seq<u8>, max: nat) -> Read<Seq<char>> {
    let k = wire::find_lf(buf);
    if k > max {
        Read::Fail(ClientErrorView::Protocol("line too long"@), buf.skip(max as int + 1))
    } else if k < buf.len() {
        Read::Done(text::lossy(wire::first_line(buf)), wire::after_line(buf))
    } else {
        Read::Need
    }
}

/// Put lines in front of what was read.
pub open spec fn after_lines(lines: Seq<Seq<char>>, r: Read<Seq<Seq<char>>>) -> Read<
    Seq<Seq<char>>,
> {
    match r {
        Read::Done(more, rest) => Read::Done(lines + more, rest),
        Read::Fail(e, rest) => Read::Fail(e, rest),
        Read::Need => Read::Need,
    }
}

/// Read a dot-terminated block, un-stuffing each line.
pub open spec fn block_read(buf: Seq<u8>, max: nat) -> Read<Seq<Seq<char>>>
    decreases buf.len(),
    via block_read_decreases
{
    match line_read(buf, max) {
        Read::Done(line, rest) => if line == frame::TERMINATOR@ {
            Read::Done(Seq::empty(), rest)
        } else {
            after_lines(seq![frame::unstuffed(line)], block_read(rest, max))
        },
        Read::Fail(e, rest) => Read::Fail(e, rest),
        Read::Need => Read::Need,
    }
}

#[via_fn]
proof fn block_read_decreases(buf: Seq<u8>, max: nat) {
    wire::lemma_find_lf(buf);
}

/// The piece of a header at an index, empty where there is none.
pub open spec fn piece(header: Seq<char>, i: int) -> Seq<char> {
    let pieces = text::split(header, ' ');
    if i < pieces.len() {
        pieces[i]
    } else {
        Seq::empty()
    }
}

/// A note's text, without the keyword where it stands.
pub open spec fn note_text(header: Seq<char>) -> Seq<char> {
    if "NOTE "@.is_prefix_of(header) {
        header.skip("NOTE "@.len() as int)
    } else {
        header
    }
}

/// Read a `1xx` push whose header, after the code, is given: the body of a
/// `101 MSG` comes off the buffer.
pub open spec fn push_read(code: Code, header: Seq<char>, buf: Seq<u8>, max: nat) -> Read<
    EventView,
> {
    if code == status::MSG {
        if piece(header, 0) != "MSG"@ {
            Read::Fail(quoting("bad 101 header: "@, header), buf)
        } else if piece(header, 1).len() == 0 || piece(header, 2).len() == 0 || piece(
            header,
            3,
        ).len() == 0 {
            Read::Fail(quoting("incomplete 101 header: "@, header), buf)
        } else {
            match block_read(buf, max) {
                Read::Done(body, rest) => Read::Done(
                    EventView::Message(
                        MessageView {
                            msg_type: piece(header, 1),
                            msg_id: piece(header, 2),
                            origin: piece(header, 3),
                            body,
                        },
                    ),
                    rest,
                ),
                Read::Fail(e, rest) => Read::Fail(e, rest),
                Read::Need => Read::Need,
            }
        }
    } else if code == status::DROP {
        if piece(header, 0) != "DROP"@ {
            Read::Fail(quoting("bad 102 header: "@, header), buf)
        } else {
            match number::parse_digits(piece(header, 2), u64::MAX as nat) {
                Some(n) => Read::Done(
                    EventView::Drop { msg_type: piece(header, 1), count: n as u64 },
                    buf,
                ),
                None => Read::Fail(quoting("bad 102 count: "@, header), buf),
            }
        }
    } else if code == status::NOTE {
        Read::Done(EventView::Note(note_text(header)), buf)
    } else {
        Read::Fail(
            ClientErrorView::Protocol("unknown 1xx code "@ + number::decimal(code as nat)),
            buf,
        )
    }
}

/// What the server sends as one unit: a push, or the reply to a command.
pub enum UnitView {
    Push(EventView),
    Reply(ReplyView),
}

/// Whether a dot-terminated block follows a reply with this code.
pub open spec fn has_block(code: Code) -> bool {
    code == status::TYPE_LIST || code == status::INFO_FOLLOWS
}

/// Read the unit whose status line is given.
pub open spec fn unit_after(code: Code, header: Seq<char>, buf: Seq<u8>, max: nat) -> Read<
    UnitView,
> {
    if 100 <= code < 200 {
        match push_read(code, header, buf, max) {
            Read::Done(ev, rest) => Read::Done(UnitView::Push(ev), rest),
            Read::Fail(e, rest) => Read::Fail(e, rest),
            Read::Need => Read::Need,
        }
    } else if has_block(code) {
        match block_read(buf, max) {
            Read::Done(lines, rest) => Read::Done(
                UnitView::Reply(ReplyView::listing(code, header, lines)),
                rest,
            ),
            Read::Fail(e, rest) => Read::Fail(e, rest),
            Read::Need => Read::Need,
        }
    } else {
        Read::Done(UnitView::Reply(ReplyView::line(code, header)), buf)
    }
}

/// Read one unit.
pub open spec fn unit_read(buf: Seq<u8>, max: nat) -> Read<UnitView> {
    match line_read(buf, max) {
        Read::Done(line, rest) => match status_of(line) {
            Ok((code, header)) => unit_after(code, header, rest, max),
            Err(e) => Read::Fail(e, rest),
        },
        Read::Fail(e, rest) => Read::Fail(e, rest),
        Read::Need => Read::Need,
    }
}

/// Read a push, where nothing but a push may come.
pub open spec fn event_read(buf: Seq<u8>, max: nat) -> Read<EventView> {
    match line_read(buf, max) {
        Read::Done(line, rest) => match status_of(line) {
            Ok((code, header)) => if 100 <= code < 200 {
                push_read(code, header, rest, max)
            } else {
                Read::Fail(quoting("unexpected non-1xx line while awaiting a push: "@, line), rest)
            },
            Err(e) => Read::Fail(e, rest),
        },
        Read::Fail(e, rest) => Read::Fail(e, rest),
        Read::Need => Read::Need,
    }
}

/// Something read off a buffer, with the index where the rest starts.
enum At<T> {
    Done(T, usize),
    Fail(ClientError, usize),
    Need,
}

fn read_line(buf: &Vec<u8>, from: usize, max: usize) -> (r: At<String>)
    requires
        from <= buf@.len(),
    ensures
        match r {
            At::Done(line, to) => from < to <= buf@.len() && line_read(
                buf@.skip(from as int),
                max as nat,
            ) == Read::Done(line@, buf@.skip(to as int)),
            At::Fail(e, to) => from <= to <= buf@.len() && line_read(
                buf@.skip(from as int),
                max as nat,
            ) == Read::<Seq<char>>::Fail(e@, buf@.skip(to as int)),
            At::Need => line_read(buf@.skip(from as int), max as nat) is Need,
        },
{
    let ghost rest = buf@.skip(from as int);
    let mut k: usize = from;
    proof {
        wire::lemma_find_lf(rest);
    }
    while k < buf.len() && k - from <= max && buf[k] != wire::LF
        invariant
            from <= k <= buf.len(),
            rest == buf@.skip(from as int),
            k - from <= max + 1,
            forall|i: int| 0 <= i < k - from ==> rest[i] != wire::LF,
        decreases buf.len() - k,
    {
        assert(rest[k - from] == buf@[k as int]);
        k += 1;
    }
    if k - from > max {
        let ghost f = wire::find_lf(rest) as int;
        assert(f > max) by {
            if f <= max {
                assert(rest[f] != wire::LF);
            }
        }
        assert(rest.skip(max as int + 1) =~= buf@.skip(k as int));
        return At::Fail(ClientError::Protocol("line too long".to_string()), k);
    }
    if k == buf.len() {
        proof {
            wire::lemma_find_lf_is(rest, rest.len() as int);
        }
        return At::Need;
    }
    assert(rest[k - from] == buf@[k as int]);
    proof {
        wire::lemma_find_lf_is(rest, k - from);
    }
    let end: usize = if k > from && buf[k - 1] == wire::CR {
        k - 1
    } else {
        k
    };
    let bytes = slice_subrange(buf.as_slice(), from, end);
    assert(rest.take(k - from) =~= buf@.subrange(from as int, k as int));
    assert(bytes@ =~= wire::first_line(rest));
    assert(wire::after_line(rest) =~= buf@.skip(k + 1));
    At::Done(text::utf8_lossy(bytes), k + 1)
}

fn read_block(buf: &Vec<u8>, from: usize, max: usize) -> (r: At<Vec<String>>)
    requires
        from <= buf@.len(),
    ensures
        match r {
            At::Done(lines, to) => from <= to <= buf@.len() && block_read(
                buf@.skip(from as int),
                max as nat,
            ) == Read::Done(text::views(lines@), buf@.skip(to as int)),
            At::Fail(e, to) => from <= to <= buf@.len() && block_read(
                buf@.skip(from as int),
                max as nat,
            ) == Read::<Seq<Seq<char>>>::Fail(e@, buf@.skip(to as int)),
            At::Need => block_read(buf@.skip(from as int), max as nat) is Need,
        },
{
    let mut lines: Vec<String> = Vec::new();
    let mut at: usize = from;
    let ghost whole = block_read(buf@.skip(from as int), max as nat);
    proof {
        assert(text::views(lines@) =~= Seq::<Seq<char>>::empty());
        lemma_after_no_lines(whole);
    }
    loop
        invariant
            from <= at <= buf@.len(),
            whole == block_read(buf@.skip(from as int), max as nat),
            whole == after_lines(
                text::views(lines@),
                block_read(buf@.skip(at as int), max as nat),
            ),
        decreases buf@.len() - at,
    {
        match read_line(buf, at, max) {
            At::Need => return At::Need,
            At::Fail(e, to) => return At::Fail(e, to),
            At::Done(line, to) => {
                if text::str_eq(line.as_str(), frame::TERMINATOR) {
                    assert(text::views(lines@) + Seq::<Seq<char>>::empty() =~= text::views(
                        lines@,
                    ));
                    return At::Done(lines, to);
                }
                let body_line = frame::unstuff_line(line.as_str()).to_string();
                proof {
                    let rest = block_read(buf@.skip(to as int), max as nat);
                    assert(text::views(lines@.push(body_line)) =~= text::views(lines@) + seq![
                        body_line@,
                    ]);
                    lemma_after_lines(text::views(lines@), seq![body_line@], rest);
                }
                lines.push(body_line);
                at = to;
            },
        }
    }
}

proof fn lemma_after_no_lines(r: Read<Seq<Seq<char>>>)
    ensures
        after_lines(Seq::empty(), r) == r,
{
    if let Read::Done(lines, rest) = r {
        assert(Seq::<Seq<char>>::empty() + lines =~= lines);
    }
}

proof fn lemma_after_lines(a: Seq<Seq<char>>, b: Seq<Seq<char>>, r: Read<Seq<Seq<char>>>)
    ensures
        after_lines(a, after_lines(b, r)) == after_lines(a + b, r),
{
    if let Read::Done(lines, rest) = r {
        assert(a + (b + lines) =~= (a + b) + lines);
    }
}

/// The pieces of a header up to an index, empty ones where there are none.
fn take_piece(pieces: &Vec<String>, i: usize) -> (s: String)
    ensures
        s@ == (if i < pieces@.len() {
            text::views(pieces@)[i as int]
        } else {
            Seq::empty()
        }),
{
    if i < pieces.len() {
        pieces[i].clone()
    } else {
        String::new()
    }
}

fn protocol_error(what: &str, line: &str) -> (e: ClientError)
    ensures
        e@ == quoting(what@, line@),
{
    ClientError::Protocol(what.to_string().concat(line))
}

fn read_push(code: Code, header: &str, buf: &Vec<u8>, from: usize, max: usize) -> (r: At<Event>)
    requires
        from <= buf@.len(),
    ensures
        match r {
            At::Done(ev, to) => from <= to <= buf@.len() && push_read(
                code,
                header@,
                buf@.skip(from as int),
                max as nat,
            ) == Read::Done(ev@, buf@.skip(to as int)),
            At::Fail(e, to) => from <= to <= buf@.len() && push_read(
                code,
                header@,
                buf@.skip(from as int),
                max as nat,
            ) == Read::<EventView>::Fail(e@, buf@.skip(to as int)),
            At::Need => push_read(code, header@, buf@.skip(from as int), max as nat) is Need,
        },
{
    let pieces = text::split_on(header, ' ');
    let word = take_piece(&pieces, 0);
    if code == status::MSG {
        // "MSG <type> <msg-id> <origin>"
        if !text::str_eq(word.as_str(), "MSG") {
            return At::Fail(protocol_error("bad 101 header: ", header), from);
        }
        let msg_type = take_piece(&pieces, 1);
        let msg_id = take_piece(&pieces, 2);
        let origin = take_piece(&pieces, 3);
        if msg_type.as_str().is_empty() || msg_id.as_str().is_empty()
            || origin.as_str().is_empty() {
            return At::Fail(protocol_error("incomplete 101 header: ", header), from);
        }
        match read_block(buf, from, max) {
            At::Done(body, to) => At::Done(
                Event::Message(
                    Message::new(msg_type.as_str(), msg_id.as_str(), origin.as_str(), body),
                ),
                to,
            ),
            At::Fail(e, to) => At::Fail(e, to),
            At::Need => At::Need,
        }
    } else if code == status::DROP {
        // "DROP <type> <count>"
        if !text::str_eq(word.as_str(), "DROP") {
            return At::Fail(protocol_error("bad 102 header: ", header), from);
        }
        let msg_type = take_piece(&pieces, 1);
        let count = take_piece(&pieces, 2);
        match number::read_digits(count.as_str(), u64::MAX) {
            Some(count) => At::Done(Event::Drop { msg_type, count }, from),
            None => At::Fail(protocol_error("bad 102 count: ", header), from),
        }
    } else if code == status::NOTE {
        // "NOTE <text>": strip the keyword if present.
        let note = match text::after_prefix(header, "NOTE ") {
            Some(rest) => rest,
            None => header.to_string(),
        };
        At::Done(Event::Note(note), from)
    } else {
        At::Fail(
            protocol_error("unknown 1xx code ", number::to_decimal(code as u64).as_str()),
            from,
        )
    }
}

/// What the server sends as one unit.
enum Unit {
    Push(Event),
    Reply(Reply),
}

impl View for Unit {
    type V = UnitView;

    closed spec fn view(&self) -> UnitView {
        match self {
            Unit::Push(ev) => UnitView::Push(ev@),
            Unit::Reply(r) => UnitView::Reply(r@),
        }
    }
}

fn read_unit(buf: &Vec<u8>, max: usize) -> (r: At<Unit>)
    ensures
        match r {
            At::Done(u, to) => to <= buf@.len() && unit_read(buf@, max as nat) == Read::Done(
                u@,
                buf@.skip(to as int),
            ),
            At::Fail(e, to) => to <= buf@.len() && unit_read(buf@, max as nat) == Read::<
                UnitView,
            >::Fail(e@, buf@.skip(to as int)),
            At::Need => unit_read(buf@, max as nat) is Need,
        },
{
    assert(buf@.skip(0) =~= buf@);
    let (line, at) = match read_line(buf, 0, max) {
        At::Done(line, at) => (line, at),
        At::Fail(e, to) => return At::Fail(e, to),
        At::Need => return At::Need,
    };
    let (code, header) = match split_status(line.as_str()) {
        Ok(parts) => parts,
        Err(e) => return At::Fail(e, at),
    };
    if status::is_async(code) {
        match read_push(code, header.as_str(), buf, at, max) {
            At::Done(ev, to) => At::Done(Unit::Push(ev), to),
            At::Fail(e, to) => At::Fail(e, to),
            At::Need => At::Need,
        }
    } else if code == status::TYPE_LIST || code == status::INFO_FOLLOWS {
        // A dot-terminated block follows these codes.
        match read_block(buf, at, max) {
            At::Done(lines, to) => At::Done(
                Unit::Reply(Reply::listing(code, header.as_str(), lines)),
                to,
            ),
            At::Fail(e, to) => At::Fail(e, to),
            At::Need => At::Need,
        }
    } else {
        At::Done(Unit::Reply(Reply::line(code, header.as_str())), at)
    }
}

// --- the client ---------------------------------------------------------------------------

/// What a client awaits.
pub enum ExchangeView {
    /// Nothing.
    Idle,
    /// The greeting.
    Greeting,
    /// The reply with a given code.
    Expect(Code),
    /// The invitation to send a message body, which is given in wire form.
    Publish(Seq<char>),
}

/// The model of a [`Client`].
#[verifier::ext_equal]
pub struct ClientView {
    /// The bytes that arrived and are not handled yet.
    pub rbuf: Seq<u8>,
    /// Whether the connection has ended.
    pub eof: bool,
    /// The pushes that were seen and are not returned yet.
    pub pending: Seq<EventView>,
    /// The cap on a line.
    pub max_line: nat,
    /// The daemon id from the greeting.
    pub daemon_id: Seq<char>,
    /// What is awaited.
    pub exchange: ExchangeView,
}

/// The model of a [`Progress`].
pub enum ProgressView {
    Read,
    Send(Seq<char>),
    Done(Result<ReplyView, ClientErrorView>),
}

impl ClientView {
    /// A client that awaits its greeting.
    pub open spec fn fresh() -> ClientView {
        ClientView {
            rbuf: Seq::empty(),
            eof: false,
            pending: Seq::empty(),
            max_line: DEFAULT_MAX_LINE as nat,
            daemon_id: Seq::empty(),
            exchange: ExchangeView::Greeting,
        }
    }

    /// More input is needed: that is an error where the connection has ended.
    pub open spec fn starved(self) -> (ClientView, ProgressView) {
        if self.eof {
            self.failed(ClientErrorView::Closed, self.rbuf)
        } else {
            (self, ProgressView::Read)
        }
    }

    /// The exchange ends with an error.
    pub open spec fn failed(self, e: ClientErrorView, rest: Seq<u8>) -> (ClientView, ProgressView) {
        (
            ClientView { rbuf: rest, exchange: ExchangeView::Idle, ..self },
            ProgressView::Done(Err(e)),
        )
    }

    /// The exchange ends with a reply, or goes on to the message body.
    pub open spec fn answered(self, reply: ReplyView, rest: Seq<u8>) -> (ClientView, ProgressView) {
        let refused = ClientErrorView::Server { code: reply.code, text: reply.text };
        match self.exchange {
            ExchangeView::Publish(block) => if reply.code == status::START_BODY {
                (
                    ClientView {
                        rbuf: rest,
                        exchange: ExchangeView::Expect(status::ACCEPTED),
                        ..self
                    },
                    ProgressView::Send(block),
                )
            } else {
                self.failed(refused, rest)
            },
            ExchangeView::Expect(code) => if reply.code == code {
                (
                    ClientView { rbuf: rest, exchange: ExchangeView::Idle, ..self },
                    ProgressView::Done(Ok(reply)),
                )
            } else {
                self.failed(refused, rest)
            },
            _ => (self, ProgressView::Read),
        }
    }

    /// What comes of the greeting.
    pub open spec fn greeted(self) -> (ClientView, ProgressView) {
        match line_read(self.rbuf, self.max_line) {
            Read::Need => self.starved(),
            Read::Fail(e, rest) => self.failed(e, rest),
            Read::Done(line, rest) => match status_of(line) {
                Err(e) => self.failed(e, rest),
                Ok((code, text)) => if code == status::SERVICE_READY {
                    (
                        ClientView {
                            rbuf: rest,
                            daemon_id: piece(text, 0),
                            exchange: ExchangeView::Idle,
                            ..self
                        },
                        ProgressView::Done(Ok(ReplyView::line(code, text))),
                    )
                } else {
                    self.failed(ClientErrorView::Server { code, text }, rest)
                },
            },
        }
    }

    /// What comes of awaiting a reply: pushes that arrive before it are kept.
    pub open spec fn responded(self) -> (ClientView, ProgressView)
        decreases self.rbuf.len(),
        via Self::responded_decreases
    {
        match unit_read(self.rbuf, self.max_line) {
            Read::Need => self.starved(),
            Read::Fail(e, rest) => self.failed(e, rest),
            Read::Done(UnitView::Reply(reply), rest) => self.answered(reply, rest),
            Read::Done(UnitView::Push(ev), rest) => (ClientView {
                rbuf: rest,
                pending: self.pending.push(ev),
                ..self
            }).responded(),
        }
    }

    #[via_fn]
    proof fn responded_decreases(self) {
        lemma_unit_read(self.rbuf, self.max_line);
    }

    /// What comes of awaiting the exchange that is under way.
    pub open spec fn polled(self) -> (ClientView, ProgressView) {
        match self.exchange {
            ExchangeView::Idle => (self, ProgressView::Read),
            ExchangeView::Greeting => self.greeted(),
            _ => self.responded(),
        }
    }

    /// What comes of awaiting a push: the oldest one kept, or else the next to
    /// arrive.
    pub open spec fn evented(self) -> (ClientView, Option<Result<EventView, ClientErrorView>>) {
        if self.pending.len() > 0 {
            (
                ClientView { pending: self.pending.drop_first(), ..self },
                Some(Ok(self.pending[0])),
            )
        } else {
            match event_read(self.rbuf, self.max_line) {
                Read::Need => if self.eof {
                    (self, Some(Err(ClientErrorView::Closed)))
                } else {
                    (self, None)
                },
                Read::Fail(e, rest) => (ClientView { rbuf: rest, ..self }, Some(Err(e))),
                Read::Done(ev, rest) => (ClientView { rbuf: rest, ..self }, Some(Ok(ev))),
            }
        }
    }

    /// The client after it sent a command and awaits what comes of it.
    pub open spec fn awaiting(self, exchange: ExchangeView) -> ClientView {
        ClientView { exchange, ..self }
    }
}

/// A unit that was read leaves less of the buffer.
pub proof fn lemma_unit_read(buf: Seq<u8>, max: nat)
    ensures
        match unit_read(buf, max) {
            Read::Done(_, rest) => rest.len() < buf.len(),
            _ => true,
        },
{
    wire::lemma_find_lf(buf);
    if let Read::Done(line, rest) = line_read(buf, max) {
        assert(rest.len() < buf.len());
        lemma_block_read(rest, max);
    }
}

/// A block that was read leaves no more of the buffer.
proof fn lemma_block_read(buf: Seq<u8>, max: nat)
    ensures
        match block_read(buf, max) {
            Read::Done(_, rest) => rest.len() < buf.len(),
            _ => true,
        },
    decreases buf.len(),
{
    wire::lemma_find_lf(buf);
    if let Read::Done(line, rest) = line_read(buf, max) {
        if line != frame::TERMINATOR@ {
            lemma_block_read(rest, max);
        }
    }
}

/// What a client awaits.
enum Exchange {
    Idle,
    Greeting,
    Expect(Code),
    Publish(String),
}

impl View for Exchange {
    type V = ExchangeView;

    closed spec fn view(&self) -> ExchangeView {
        match self {
            Exchange::Idle => ExchangeView::Idle,
            Exchange::Greeting => ExchangeView::Greeting,
            Exchange::Expect(code) => ExchangeView::Expect(*code),
            Exchange::Publish(block) => ExchangeView::Publish(block@),
        }
    }
}

/// How far an exchange has come.
#[derive(Debug)]
pub enum Progress {
    /// More input is needed.
    Read,
    /// Write this, then ask again.
    Send(String),
    /// The exchange is over.
    Done(Result<Reply, ClientError>),
}

impl View for Progress {
    type V = ProgressView;

    open spec fn view(&self) -> ProgressView {
        match self {
            Progress::Read => ProgressView::Read,
            Progress::Send(s) => ProgressView::Send(s@),
            Progress::Done(Ok(r)) => ProgressView::Done(Ok(r@)),
            Progress::Done(Err(e)) => ProgressView::Done(Err(e@)),
        }
    }
}

/// The view of an awaited push.
pub open spec fn event_outcome(r: Option<Result<Event, ClientError>>) -> Option<
    Result<EventView, ClientErrorView>,
> {
    match r {
        None => None,
        Some(Ok(ev)) => Some(Ok(ev@)),
        Some(Err(e)) => Some(Err(e@)),
    }
}

/// The views of a list of events.
pub open spec fn event_views(events: Seq<Event>) -> Seq<EventView> {
    events.map_values(|e: Event| e@)
}

/// A command line on the wire.
pub open spec fn request(line: Seq<char>) -> Seq<char> {
    line + frame::CRLF@
}

/// The line that asks the server for something.
pub open spec fn line_of(cmd: CommandView) -> Seq<char> {
    match cmd {
        CommandView::Capabilities => "CAPABILITIES"@,
        CommandView::Help => "HELP"@,
        CommandView::Register { msg_type, key } => "REGISTER "@ + msg_type + " "@ + key,
        CommandView::Subscribe { msg_type } => "SUBSCRIBE "@ + msg_type,
        CommandView::Unsubscribe { msg_type } => "UNSUBSCRIBE "@ + msg_type,
        CommandView::Publish { msg_type, key } => "PUBLISH "@ + msg_type + " "@ + key,
        CommandView::ListTypes => "LIST TYPES"@,
        CommandView::Quit => "QUIT"@,
    }
}

/// The code of the reply that grants it.
pub open spec fn granted_by(cmd: CommandView) -> Code {
    match cmd {
        CommandView::Capabilities => status::INFO_FOLLOWS,
        CommandView::Help => status::INFO_FOLLOWS,
        CommandView::Register { .. } => status::REGISTERED,
        CommandView::Subscribe { .. } => status::SUBSCRIBED,
        CommandView::Unsubscribe { .. } => status::UNSUBSCRIBED,
        CommandView::Publish { .. } => status::START_BODY,
        CommandView::ListTypes => status::TYPE_LIST,
        CommandView::Quit => status::CLOSING,
    }
}

/// A client that sends a command writes its line and awaits the reply that grants it.
pub open spec fn sends(
    before: ClientView,
    cmd: CommandView,
    text: Seq<char>,
    after: ClientView,
) -> bool {
    &&& text == request(line_of(cmd))
    &&& match cmd {
        CommandView::Publish { .. } => after.exchange is Publish && after == before.awaiting(
            after.exchange,
        ),
        _ => after == before.awaiting(ExchangeView::Expect(granted_by(cmd))),
    }
}

/// An MBP client over an arbitrary byte stream.
pub struct Client {
    rbuf: Vec<u8>,
    eof: bool,
    pending: VecDeque<Event>,
    max_line: usize,
    daemon_id: String,
    exchange: Exchange,
}

impl View for Client {
    type V = ClientView;

    closed spec fn view(&self) -> ClientView {
        ClientView {
            rbuf: self.rbuf@,
            eof: self.eof,
            pending: event_views(self.pending@),
            max_line: self.max_line as nat,
            daemon_id: self.daemon_id@,
            exchange: self.exchange@,
        }
    }
}

impl Client {
    /// A client on a stream that has just been connected. It awaits the
    /// greeting: the first exchange to [`Client::poll`] for.
    pub fn new() -> (c: Self)
        ensures
            c@ == ClientView::fresh(),
    {
        let c = Client {
            rbuf: Vec::new(),
            eof: false,
            pending: VecDeque::new(),
            max_line: DEFAULT_MAX_LINE,
            daemon_id: String::new(),
            exchange: Exchange::Greeting,
        };
        assert(c@ =~= ClientView::fresh());
        c
    }

    /// The peer daemon's id, as reported in its greeting.
    pub fn daemon_id(&self) -> (id: &str)
        ensures
            id@ == self@.daemon_id,
    {
        self.daemon_id.as_str()
    }

    /// Take in bytes that arrived.
    pub fn feed(&mut self, bytes: &[u8])
        ensures
            final(self)@ == (ClientView { rbuf: old(self)@.rbuf + bytes@, ..old(self)@ }),
    {
        self.rbuf.extend_from_slice(bytes);
        assert(self@ =~= (ClientView { rbuf: old(self)@.rbuf + bytes@, ..old(self)@ }));
    }

    /// Learn that the connection has ended.
    pub fn close(&mut self)
        ensures
            final(self)@ == (ClientView { eof: true, ..old(self)@ }),
    {
        self.eof = true;
    }

    // --- commands ---------------------------------------------------------------

    /// Send a command line and await a reply.
    fn send(&mut self, line: &str, expected: Code) -> (s: String)
        ensures
            s@ == request(line@),
            final(self)@ == old(self)@.awaiting(ExchangeView::Expect(expected)),
    {
        self.exchange = Exchange::Expect(expected);
        line.to_string().concat(frame::CRLF)
    }

    /// `REGISTER <type> <key>`: claim ownership of a type. Succeeds on `210`
    /// (including the idempotent same-key case); a conflicting key yields
    /// [`ClientError::Server`] with code `433`. Returns what to write.
    pub fn register(&mut self, msg_type: &str, key: &str) -> (s: String)
        ensures
            s@ == request("REGISTER "@ + msg_type@ + " "@ + key@),
            final(self)@ == old(self)@.awaiting(ExchangeView::Expect(status::REGISTERED)),
            sends(
                old(self)@,
                (CommandView::Register { msg_type: msg_type@, key: key@ }),
                s@,
                final(self)@,
            ),
    {
        let line = "REGISTER ".to_string().concat(msg_type).concat(" ").concat(key);
        self.send(line.as_str(), status::REGISTERED)
    }

    /// `SUBSCRIBE <type>`: begin receiving a type on this connection. Returns
    /// what to write.
    pub fn subscribe(&mut self, msg_type: &str) -> (s: String)
        ensures
            s@ == request("SUBSCRIBE "@ + msg_type@),
            final(self)@ == old(self)@.awaiting(ExchangeView::Expect(status::SUBSCRIBED)),
            sends(
                old(self)@,
                (CommandView::Subscribe { msg_type: msg_type@ }),
                s@,
                final(self)@,
            ),
    {
        let line = "SUBSCRIBE ".to_string().concat(msg_type);
        self.send(line.as_str(), status::SUBSCRIBED)
    }

    /// `UNSUBSCRIBE <type>`: stop receiving a type. Returns what to write.
    pub fn unsubscribe(&mut self, msg_type: &str) -> (s: String)
        ensures
            s@ == request("UNSUBSCRIBE "@ + msg_type@),
            final(self)@ == old(self)@.awaiting(ExchangeView::Expect(status::UNSUBSCRIBED)),
            sends(
                old(self)@,
                (CommandView::Unsubscribe { msg_type: msg_type@ }),
                s@,
                final(self)@,
            ),
    {
        let line = "UNSUBSCRIBE ".to_string().concat(msg_type);
        self.send(line.as_str(), status::UNSUBSCRIBED)
    }

    /// `PUBLISH <type> <key>`, then a DATA body. `body` is the sequence of body
    /// lines (no CRLFs); they are dot-stuffed automatically. Succeeds on `250`.
    /// Returns what to write first; the body follows once it is invited.
    pub fn publish(&mut self, msg_type: &str, key: &str, body: &[String]) -> (s: String)
        ensures
            s@ == request("PUBLISH "@ + msg_type@ + " "@ + key@),
            final(self)@ == old(self)@.awaiting(
                ExchangeView::Publish(frame::block(text::views(body@))),
            ),
            sends(
                old(self)@,
                (CommandView::Publish { msg_type: msg_type@, key: key@ }),
                s@,
                final(self)@,
            ),
    {
        self.exchange = Exchange::Publish(frame::encode_body(body));
        let line = "PUBLISH ".to_string().concat(msg_type).concat(" ").concat(key);
        line.concat(frame::CRLF)
    }

    /// `LIST TYPES`: enumerate known type names (keys are never disclosed), in
    /// the block of the reply. Returns what to write.
    pub fn list_types(&mut self) -> (s: String)
        ensures
            s@ == request("LIST TYPES"@),
            final(self)@ == old(self)@.awaiting(ExchangeView::Expect(status::TYPE_LIST)),
            sends(old(self)@, CommandView::ListTypes, s@, final(self)@),
    {
        self.send("LIST TYPES", status::TYPE_LIST)
    }

    /// `CAPABILITIES`: the server's advertised capabilities, in the block of the
    /// reply. Returns what to write.
    pub fn capabilities(&mut self) -> (s: String)
        ensures
            s@ == request("CAPABILITIES"@),
            final(self)@ == old(self)@.awaiting(ExchangeView::Expect(status::INFO_FOLLOWS)),
            sends(old(self)@, CommandView::Capabilities, s@, final(self)@),
    {
        self.send("CAPABILITIES", status::INFO_FOLLOWS)
    }

    /// `HELP`: human-readable help lines, in the block of the reply. Returns
    /// what to write.
    pub fn help(&mut self) -> (s: String)
        ensures
            s@ == request("HELP"@),
            final(self)@ == old(self)@.awaiting(ExchangeView::Expect(status::INFO_FOLLOWS)),
            sends(old(self)@, CommandView::Help, s@, final(self)@),
    {
        self.send("HELP", status::INFO_FOLLOWS)
    }

    /// `QUIT`: ask the server to close the connection. Returns what to write.
    pub fn quit(&mut self) -> (s: String)
        ensures
            s@ == request("QUIT"@),
            final(self)@ == old(self)@.awaiting(ExchangeView::Expect(status::CLOSING)),
            sends(old(self)@, CommandView::Quit, s@, final(self)@),
    {
        self.send("QUIT", status::CLOSING)
    }

    // --- receiving ----------------------------------------------------------------

    /// Drop the first `n` bytes of the buffer.
    fn consume(&mut self, n: usize)
        requires
            n <= old(self)@.rbuf.len(),
        ensures
            final(self)@ == (ClientView { rbuf: old(self)@.rbuf.skip(n as int), ..old(self)@ }),
    {
        let mut rest = self.rbuf.split_off(n);
        std::mem::swap(&mut self.rbuf, &mut rest);
        assert(self@ =~= (ClientView { rbuf: old(self)@.rbuf.skip(n as int), ..old(self)@ }));
    }

    fn fail(&mut self, e: ClientError, n: usize) -> (p: Progress)
        requires
            n <= old(self)@.rbuf.len(),
        ensures
            old(self)@.failed(e@, old(self)@.rbuf.skip(n as int)) == (final(self)@, p@),
    {
        self.consume(n);
        self.exchange = Exchange::Idle;
        Progress::Done(Err(e))
    }

    fn starve(&mut self) -> (p: Progress)
        ensures
            old(self)@.starved() == (final(self)@, p@),
    {
        if self.eof {
            assert(self@.rbuf.skip(0) =~= self@.rbuf);
            self.fail(ClientError::Closed, 0)
        } else {
            Progress::Read
        }
    }

    /// Read the greeting: `200 <daemon-id> macro-bus MBP/1.0 ready`.
    fn read_greeting(&mut self) -> (p: Progress)
        ensures
            old(self)@.greeted() == (final(self)@, p@),
    {
        assert(self.rbuf@.skip(0) =~= self.rbuf@);
        match read_line(&self.rbuf, 0, self.max_line) {
            At::Need => self.starve(),
            At::Fail(e, to) => self.fail(e, to),
            At::Done(line, to) => match split_status(line.as_str()) {
                Err(e) => self.fail(e, to),
                Ok((code, text)) => {
                    if code == status::SERVICE_READY {
                        self.consume(to);
                        let pieces = text::split_on(text.as_str(), ' ');
                        self.daemon_id = take_piece(&pieces, 0);
                        self.exchange = Exchange::Idle;
                        Progress::Done(Ok(Reply::line(code, text.as_str())))
                    } else {
                        self.fail(ClientError::Server { code, text }, to)
                    }
                },
            },
        }
    }

    /// Take the reply to the command that was sent: anything but what the
    /// exchange expects is a [`ClientError::Server`].
    fn take_reply(&mut self, reply: Reply, n: usize) -> (p: Progress)
        requires
            n <= old(self)@.rbuf.len(),
            old(self)@.exchange is Expect || old(self)@.exchange is Publish,
        ensures
            old(self)@.answered(reply@, old(self)@.rbuf.skip(n as int)) == (final(self)@, p@),
    {
        let code = reply.code;
        let mut exchange = Exchange::Idle;
        std::mem::swap(&mut self.exchange, &mut exchange);
        match exchange {
            Exchange::Publish(block) => {
                if code == status::START_BODY {
                    self.consume(n);
                    self.exchange = Exchange::Expect(status::ACCEPTED);
                    Progress::Send(block)
                } else {
                    self.fail(ClientError::Server { code, text: reply.text }, n)
                }
            },
            Exchange::Expect(expected) => {
                if code == expected {
                    self.consume(n);
                    Progress::Done(Ok(reply))
                } else {
                    self.fail(ClientError::Server { code, text: reply.text }, n)
                }
            },
            _ => Progress::Read,
        }
    }

    /// Read the reply to a just-sent command, keeping any `1xx` pushes that
    /// arrive before it.
    fn read_response(&mut self) -> (p: Progress)
        requires
            old(self)@.exchange is Expect || old(self)@.exchange is Publish,
        ensures
            old(self)@.responded() == (final(self)@, p@),
    {
        loop
            invariant
                self@.exchange is Expect || self@.exchange is Publish,
                self@.responded() == old(self)@.responded(),
            decreases self@.rbuf.len(),
        {
            proof {
                lemma_unit_read(self@.rbuf, self@.max_line);
            }
            match read_unit(&self.rbuf, self.max_line) {
                At::Need => return self.starve(),
                At::Fail(e, to) => return self.fail(e, to),
                At::Done(Unit::Reply(reply), to) => return self.take_reply(reply, to),
                At::Done(Unit::Push(ev), to) => {
                    let ghost before = self@;
                    self.consume(to);
                    self.pending.push_back(ev);
                    assert(self@.pending =~= before.pending.push(ev@));
                    assert(self@ =~= (ClientView {
                        rbuf: before.rbuf.skip(to as int),
                        pending: before.pending.push(ev@),
                        ..before
                    }));
                },
            }
        }
    }

    /// Ask how far the exchange that is under way has come: the greeting, or the
    /// command sent last. Where there is none, more input is awaited.
    pub fn poll(&mut self) -> (p: Progress)
        ensures
            old(self)@.polled() == (final(self)@, p@),
    {
        match &self.exchange {
            Exchange::Idle => Progress::Read,
            Exchange::Greeting => self.read_greeting(),
            _ => self.read_response(),
        }
    }

    /// Ask for the next asynchronous server push (a delivered
    /// [`Event::Message`], [`Event::Drop`] or [`Event::Note`]). Pushes seen
    /// during earlier commands are returned first. `None` means that more input
    /// is needed.
    ///
    /// Returns [`ClientError::Closed`] if the connection ended. Returns
    /// [`ClientError::Protocol`] if a non-`1xx` line arrives unsolicited.
    pub fn next_event(&mut self) -> (r: Option<Result<Event, ClientError>>)
        ensures
            old(self)@.evented() == (final(self)@, event_outcome(r)),
            old(self)@.pending.len() > 0 ==> {
                &&& event_outcome(r) == Some(
                    Ok::<EventView, ClientErrorView>(old(self)@.pending[0]),
                )
                &&& final(self)@.pending == old(self)@.pending.drop_first()
                &&& final(self)@.rbuf == old(self)@.rbuf
            },
    {
        if let Some(ev) = self.pending.pop_front() {
            assert(self@.pending =~= old(self)@.pending.drop_first());
            assert(ev@ == old(self)@.pending[0]);
            assert(self@ =~= old(self)@.evented().0);
            return Some(Ok(ev));
        }
        assert(self.rbuf@.skip(0) =~= self.rbuf@);
        let (line, at) = match read_line(&self.rbuf, 0, self.max_line) {
            At::Need => return self.no_event(),
            At::Fail(e, to) => {
                self.consume(to);
                return Some(Err(e));
            },
            At::Done(line, at) => (line, at),
        };
        let (code, header) = match split_status(line.as_str()) {
            Err(e) => {
                self.consume(at);
                return Some(Err(e));
            },
            Ok(parts) => parts,
        };
        if !status::is_async(code) {
            self.consume(at);
            return Some(
                Err(
                    protocol_error(
                        "unexpected non-1xx line while awaiting a push: ",
                        line.as_str(),
                    ),
                ),
            );
        }
        match read_push(code, header.as_str(), &self.rbuf, at, self.max_line) {
            At::Need => self.no_event(),
            At::Fail(e, to) => {
                self.consume(to);
                Some(Err(e))
            },
            At::Done(ev, to) => {
                self.consume(to);
                Some(Ok(ev))
            },
        }
    }

    fn no_event(&self) -> (r: Option<Result<Event, ClientError>>)
        ensures
            event_outcome(r) == (if self@.eof {
                Some(Err::<EventView, ClientErrorView>(ClientErrorView::Closed))
            } else {
                None
            }),
    {
        if self.eof {
            Some(Err(ClientError::Closed))
        } else {
            None
        }
    }
}

} // verus!
