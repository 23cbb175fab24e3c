//! What a client is told: pushes in the order in which they arrived, and each command
//! what its reply says.
use vstd::prelude::*;

use crate::client;
use crate::client::ClientErrorView;
use crate::client::ClientView;
use crate::client::EventView;
use crate::client::ExchangeView;
use crate::client::ProgressView;
use crate::client::Read;
use crate::client::UnitView;
use crate::command;
use crate::command::CommandView;
use crate::conn::ConnView;
use crate::exchange_laws;
use crate::number;
use crate::registry::RegistryView;
use crate::reply::ReplyView;
use crate::status::Code;
use crate::validate;
use crate::wire;

verus! {

broadcast use vstd::string::group_string_axioms;

// --- pushes -----------------------------------------------------------------------------

/// Whether asking a client for an event, again and again, gives the events listed, one
/// after the other, and leaves the client that is given.
pub open spec fn asking_gives(c: ClientView, events: Seq<EventView>, left: ClientView) -> bool
    decreases events.len(),
{
    if events.len() == 0 {
        c == left
    } else {
        &&& c.evented().1 == Some(Ok::<EventView, ClientErrorView>(events[0]))
        &&& asking_gives(c.evented().0, events.drop_first(), left)
    }
}

/// A client that keeps pushes gives the oldest of them, and keeps the others in their
/// order; nothing is read for it.
pub proof fn oldest_push_comes_first(c: ClientView)
    requires
        c.pending.len() > 0,
    ensures
        c.evented().1 == Some(Ok::<EventView, ClientErrorView>(c.pending[0])),
        c.evented().0.pending.len() == c.pending.len() - 1,
        forall|i: int|
            0 <= i < c.pending.len() - 1 ==> c.evented().0.pending[i] == #[trigger] c.pending[i
                + 1],
        c.evented().0.rbuf == c.rbuf,
        c.evented().0.eof == c.eof,
        c.evented().0.max_line == c.max_line,
        c.evented().0.daemon_id == c.daemon_id,
        c.evented().0.exchange == c.exchange,
{
}

/// All pushes that are kept come out, in the order in which they are kept.
pub proof fn kept_pushes_come_in_order(c: ClientView)
    ensures
        asking_gives(c, c.pending, ClientView { pending: Seq::empty(), ..c }),
    decreases c.pending.len(),
{
    let none = ClientView { pending: Seq::empty(), ..c };
    if c.pending.len() == 0 {
        assert(c =~= none);
    } else {
        let next = c.evented().0;
        assert(next.pending =~= c.pending.drop_first());
        kept_pushes_come_in_order(next);
        assert((ClientView { pending: Seq::empty(), ..next }) =~= none);
    }
}

/// What comes in two runs of asking comes in one.
proof fn lemma_asking_on(
    c: ClientView,
    first: Seq<EventView>,
    mid: ClientView,
    second: Seq<EventView>,
    left: ClientView,
)
    requires
        asking_gives(c, first, mid),
        asking_gives(mid, second, left),
    ensures
        asking_gives(c, first + second, left),
    decreases first.len(),
{
    if first.len() == 0 {
        assert(first + second =~= second);
    } else {
        lemma_asking_on(c.evented().0, first.drop_first(), mid, second, left);
        assert((first + second).drop_first() =~= first.drop_first() + second);
        assert((first + second)[0] == first[0]);
    }
}

/// A push is the same event whether it is awaited or comes in between.
proof fn lemma_push_is_event(buf: Seq<u8>, max: nat, ev: EventView, rest: Seq<u8>)
    requires
        client::unit_read(buf, max) == Read::Done(UnitView::Push(ev), rest),
    ensures
        client::event_read(buf, max) == Read::Done(ev, rest),
{
}

proof fn lemma_buffered_in_order(c: ClientView, events: Seq<EventView>, rest: Seq<u8>)
    requires
        c.pending.len() == 0,
        exchange_laws::reads(c.rbuf, c.max_line, exchange_laws::push_units(events), rest),
    ensures
        asking_gives(c, events, ClientView { rbuf: rest, ..c }),
    decreases events.len(),
{
    let units = exchange_laws::push_units(events);
    if events.len() > 0 {
        if let Read::Done(unit, more) = client::unit_read(c.rbuf, c.max_line) {
            assert(unit == units[0]);
            assert(unit == UnitView::Push(events[0]));
            lemma_push_is_event(c.rbuf, c.max_line, events[0], more);
            let next = ClientView { rbuf: more, ..c };
            assert(c.evented().0 == next);
            assert(units.drop_first() =~= exchange_laws::push_units(events.drop_first()));
            lemma_buffered_in_order(next, events.drop_first(), rest);
        }
    }
}

/// Pushes that arrived are given in the order in which they arrived, those that were
/// kept before in front of those that still stand in the buffer; what follows them
/// stays there.
pub proof fn pushes_come_in_order(c: ClientView, events: Seq<EventView>, rest: Seq<u8>)
    requires
        exchange_laws::reads(c.rbuf, c.max_line, exchange_laws::push_units(events), rest),
    ensures
        asking_gives(
            c,
            c.pending + events,
            ClientView { rbuf: rest, pending: Seq::empty(), ..c },
        ),
{
    let mid = ClientView { pending: Seq::empty(), ..c };
    kept_pushes_come_in_order(c);
    lemma_buffered_in_order(mid, events, rest);
    lemma_asking_on(
        c,
        c.pending,
        mid,
        events,
        ClientView { rbuf: rest, pending: Seq::empty(), ..c },
    );
}

/// Where pushes arrive ahead of the reply that a client awaits, asking for the outcome
/// and then for events gives them all, in the order in which they arrived, behind
/// those that were kept before; what follows the reply stays in the buffer.
pub proof fn pushes_ahead_of_a_reply_come_in_order(
    c: ClientView,
    events: Seq<EventView>,
    reply: ReplyView,
    rest: Seq<u8>,
)
    requires
        c.exchange is Expect || c.exchange is Publish,
        exchange_laws::reads(
            c.rbuf,
            c.max_line,
            exchange_laws::push_units(events).push(UnitView::Reply(reply)),
            rest,
        ),
    ensures
        c.polled().0.pending == c.pending + events,
        c.polled().0.rbuf == rest,
        asking_gives(
            c.polled().0,
            c.pending + events,
            ClientView { pending: Seq::empty(), ..c.polled().0 },
        ),
{
    exchange_laws::pushes_ahead_of_a_reply_are_kept(c, events, reply, rest);
    kept_pushes_come_in_order(c.polled().0);
}

/// Where no push is kept and none has arrived in full, asking for an event takes
/// nothing: more input is needed, or the connection has ended.
pub proof fn no_event_without_a_push(c: ClientView)
    requires
        c.pending.len() == 0,
        wire::find_lf(c.rbuf) == c.rbuf.len(),
        c.rbuf.len() <= c.max_line,
    ensures
        c.evented().0 == c,
        !c.eof ==> c.evented().1 is None,
        c.eof ==> c.evented().1 == Some(Err::<EventView, _>(ClientErrorView::Closed)),
{
}

/// A reply that nobody asked for is no event: it is refused, and only its line is
/// taken.
pub proof fn unasked_reply_is_no_event(c: ClientView)
    requires
        c.pending.len() == 0,
    ensures
        client::line_read(c.rbuf, c.max_line) matches Read::Done(line, rest) ==> (
        client::status_of(line) matches Ok((code, text)) ==> (code < 100 || code >= 200 ==> {
            &&& c.evented().0 == ClientView { rbuf: rest, ..c }
            &&& c.evented().1 == Some(
                Err::<EventView, _>(
                    ClientErrorView::Protocol(
                        "unexpected non-1xx line while awaiting a push: "@ + line,
                    ),
                ),
            )
        })),
{
}

// --- replies ------------------------------------------------------------------------------

/// What a command comes to once its reply has arrived, whatever pushes arrived ahead
/// of it. The code that is expected makes the reply the outcome; any other is an
/// error with the reply's code and text. A publish that is invited goes on with its
/// body, and then expects 250. Nothing but the exchange, the pushes and what was
/// read changes.
pub proof fn reply_is_the_outcome(
    c: ClientView,
    events: Seq<EventView>,
    reply: ReplyView,
    rest: Seq<u8>,
)
    requires
        c.exchange is Expect || c.exchange is Publish,
        exchange_laws::reads(
            c.rbuf,
            c.max_line,
            exchange_laws::push_units(events).push(UnitView::Reply(reply)),
            rest,
        ),
    ensures
        ({
            let (after, p) = c.polled();
            let refused = ProgressView::Done(
                Err(ClientErrorView::Server { code: reply.code, text: reply.text }),
            );
            &&& after.rbuf == rest
            &&& after.pending == c.pending + events
            &&& after.eof == c.eof && after.max_line == c.max_line && after.daemon_id
                == c.daemon_id
            &&& c.exchange matches ExchangeView::Expect(code) ==> {
                &&& after.exchange is Idle
                &&& reply.code == code ==> p == ProgressView::Done(Ok(reply))
                &&& reply.code != code ==> p == refused
            }
            &&& c.exchange matches ExchangeView::Publish(block) ==> {
                &&& reply.code == 354 ==> p == ProgressView::Send(block) && after.exchange
                    == ExchangeView::Expect(250)
                &&& reply.code != 354 ==> p == refused && after.exchange is Idle
            }
        }),
{
    exchange_laws::pushes_ahead_of_a_reply_are_kept(c, events, reply, rest);
}

/// While only pushes have arrived, the reply is still awaited: they are kept, in
/// order, and more input is asked for, or the connection has ended.
pub proof fn outcome_needs_the_reply(c: ClientView, events: Seq<EventView>, rest: Seq<u8>)
    requires
        c.exchange is Expect || c.exchange is Publish,
        exchange_laws::reads(c.rbuf, c.max_line, exchange_laws::push_units(events), rest),
        client::unit_read(rest, c.max_line) is Need,
    ensures
        ({
            let (after, p) = c.polled();
            &&& after.rbuf == rest
            &&& after.pending == c.pending + events
            &&& after.eof == c.eof && after.max_line == c.max_line && after.daemon_id
                == c.daemon_id
            &&& !c.eof ==> p is Read && after.exchange == c.exchange
            &&& c.eof ==> p == ProgressView::Done(Err(ClientErrorView::Closed))
                && after.exchange is Idle
        }),
    decreases events.len(),
{
    let units = exchange_laws::push_units(events);
    client::lemma_unit_read(c.rbuf, c.max_line);
    if events.len() == 0 {
        assert(c.rbuf == rest);
        assert(c.pending + events =~= c.pending);
        assert(c.responded() == c.starved());
    } else {
        if let Read::Done(unit, more) = client::unit_read(c.rbuf, c.max_line) {
            assert(unit == units[0]);
            assert(unit == UnitView::Push(events[0]));
            let tail = events.drop_first();
            let next = ClientView { rbuf: more, pending: c.pending.push(events[0]), ..c };
            assert(units.drop_first() =~= exchange_laws::push_units(tail));
            assert(c.polled() == next.polled());
            outcome_needs_the_reply(next, tail, rest);
            assert(next.pending + tail =~= c.pending + events);
        }
    }
}

/// What the greeting comes to: 200 makes the first word behind the code the daemon's
/// id; any other code is an error with that code and text. The pushes that are kept
/// stay as they are.
pub proof fn greeting_is_the_outcome(c: ClientView, line: Seq<char>, rest: Seq<u8>)
    requires
        c.exchange is Greeting,
        client::line_read(c.rbuf, c.max_line) == Read::Done(line, rest),
    ensures
        ({
            let (after, p) = c.polled();
            &&& after.rbuf == rest
            &&& after.pending == c.pending
            &&& after.eof == c.eof && after.max_line == c.max_line
            &&& after.exchange is Idle
            &&& client::status_of(line) matches Ok((code, text)) ==> {
                &&& code == 200 ==> after.daemon_id == crate::text::split(text, ' ')[0] && p
                    == ProgressView::Done(Ok(ReplyView { code: 200, text, block: None }))
                &&& code != 200 ==> after.daemon_id == c.daemon_id && p == ProgressView::Done(
                    Err(ClientErrorView::Server { code, text }),
                )
            }
            &&& client::status_of(line) matches Err(e) ==> after.daemon_id == c.daemon_id && p
                == ProgressView::Done(Err(e))
        }),
{
    assert(c.polled() == c.greeted());
    if let Ok((code, text)) = client::status_of(line) {
        assert(crate::text::split(text, ' ').len() > 0);
    }
}

/// A line that is no status line ends the exchange with the error that says so, and is
/// taken; a line beyond the limit does too.
pub proof fn malformed_input_ends_the_exchange(c: ClientView)
    requires
        !(c.exchange is Idle),
    ensures
        client::line_read(c.rbuf, c.max_line) matches Read::Done(line, rest) ==> (
        client::status_of(line) matches Err(e) ==> {
            &&& c.polled().0 == ClientView { rbuf: rest, exchange: ExchangeView::Idle, ..c }
            &&& c.polled().1 == ProgressView::Done(Err(e))
        }),
        client::line_read(c.rbuf, c.max_line) matches Read::Fail(e, rest) ==> {
            &&& c.polled().0 == ClientView { rbuf: rest, exchange: ExchangeView::Idle, ..c }
            &&& c.polled().1 == ProgressView::Done(Err(e))
        },
{
    client::lemma_unit_read(c.rbuf, c.max_line);
}

/// A client that awaits nothing takes nothing.
pub proof fn idle_client_takes_nothing(c: ClientView)
    requires
        c.exchange is Idle,
    ensures
        c.polled() == (c, ProgressView::Read),
{
}

// --- lines --------------------------------------------------------------------------------

/// A status line is three digits, the code; one character, where there is any; and
/// the text. Any other line is refused.
pub proof fn status_line_is_code_and_text(
    a: char,
    b: char,
    c: char,
    sep: char,
    text: Seq<char>,
    line: Seq<char>,
)
    requires
        '0' <= a <= '9',
        '0' <= b <= '9',
        '0' <= c <= '9',
        sep <= '\u{7f}',
    ensures
        ({
            let code = ((a as int - 48) * 100 + (b as int - 48) * 10 + (c as int - 48)) as Code;
            &&& client::status_of(seq![a, b, c, sep] + text) == Ok::<
                (Code, Seq<char>),
                ClientErrorView,
            >((code, text))
            &&& client::status_of(seq![a, b, c]) == Ok::<(Code, Seq<char>), ClientErrorView>(
                (code, Seq::empty()),
            )
        }),
        client::status_of(line) is Ok <==> line.len() >= 3 && (forall|i: int|
            0 <= i < 3 ==> '0' <= #[trigger] line[i] <= '9'),
        client::status_of(line) is Ok && line.len() > 3 && line[3] > '\u{7f}'
            ==> client::status_of(line)->Ok_0.1.len() == 0,
        client::status_of(line) matches Err(e) ==> e == ClientErrorView::Protocol(
            if vstd::utf8::encode_utf8(line).len() < 3 {
                "short response line: "@ + crate::text::debug_text(line)
            } else {
                "non-numeric status: "@ + crate::text::debug_text(line)
            },
        ),
{
    let digits = seq![a, b, c];
    let long = seq![a, b, c, sep] + text;
    let code = ((a as int - 48) * 100 + (b as int - 48) * 10 + (c as int - 48)) as nat;
    assert(long.take(3) =~= digits);
    assert(digits.take(3) =~= digits);
    assert(long.skip(4) =~= text);
    crate::protocol_laws::lemma_encode_len(long);
    crate::protocol_laws::lemma_encode_len(digits);
    assert(digits.drop_last() =~= seq![a, b]);
    assert(seq![a, b].drop_last() =~= seq![a]);
    assert(seq![a].drop_last() =~= Seq::<char>::empty());
    assert(number::value(seq![a]) == a as int - 48) by {
        assert(number::value(seq![a].drop_last()) == 0);
    }
    assert(number::value(seq![a, b]) == (a as int - 48) * 10 + (b as int - 48));
    assert(number::value(digits) == code);
    assert(number::all_digits(digits));
    assert(digits[0] == a && digits[1] == b && digits[2] == c);
    crate::protocol_laws::lemma_encode_len(line);
    if line.len() >= 3 && forall|i: int| 0 <= i < 3 ==> '0' <= #[trigger] line[i] <= '9' {
        let three = line.take(3);
        assert forall|i: int| 0 <= i < three.len() implies number::is_digit(#[trigger] three[i]) by {
            assert(three[i] == line[i]);
        }
        lemma_three_digits(three);
    }
    if client::status_of(line) is Ok {
        assert(line.len() >= 3);
        assert forall|i: int| 0 <= i < 3 implies '0' <= #[trigger] line[i] <= '9' by {
            assert(line.take(3)[i] == line[i]);
            assert(number::is_digit(line.take(3)[i]));
        }
    }
}

/// Three digits make a number below a thousand.
proof fn lemma_three_digits(s: Seq<char>)
    requires
        s.len() == 3,
        number::all_digits(s),
    ensures
        number::value(s) < 1000,
{
    assert(number::is_digit(s[0]) && number::is_digit(s[1]) && number::is_digit(s[2]));
    let two = s.drop_last();
    let one = two.drop_last();
    assert(one.drop_last() =~= Seq::<char>::empty());
    assert(number::value(one.drop_last()) == 0);
    assert(number::value(one) <= 9);
    assert(number::value(two) <= 99);
}

/// What the server sends is a push where its code begins with one, and a reply
/// otherwise. Behind 215 and 231 a block follows, which is part of the reply; behind
/// any other code of a reply nothing does.
pub proof fn units_by_their_codes(buf: Seq<u8>, max: nat)
    ensures
        client::line_read(buf, max) matches Read::Done(line, rest) ==> (
        client::status_of(line) matches Ok((code, text)) ==> {
            let unit = client::unit_read(buf, max);
            let push = client::push_read(code, text, rest, max);
            let block = client::block_read(rest, max);
            &&& 100 <= code < 200 ==> {
                &&& client::event_read(buf, max) == push
                &&& push is Need ==> unit is Need
                &&& push matches Read::Done(ev, end) ==> unit == Read::Done(
                    UnitView::Push(ev),
                    end,
                )
                &&& push matches Read::Fail(e, end) ==> unit == Read::<UnitView>::Fail(e, end)
            }
            &&& code == 215 || code == 231 ==> {
                &&& block is Need ==> unit is Need
                &&& block matches Read::Done(lines, end) ==> unit == Read::Done(
                    UnitView::Reply(ReplyView { code, text, block: Some(lines) }),
                    end,
                )
                &&& block matches Read::Fail(e, end) ==> unit == Read::<UnitView>::Fail(e, end)
            }
            &&& (code < 100 || code >= 200) && code != 215 && code != 231 ==> unit == Read::Done(
                UnitView::Reply(ReplyView { code, text, block: None }),
                rest,
            )
        }),
{
}

/// What a client sends is the line and CRLF.
pub proof fn request_is_a_line(line: Seq<char>)
    ensures
        client::request(line) == line + "\r\n"@,
{
}

/// Whether the type and the key that a command names, if it does, are valid.
pub open spec fn well_formed(cmd: CommandView) -> bool {
    match cmd {
        CommandView::Register { msg_type, key } => validate::valid_type(msg_type)
            && validate::valid_key(key),
        CommandView::Publish { msg_type, key } => validate::valid_type(msg_type)
            && validate::valid_key(key),
        CommandView::Subscribe { msg_type } => validate::valid_type(msg_type),
        CommandView::Unsubscribe { msg_type } => validate::valid_type(msg_type),
        _ => true,
    }
}

/// What a client writes for a command is a line that the server understands as that
/// command, and while the reply is awaited nothing else about the client changes.
pub proof fn sent_command_is_understood(
    before: ClientView,
    cmd: CommandView,
    text: Seq<char>,
    after: ClientView,
)
    requires
        client::sends(before, cmd, text, after),
        well_formed(cmd),
    ensures
        exists|line: Seq<char>|
            text == line + "\r\n"@ && #[trigger] command::parsed(line) == Ok::<
                CommandView,
                command::ParseErrorView,
            >(cmd),
        after.rbuf == before.rbuf && after.eof == before.eof && after.pending == before.pending,
        after.max_line == before.max_line && after.daemon_id == before.daemon_id,
{
    let line = client::line_of(cmd);
    match cmd {
        CommandView::Register { msg_type, key } => {
            crate::protocol_laws::requests_are_understood(msg_type, key);
        },
        CommandView::Publish { msg_type, key } => {
            crate::protocol_laws::requests_are_understood(msg_type, key);
        },
        CommandView::Subscribe { msg_type } => {
            lemma_type_is_key(msg_type);
            crate::protocol_laws::requests_are_understood(msg_type, msg_type);
        },
        CommandView::Unsubscribe { msg_type } => {
            lemma_type_is_key(msg_type);
            crate::protocol_laws::requests_are_understood(msg_type, msg_type);
        },
        _ => {
            let t = seq!['t'];
            assert(validate::tchar(t[0]));
            lemma_type_is_key(t);
            crate::protocol_laws::requests_are_understood(t, t);
        },
    }
    assert(text == line + "\r\n"@);
    assert(command::parsed(line) == Ok::<CommandView, command::ParseErrorView>(cmd));
}

proof fn lemma_type_is_key(t: Seq<char>)
    requires
        validate::valid_type(t),
    ensures
        validate::valid_key(t),
{
    crate::text_laws::names_by_their_characters(t, 't');
}

/// The reply with which a server grants a command is the one that the client awaits,
/// and the client reads a block behind it exactly where the server writes one; any
/// other reply is a refusal.
pub proof fn granting_reply_is_the_awaited_one(
    c: ConnView,
    r: RegistryView,
    cmd: CommandView,
    now_ms: u64,
)
    ensures
        ({
            let reply = c.commanded(r, cmd, now_ms).reply;
            &&& reply.code == client::granted_by(cmd) || 400 <= reply.code < 600
            &&& 200 <= client::granted_by(cmd) < 400
            &&& client::has_block(reply.code) <==> reply.block is Some
            &&& cmd is Publish <==> client::granted_by(cmd) == 354
        }),
{
}

/// Errors in words.
pub proof fn client_errors_in_words(s: Seq<char>, code: Code)
    ensures
        ClientErrorView::Io(s).text() == "io error: "@ + s,
        ClientErrorView::Closed.text() == "connection closed by server"@,
        (ClientErrorView::Server { code, text: s }).text() == "server error "@ + number::decimal(
            code as nat,
        ) + ": "@ + s,
        ClientErrorView::Protocol(s).text() == "protocol error: "@ + s,
{
}

/// A client that was just made awaits the greeting, with nothing kept or read, and
/// reads lines of up to 131072 bytes.
pub proof fn fresh_client_awaits_the_greeting()
    ensures
        ClientView::fresh().rbuf.len() == 0,
        !ClientView::fresh().eof,
        ClientView::fresh().pending.len() == 0,
        ClientView::fresh().max_line == 131072,
        ClientView::fresh().daemon_id.len() == 0,
        ClientView::fresh().exchange is Greeting,
{
}

/// Sending a command changes only what is awaited.
pub proof fn sending_changes_what_is_awaited(c: ClientView, exchange: ExchangeView)
    ensures
        c.awaiting(exchange).exchange == exchange,
        c.awaiting(exchange).rbuf == c.rbuf,
        c.awaiting(exchange).eof == c.eof,
        c.awaiting(exchange).pending == c.pending,
        c.awaiting(exchange).max_line == c.max_line,
        c.awaiting(exchange).daemon_id == c.daemon_id,
{
}

// --- pushes on the wire ---------------------------------------------------------------------

/// The words of a header are what stands between its spaces.
proof fn lemma_pieces(a: Seq<char>, b: Seq<char>, c: Seq<char>)
    requires
        !a.contains(' '),
        !b.contains(' '),
        !c.contains(' '),
    ensures
        client::piece(a + " "@ + b + " "@ + c, 0) == a,
        client::piece(a + " "@ + b + " "@ + c, 1) == b,
        client::piece(a + " "@ + b + " "@ + c, 2) == c,
        client::piece(a + " "@ + b + " "@ + c, 3).len() == 0,
{
    crate::protocol_laws::lemma_space();
    let sp = seq![' '];
    let s = a + " "@ + b + " "@ + c;
    crate::protocol_laws::lemma_split_none(c, ' ');
    crate::protocol_laws::lemma_split_first(b, ' ', c);
    crate::protocol_laws::lemma_split_first(a, ' ', b + sp + c);
    assert(s =~= a + sp + (b + sp + c));
    assert(crate::text::split(s, ' ') =~= seq![a, b, c]);
}

/// `190` is a note, whatever its text: the word `NOTE ` in front of it is no part of
/// it.
pub proof fn note_is_its_text(note: Seq<char>, buf: Seq<u8>, max: nat)
    ensures
        client::push_read(190, "NOTE "@ + note, buf, max) == Read::Done(
            EventView::Note(note),
            buf,
        ),
        !"NOTE "@.is_prefix_of(note) ==> client::push_read(190, note, buf, max) == Read::Done(
            EventView::Note(note),
            buf,
        ),
{
    let header = "NOTE "@ + note;
    assert("NOTE "@.is_prefix_of(header));
    assert(header.skip("NOTE "@.len() as int) =~= note);
}

/// A push with another code than 101, 102 and 190 is refused.
pub proof fn unknown_push_is_refused(code: Code, header: Seq<char>, buf: Seq<u8>, max: nat)
    requires
        code != 101,
        code != 102,
        code != 190,
    ensures
        client::push_read(code, header, buf, max) == Read::<EventView>::Fail(
            ClientErrorView::Protocol("unknown 1xx code "@ + number::decimal(code as nat)),
            buf,
        ),
{
}

/// A drop notice is its type and its count, where the count is a number of digits
/// alone that fits; otherwise it is refused, as is one without its keyword.
pub proof fn drop_notice_is_type_and_count(
    word: Seq<char>,
    msg_type: Seq<char>,
    count: Seq<char>,
    buf: Seq<u8>,
    max: nat,
)
    requires
        !word.contains(' '),
        !msg_type.contains(' '),
        !count.contains(' '),
    ensures
        ({
            let header = word + " "@ + msg_type + " "@ + count;
            let got = client::push_read(102, header, buf, max);
            let good = number::all_digits(count) && number::value(count) <= u64::MAX;
            &&& word != "DROP"@ ==> got == Read::<EventView>::Fail(
                ClientErrorView::Protocol("bad 102 header: "@ + header),
                buf,
            )
            &&& word == "DROP"@ && !good ==> got == Read::<EventView>::Fail(
                ClientErrorView::Protocol("bad 102 count: "@ + header),
                buf,
            )
            &&& word == "DROP"@ && good ==> got == Read::Done(
                EventView::Drop { msg_type, count: number::value(count) as u64 },
                buf,
            )
        }),
{
    lemma_pieces(word, msg_type, count);
}

/// The header of a delivery names type, id and origin; a header without one of them,
/// or without its keyword, is refused, and nothing behind it is read. The body that
/// follows is the message's, and an incomplete one is awaited.
pub proof fn delivery_is_header_and_body(
    word: Seq<char>,
    m: crate::message::MessageView,
    buf: Seq<u8>,
    max: nat,
)
    requires
        !word.contains(' '),
        !m.msg_type.contains(' '),
        !m.msg_id.contains(' '),
        !m.origin.contains(' '),
    ensures
        ({
            let header = word + " "@ + m.msg_type + " "@ + m.msg_id + " "@ + m.origin;
            let got = client::push_read(101, header, buf, max);
            let full = m.msg_type.len() > 0 && m.msg_id.len() > 0 && m.origin.len() > 0;
            &&& word != "MSG"@ ==> got == Read::<EventView>::Fail(
                ClientErrorView::Protocol("bad 101 header: "@ + header),
                buf,
            )
            &&& word == "MSG"@ && !full ==> got == Read::<EventView>::Fail(
                ClientErrorView::Protocol("incomplete 101 header: "@ + header),
                buf,
            )
            &&& word == "MSG"@ && full ==> match client::block_read(buf, max) {
                Read::Done(body, rest) => body == m.body ==> got == Read::Done(
                    EventView::Message(m),
                    rest,
                ),
                Read::Fail(e, rest) => got == Read::<EventView>::Fail(e, rest),
                Read::Need => got == Read::<EventView>::Need,
            }
        }),
{
    crate::protocol_laws::lemma_space();
    let sp = seq![' '];
    let header = word + " "@ + m.msg_type + " "@ + m.msg_id + " "@ + m.origin;
    let c = m.origin;
    let b = m.msg_id + sp + c;
    let a = m.msg_type + sp + b;
    assert(header =~= word + sp + a);
    crate::protocol_laws::lemma_split_none(c, ' ');
    crate::protocol_laws::lemma_split_first(m.msg_id, ' ', c);
    crate::protocol_laws::lemma_split_first(m.msg_type, ' ', b);
    crate::protocol_laws::lemma_split_first(word, ' ', a);
    assert(crate::text::split(header, ' ') =~= seq![word, m.msg_type, m.msg_id, m.origin]);
}

/// A block is its lines up to the line that is a single dot; of a line that starts
/// with two dots the first is taken off, and no other line is touched.
pub proof fn block_is_lines_up_to_the_dot(buf: Seq<u8>, max: nat)
    ensures
        client::line_read(buf, max) is Need ==> client::block_read(buf, max) is Need,
        client::line_read(buf, max) matches Read::Fail(e, rest) ==> client::block_read(buf, max)
            == Read::<Seq<Seq<char>>>::Fail(e, rest),
        client::line_read(buf, max) matches Read::Done(line, rest) ==> {
            &&& line == "."@ ==> client::block_read(buf, max) == Read::Done(
                Seq::<Seq<char>>::empty(),
                rest,
            )
            &&& line != "."@ ==> (client::block_read(rest, max) matches Read::Done(more, end)
                ==> client::block_read(buf, max) == Read::Done(
                seq![
                    if line.len() > 1 && line[0] == '.' && line[1] == '.' {
                        line.skip(1)
                    } else {
                        line
                    },
                ] + more,
                end,
            ))
            &&& line != "."@ && client::block_read(rest, max) is Need ==> client::block_read(
                buf,
                max,
            ) is Need
            &&& line != "."@ ==> (client::block_read(rest, max) matches Read::Fail(e, end)
                ==> client::block_read(buf, max) == Read::<Seq<Seq<char>>>::Fail(e, end))
        },
{
    wire::lemma_find_lf(buf);
    if let Read::Done(line, rest) = client::line_read(buf, max) {
        assert(rest.len() < buf.len());
        if line.len() > 0 {
            assert(line.skip(1) =~= line.drop_first());
        }
    }
}

/// A line ends at the first line feed; a carriage return in front of that is no part
/// of it. A line that is longer than the limit, its carriage return counted, is an
/// error, whether its end has arrived or not.
pub proof fn line_ends_at_the_line_feed(line: Seq<u8>, rest: Seq<u8>, max: nat)
    requires
        !line.contains(10u8),
    ensures
        line.len() > max ==> client::line_read(line + seq![10u8] + rest, max) == Read::<
            Seq<char>,
        >::Fail(
            ClientErrorView::Protocol("line too long"@),
            (line + seq![10u8] + rest).skip(max as int + 1),
        ),
        line.len() <= max && (line.len() == 0 || line.last() != 13u8) ==> client::line_read(
            line + seq![10u8] + rest,
            max,
        ) == Read::Done(crate::text::lossy(line), rest),
        line.len() <= max && line.len() > 0 && line.last() == 13u8 ==> client::line_read(
            line + seq![10u8] + rest,
            max,
        ) == Read::Done(crate::text::lossy(line.drop_last()), rest),
        line.len() > max ==> client::line_read(line, max) == Read::<Seq<char>>::Fail(
            ClientErrorView::Protocol("line too long"@),
            line.skip(max as int + 1),
        ),
        line.len() <= max ==> client::line_read(line, max) is Need,
{
    let buf = line + seq![10u8] + rest;
    wire::lemma_find_lf(buf);
    wire::lemma_find_lf(line);
    let k = wire::find_lf(buf) as int;
    assert(buf[line.len() as int] == 10u8);
    assert(k == line.len()) by {
        if k < line.len() {
            assert(line[k] == buf[k]);
            assert(line.contains(line[k]));
        }
    }
    assert(wire::find_lf(line) == line.len()) by {
        let j = wire::find_lf(line) as int;
        if j < line.len() {
            assert(line.contains(line[j]));
        }
    }
    assert(buf.take(k) =~= line);
    assert(buf.skip(k + 1) =~= rest);
    if line.len() > 0 {
        assert(line.take(line.len() - 1) =~= line.drop_last());
    }
}

} // verus!
