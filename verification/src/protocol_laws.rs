//! What one side of a connection writes, the other side reads.
use vstd::prelude::*;
use vstd::utf8::*;

use crate::client;
use crate::client::EventView;
use crate::client::Read;
use crate::client::UnitView;
use crate::command;
use crate::command::CommandView;
use crate::command::ParseErrorView;
use crate::conn;
use crate::frame;
use crate::message::MessageView;
use crate::number;
use crate::registry::DropView;
use crate::reply;
use crate::reply::ReplyView;
use crate::status;
use crate::status::Code;
use crate::text;
use crate::text::Trim;
use crate::validate;
use crate::wire;

verus! {

broadcast use vstd::string::group_string_axioms;

// --- pieces and lines ---------------------------------------------------------------

/// Text that can stand on a line of its own and is not too long for it, its
/// carriage return counted.
pub open spec fn fits(line: Seq<char>, max: nat) -> bool {
    !line.contains('\n') && encode_utf8(line).len() + 1 <= max
}

/// A word that can stand between spaces on a line.
pub open spec fn is_word(s: Seq<char>) -> bool {
    s.len() > 0 && !s.contains(' ') && !s.contains('\n')
}

/// Body lines that can be sent.
pub open spec fn sendable(lines: Seq<Seq<char>>, max: nat) -> bool {
    2 <= max && forall|i: int|
        0 <= i < lines.len() ==> fits(frame::stuffed(#[trigger] lines[i]), max)
}

pub proof fn lemma_contains_concat(a: Seq<char>, b: Seq<char>, c: char)
    ensures
        (a + b).contains(c) <==> a.contains(c) || b.contains(c),
{
    if a.contains(c) {
        let i = choose|i: int| 0 <= i < a.len() && a[i] == c;
        assert((a + b)[i] == c);
    }
    if b.contains(c) {
        let i = choose|i: int| 0 <= i < b.len() && b[i] == c;
        assert((a + b)[a.len() + i] == c);
    }
    if (a + b).contains(c) {
        let i = choose|i: int| 0 <= i < (a + b).len() && (a + b)[i] == c;
        if i < a.len() {
            assert(a[i] == c);
        } else {
            assert(b[i - a.len()] == c);
        }
    }
}

pub proof fn lemma_split_none(s: Seq<char>, sep: char)
    requires
        !s.contains(sep),
    ensures
        text::split(s, sep) == seq![s],
{
    text::lemma_find(s, sep);
}

pub proof fn lemma_split_first(a: Seq<char>, sep: char, b: Seq<char>)
    requires
        !a.contains(sep),
    ensures
        text::split(a + seq![sep] + b, sep) == seq![a] + text::split(b, sep),
{
    let s = a + seq![sep] + b;
    assert forall|i: int| 0 <= i < a.len() implies s[i] != sep by {
        assert(s[i] == a[i]);
    }
    assert(s[a.len() as int] == sep);
    text::lemma_find_is(s, sep, a.len() as int);
    assert(s.take(a.len() as int) =~= a);
    assert(s.skip(a.len() as int + 1) =~= b);
}

pub proof fn lemma_space()
    ensures
        " "@ == seq![' '],
{
    reveal_strlit(" ");
    assert(" "@ =~= seq![' ']);
}

/// Every character takes at least one byte.
pub proof fn lemma_encode_len(s: Seq<char>)
    ensures
        encode_utf8(s).len() >= s.len(),
    decreases s.len(),
{
    if s.len() > 0 {
        lemma_encode_len(s.drop_first());
    }
}

proof fn lemma_code_digits(code: Code)
    requires
        100 <= code < 1000,
    ensures
        number::decimal(code as nat).len() == 3,
        number::parse_digits(number::decimal(code as nat), 65535) == Some(code as nat),
        !number::decimal(code as nat).contains('\n'),
        !number::decimal(code as nat).contains(' '),
{
    let n = code as nat;
    number::decimal_round_trip(n, 65535);
    number::lemma_decimal(n);
    assert(number::decimal(n / 10 / 10).len() == 1);
    assert(number::decimal(n / 10).len() == 2);
    assert(forall|i: int|
        0 <= i < number::decimal(n).len() ==> number::is_digit(#[trigger] number::decimal(n)[i]));
}

/// The receiver of a status line gets its code and its text.
pub proof fn status_line_round_trip(code: Code, text: Seq<char>)
    requires
        100 <= code < 1000,
    ensures
        client::status_of(reply::status_text(code, text)) == Ok::<
            (Code, Seq<char>),
            client::ClientErrorView,
        >((code, text)),
{
    lemma_code_digits(code);
    lemma_space();
    let line = reply::status_text(code, text);
    lemma_encode_len(line);
    assert(line.take(3) =~= number::decimal(code as nat));
    assert(line[3] == ' ');
    assert(line.skip(4) =~= text);
}

/// The receiver of a line gets its text, and what follows it stays.
pub proof fn line_round_trip(line: Seq<char>, rest: Seq<char>, max: nat)
    requires
        fits(line, max),
    ensures
        client::line_read(encode_utf8(line + frame::CRLF@ + rest), max) == Read::Done(
            line,
            encode_utf8(rest),
        ),
{
    wire::sent_line_is_first_line(line, rest);
}

/// The receiver of a DATA block gets the body lines, and what follows stays.
pub proof fn block_round_trip(lines: Seq<Seq<char>>, rest: Seq<char>, max: nat)
    requires
        sendable(lines, max),
    ensures
        client::block_read(encode_utf8(frame::block(lines) + rest), max) == Read::Done(
            lines,
            encode_utf8(rest),
        ),
    decreases lines.len(),
{
    let buf = frame::block(lines) + rest;
    if lines.len() == 0 {
        reveal_strlit(".");
        assert(buf =~= frame::TERMINATOR@ + frame::CRLF@ + rest);
        let dot = frame::TERMINATOR@;
        assert(dot =~= seq!['.']);
        is_ascii_chars_encode_utf8(dot);
        line_round_trip(dot, rest, max);
        assert(lines =~= Seq::<Seq<char>>::empty());
    } else {
        let tail = lines.drop_first();
        let first = frame::stuffed(lines[0]);
        frame::lemma_stuffed_lines(lines);
        let more = frame::block(tail) + rest;
        assert(buf =~= first + frame::CRLF@ + more);
        line_round_trip(first, more, max);
        frame::stuffed_line_is_no_terminator(lines[0]);
        frame::stuffing_round_trip(lines[0]);
        assert forall|i: int| 0 <= i < tail.len() implies fits(
            frame::stuffed(#[trigger] tail[i]),
            max,
        ) by {
            assert(tail[i] == lines[i + 1]);
        }
        block_round_trip(tail, rest, max);
        assert(seq![lines[0]] + tail =~= lines);
    }
}

// --- what the server writes ----------------------------------------------------------

/// A reply that a client can read: a code of three digits that is no push, a text
/// of one line, and a block exactly where the code announces one.
pub open spec fn readable(r: ReplyView, max: nat) -> bool {
    &&& 200 <= r.code < 1000
    &&& fits(reply::status_text(r.code, r.text), max)
    &&& match r.block {
        Some(lines) => client::has_block(r.code) && sendable(lines, max),
        None => !client::has_block(r.code),
    }
}

/// A client reads the reply that the server wrote.
pub proof fn reply_round_trip(r: ReplyView, rest: Seq<char>, max: nat)
    requires
        readable(r, max),
    ensures
        client::unit_read(encode_utf8(r.encoded() + rest), max) == Read::Done(
            UnitView::Reply(r),
            encode_utf8(rest),
        ),
{
    let line = reply::status_text(r.code, r.text);
    status_line_round_trip(r.code, r.text);
    match r.block {
        Some(lines) => {
            let more = frame::block(lines) + rest;
            assert(r.encoded() + rest =~= line + frame::CRLF@ + more);
            line_round_trip(line, more, max);
            block_round_trip(lines, rest, max);
        },
        None => {
            assert(r.encoded() + rest =~= line + frame::CRLF@ + rest);
            line_round_trip(line, rest, max);
        },
    }
}

/// A message whose header and body can be sent.
pub open spec fn deliverable(m: MessageView, max: nat) -> bool {
    &&& is_word(m.msg_type)
    &&& is_word(m.msg_id)
    &&& is_word(m.origin)
    &&& encode_utf8(m.msg_header()).len() + 1 <= max
    &&& sendable(m.body, max)
}

/// The three words of a message header, after a keyword.
pub proof fn lemma_header_pieces(word: Seq<char>, m: MessageView)
    requires
        is_word(word),
        is_word(m.msg_type),
        is_word(m.msg_id),
        is_word(m.origin),
    ensures
        text::split(word + m.header_fields(), ' ') == seq![
            word,
            m.msg_type,
            m.msg_id,
            m.origin,
        ],
        !(word + m.header_fields()).contains('\n'),
{
    lemma_space();
    let sp = seq![' '];
    let c = m.origin;
    let b = m.msg_id + sp + c;
    let a = m.msg_type + sp + b;
    let s = word + sp + a;
    assert(s =~= word + m.header_fields());
    lemma_split_none(c, ' ');
    lemma_split_first(m.msg_id, ' ', c);
    lemma_split_first(m.msg_type, ' ', b);
    lemma_split_first(word, ' ', a);
    assert(text::split(s, ' ') =~= seq![word, m.msg_type, m.msg_id, m.origin]);
    assert(!sp.contains('\n'));
    lemma_contains_concat(m.msg_id, sp, '\n');
    lemma_contains_concat(m.msg_id + sp, c, '\n');
    lemma_contains_concat(m.msg_type, sp, '\n');
    lemma_contains_concat(m.msg_type + sp, b, '\n');
    lemma_contains_concat(word, sp, '\n');
    lemma_contains_concat(word + sp, a, '\n');
}

/// A subscriber reads the message that was delivered: type, id, origin and body
/// lines.
pub proof fn delivery_round_trip(m: MessageView, rest: Seq<char>, max: nat)
    requires
        deliverable(m, max),
    ensures
        client::unit_read(encode_utf8(m.delivery() + rest), max) == Read::Done(
            UnitView::Push(EventView::Message(m)),
            encode_utf8(rest),
        ),
        client::event_read(encode_utf8(m.delivery() + rest), max) == Read::Done(
            EventView::Message(m),
            encode_utf8(rest),
        ),
{
    reveal_strlit("MSG");
    reveal_strlit(" MSG");
    lemma_space();
    lemma_code_digits(status::MSG);
    let header = "MSG"@ + m.header_fields();
    let line = reply::status_text(status::MSG, header);
    assert(line =~= m.msg_header()) by {
        assert(" MSG"@ =~= " "@ + "MSG"@);
    }
    lemma_header_pieces("MSG"@, m);
    let digits = number::decimal(status::MSG as nat);
    assert(!" "@.contains('\n'));
    lemma_contains_concat(digits, " "@, '\n');
    lemma_contains_concat(digits + " "@, header, '\n');
    status_line_round_trip(status::MSG, header);
    let more = frame::block(m.body) + rest;
    assert(m.delivery() + rest =~= line + frame::CRLF@ + more);
    line_round_trip(line, more, max);
    block_round_trip(m.body, rest, max);
    let pieces = text::split(header, ' ');
    assert(pieces[0] == "MSG"@ && pieces[1] == m.msg_type && pieces[2] == m.msg_id && pieces[3]
        == m.origin);
}

/// A slow subscriber reads how many messages of which type it missed.
pub proof fn drop_notice_round_trip(d: DropView, rest: Seq<char>, max: nat)
    requires
        is_word(d.msg_type),
        encode_utf8(conn::drop_notice(d)).len() <= max,
    ensures
        client::unit_read(encode_utf8(conn::drop_notice(d) + rest), max) == Read::Done(
            UnitView::Push(EventView::Drop { msg_type: d.msg_type, count: d.count }),
            encode_utf8(rest),
        ),
        client::event_read(encode_utf8(conn::drop_notice(d) + rest), max) == Read::Done(
            EventView::Drop { msg_type: d.msg_type, count: d.count },
            encode_utf8(rest),
        ),
{
    reveal_strlit("DROP");
    reveal_strlit("DROP ");
    lemma_space();
    lemma_code_digits(status::DROP);
    let count = number::decimal(d.count as nat);
    number::lemma_decimal(d.count as nat);
    number::decimal_round_trip(d.count as nat, u64::MAX as nat);
    let sp = seq![' '];
    let tail = d.msg_type + sp + count;
    let header = "DROP "@ + d.msg_type + " "@ + count;
    assert(header =~= "DROP"@ + sp + tail) by {
        assert("DROP "@ =~= "DROP"@ + sp);
    }
    assert(!count.contains(' ') && !count.contains('\n')) by {
        assert(forall|i: int| 0 <= i < count.len() ==> number::is_digit(#[trigger] count[i]));
    }
    lemma_split_none(count, ' ');
    lemma_split_first(d.msg_type, ' ', count);
    lemma_split_first("DROP"@, ' ', tail);
    let pieces = text::split(header, ' ');
    assert(pieces =~= seq!["DROP"@, d.msg_type, count]);
    assert(!sp.contains('\n'));
    lemma_contains_concat(d.msg_type, sp, '\n');
    lemma_contains_concat(d.msg_type + sp, count, '\n');
    lemma_contains_concat("DROP"@, sp, '\n');
    lemma_contains_concat("DROP"@ + sp, tail, '\n');
    let digits = number::decimal(status::DROP as nat);
    lemma_contains_concat(digits, sp, '\n');
    lemma_contains_concat(digits + sp, header, '\n');
    let line = reply::status_text(status::DROP, header);
    assert(line =~= digits + sp + header);
    status_line_round_trip(status::DROP, header);
    assert(conn::drop_notice(d) + rest =~= line + frame::CRLF@ + rest);
    assert(encode_utf8(line).len() + 1 <= max) by {
        wire::lemma_encode_concat(line, frame::CRLF@);
        reveal_strlit("\r\n");
        lemma_encode_len(frame::CRLF@);
    }
    line_round_trip(line, rest, max);
}

/// A client learns the daemon's id from its greeting.
pub proof fn greeting_round_trip(c: client::ClientView, daemon_id: Seq<char>, rest: Seq<char>)
    requires
        c.exchange is Greeting,
        is_word(daemon_id),
        fits(crate::greeting_text(daemon_id, "macro-bus"@), c.max_line),
        c.rbuf == encode_utf8(
            crate::greeting_text(daemon_id, "macro-bus"@) + frame::CRLF@ + rest,
        ),
    ensures
        c.polled().0 == (client::ClientView {
            rbuf: encode_utf8(rest),
            daemon_id,
            exchange: client::ExchangeView::Idle,
            ..c
        }),
        c.polled().1 matches client::ProgressView::Done(Ok(_)),
{
    lemma_space();
    let after = "macro-bus"@ + " "@ + crate::PROTOCOL_ID@ + " ready"@;
    let words = daemon_id + seq![' '] + after;
    let line = reply::status_text(status::SERVICE_READY, words);
    assert(line =~= crate::greeting_text(daemon_id, "macro-bus"@));
    status_line_round_trip(status::SERVICE_READY, words);
    line_round_trip(line, rest, c.max_line);
    lemma_split_first(daemon_id, ' ', after);
    assert(text::split(words, ' ')[0] == daemon_id);
    assert(c.polled() == c.greeted());
}

// --- what the client writes ---------------------------------------------------------------

proof fn lemma_trim(s: Seq<char>, set: Trim)
    requires
        s.len() > 0,
        !set.has(s[0]),
        !set.has(s.last()),
    ensures
        text::trim_start(s, set) == s,
        text::trim(s, set) == s,
{
}

/// The words of a line made of two words.
proof fn lemma_two_words(a: Seq<char>, b: Seq<char>)
    requires
        is_word(a),
        is_word(b),
    ensures
        text::words(a + " "@ + b) == seq![a, b],
{
    lemma_space();
    lemma_split_none(b, ' ');
    lemma_split_first(a, ' ', b);
    let pieces = text::split(a + " "@ + b, ' ');
    let keep = |w: Seq<char>| w.len() > 0;
    assert(pieces =~= seq![a, b]);
    assert(pieces.drop_last() =~= seq![a]);
    assert(pieces.drop_last().drop_last() =~= Seq::<Seq<char>>::empty());
    reveal(Seq::filter);
    assert(seq![a].filter(keep) =~= seq![a]);
    assert(pieces.filter(keep) =~= seq![a, b]);
}

pub proof fn lemma_type_is_word(t: Seq<char>)
    requires
        validate::valid_type(t),
    ensures
        is_word(t),
        forall|i: int| 0 <= i < t.len() ==> !text::is_white(#[trigger] t[i]),
{
    assert forall|i: int| 0 <= i < t.len() implies !text::is_white(#[trigger] t[i]) && t[i] != ' '
        && t[i] != '\n' by {
        assert(validate::tchar(t[i]));
    }
}

pub proof fn lemma_key_is_word(k: Seq<char>)
    requires
        validate::valid_key(k),
    ensures
        is_word(k),
        forall|i: int| 0 <= i < k.len() ==> !text::is_white(#[trigger] k[i]),
{
    assert forall|i: int| 0 <= i < k.len() implies !text::is_white(#[trigger] k[i]) && k[i] != ' '
        && k[i] != '\n' by {
        assert(validate::vchar(k[i]));
    }
}

/// A verb of a command, in capital letters.
pub open spec fn capitals(s: Seq<char>) -> bool {
    s.len() > 0 && forall|i: int| 0 <= i < s.len() ==> 'A' <= #[trigger] s[i] <= 'Z'
}

proof fn lemma_verb_alone(verb: Seq<char>)
    requires
        capitals(verb),
    ensures
        command::parsed(verb) == command::dispatch(verb, Seq::empty()),
{
    lemma_trim(verb, Trim::Ascii);
    text::lemma_find_is(verb, ' ', verb.len() as int);
    assert(verb.take(verb.len() as int) =~= verb);
    assert(text::upper(verb) =~= verb);
}

proof fn lemma_verb_and_args(verb: Seq<char>, args: Seq<char>)
    requires
        capitals(verb),
        args.len() > 0,
        !text::is_white(args[0]),
        !text::is_white(args.last()),
    ensures
        command::parsed(verb + " "@ + args) == command::dispatch(verb, args),
        text::trim(args, Trim::White) == args,
{
    lemma_space();
    let line = verb + " "@ + args;
    assert(line[0] == verb[0] && line.last() == args.last());
    lemma_trim(line, Trim::Ascii);
    lemma_trim(args, Trim::Space);
    lemma_trim(args, Trim::White);
    assert forall|i: int| 0 <= i < verb.len() implies line[i] != ' ' by {
        assert(line[i] == verb[i]);
    }
    assert(line[verb.len() as int] == ' ');
    text::lemma_find_is(line, ' ', verb.len() as int);
    assert(line.take(verb.len() as int) =~= verb);
    assert(line.skip(verb.len() as int + 1) =~= args);
    assert(text::upper(verb) =~= verb);
}

proof fn lemma_verbs()
    ensures
        capitals("REGISTER"@),
        capitals("PUBLISH"@),
        capitals("SUBSCRIBE"@),
        capitals("UNSUBSCRIBE"@),
        capitals("LIST"@),
        capitals("TYPES"@),
        capitals("CAPABILITIES"@),
        capitals("HELP"@),
        capitals("QUIT"@),
{
    reveal_strlit("REGISTER");
    reveal_strlit("PUBLISH");
    reveal_strlit("SUBSCRIBE");
    reveal_strlit("UNSUBSCRIBE");
    reveal_strlit("LIST");
    reveal_strlit("TYPES");
    reveal_strlit("CAPABILITIES");
    reveal_strlit("HELP");
    reveal_strlit("QUIT");
}

/// The verbs differ.
pub proof fn lemma_verbs_differ()
    ensures
        "REGISTER"@ != "CAPABILITIES"@,
        "REGISTER"@ != "HELP"@,
        "REGISTER"@ != "QUIT"@,
        "PUBLISH"@ != "CAPABILITIES"@,
        "PUBLISH"@ != "HELP"@,
        "PUBLISH"@ != "QUIT"@,
        "PUBLISH"@ != "REGISTER"@,
        "SUBSCRIBE"@ != "CAPABILITIES"@,
        "SUBSCRIBE"@ != "HELP"@,
        "SUBSCRIBE"@ != "QUIT"@,
        "SUBSCRIBE"@ != "REGISTER"@,
        "SUBSCRIBE"@ != "PUBLISH"@,
        "UNSUBSCRIBE"@ != "CAPABILITIES"@,
        "UNSUBSCRIBE"@ != "HELP"@,
        "UNSUBSCRIBE"@ != "QUIT"@,
        "UNSUBSCRIBE"@ != "REGISTER"@,
        "UNSUBSCRIBE"@ != "PUBLISH"@,
        "UNSUBSCRIBE"@ != "SUBSCRIBE"@,
        "LIST"@ != "CAPABILITIES"@,
        "LIST"@ != "HELP"@,
        "LIST"@ != "QUIT"@,
        "LIST"@ != "REGISTER"@,
        "LIST"@ != "PUBLISH"@,
        "LIST"@ != "SUBSCRIBE"@,
        "LIST"@ != "UNSUBSCRIBE"@,
        "HELP"@ != "CAPABILITIES"@,
        "QUIT"@ != "CAPABILITIES"@,
        "QUIT"@ != "HELP"@,
{
    reveal_strlit("REGISTER");
    reveal_strlit("PUBLISH");
    reveal_strlit("SUBSCRIBE");
    reveal_strlit("UNSUBSCRIBE");
    reveal_strlit("LIST");
    reveal_strlit("CAPABILITIES");
    reveal_strlit("HELP");
    reveal_strlit("QUIT");
    assert("LIST"@[0] == 'L' && "HELP"@[0] == 'H' && "QUIT"@[0] == 'Q');
    assert("REGISTER"@.len() == 8 && "PUBLISH"@.len() == 7 && "SUBSCRIBE"@.len() == 9);
    assert("UNSUBSCRIBE"@.len() == 11 && "CAPABILITIES"@.len() == 12);
    assert("LIST"@.len() == 4 && "HELP"@.len() == 4 && "QUIT"@.len() == 4);
}

proof fn lemma_pair_request(verb: Seq<char>, start: Seq<char>, msg_type: Seq<char>, key: Seq<char>)
    requires
        capitals(verb),
        start == verb + " "@,
        validate::valid_type(msg_type),
        validate::valid_key(key),
    ensures
        command::parsed(start + msg_type + " "@ + key) == command::dispatch(
            verb,
            msg_type + " "@ + key,
        ),
        command::type_and_key(msg_type + " "@ + key) == Ok::<_, ParseErrorView>((msg_type, key)),
{
    lemma_space();
    lemma_type_is_word(msg_type);
    lemma_key_is_word(key);
    let pair = msg_type + " "@ + key;
    lemma_two_words(msg_type, key);
    assert(pair[0] == msg_type[0] && pair.last() == key.last());
    assert(start + msg_type + " "@ + key =~= verb + " "@ + pair);
    lemma_verb_and_args(verb, pair);
}

proof fn lemma_type_request(verb: Seq<char>, start: Seq<char>, msg_type: Seq<char>)
    requires
        capitals(verb),
        start == verb + " "@,
        validate::valid_type(msg_type),
    ensures
        command::parsed(start + msg_type) == command::dispatch(verb, msg_type),
        command::type_arg(msg_type) == Ok::<_, ParseErrorView>(msg_type),
{
    lemma_space();
    lemma_type_is_word(msg_type);
    lemma_verb_and_args(verb, msg_type);
}

proof fn lemma_list_request()
    ensures
        command::parsed("LIST TYPES"@) == Ok::<CommandView, ParseErrorView>(
            CommandView::ListTypes,
        ),
{
    lemma_verbs();
    lemma_verbs_differ();
    let types = "TYPES"@;
    assert("LIST TYPES"@ =~= "LIST"@ + " "@ + types) by {
        reveal_strlit("LIST TYPES");
        reveal_strlit("LIST");
        reveal_strlit("TYPES");
        reveal_strlit(" ");
    }
    assert('A' <= types[0] <= 'Z' && 'A' <= types[types.len() - 1] <= 'Z');
    lemma_verb_and_args("LIST"@, types);
    assert(text::upper(types) =~= types);
}

proof fn lemma_starts()
    ensures
        "REGISTER "@ == "REGISTER"@ + " "@,
        "PUBLISH "@ == "PUBLISH"@ + " "@,
        "SUBSCRIBE "@ == "SUBSCRIBE"@ + " "@,
        "UNSUBSCRIBE "@ == "UNSUBSCRIBE"@ + " "@,
{
    reveal_strlit(" ");
    reveal_strlit("REGISTER ");
    reveal_strlit("REGISTER");
    assert("REGISTER "@ =~= "REGISTER"@ + " "@);
    reveal_strlit("PUBLISH ");
    reveal_strlit("PUBLISH");
    assert("PUBLISH "@ =~= "PUBLISH"@ + " "@);
    reveal_strlit("SUBSCRIBE ");
    reveal_strlit("SUBSCRIBE");
    assert("SUBSCRIBE "@ =~= "SUBSCRIBE"@ + " "@);
    reveal_strlit("UNSUBSCRIBE ");
    reveal_strlit("UNSUBSCRIBE");
    assert("UNSUBSCRIBE "@ =~= "UNSUBSCRIBE"@ + " "@);
}

/// The server reads the command that a client sent, with its arguments.
pub proof fn requests_are_understood(msg_type: Seq<char>, key: Seq<char>)
    requires
        validate::valid_type(msg_type),
        validate::valid_key(key),
    ensures
        command::parsed("REGISTER "@ + msg_type + " "@ + key) == Ok::<CommandView, ParseErrorView>(
            CommandView::Register { msg_type, key },
        ),
        command::parsed("PUBLISH "@ + msg_type + " "@ + key) == Ok::<CommandView, ParseErrorView>(
            CommandView::Publish { msg_type, key },
        ),
        command::parsed("SUBSCRIBE "@ + msg_type) == Ok::<CommandView, ParseErrorView>(
            CommandView::Subscribe { msg_type },
        ),
        command::parsed("UNSUBSCRIBE "@ + msg_type) == Ok::<CommandView, ParseErrorView>(
            CommandView::Unsubscribe { msg_type },
        ),
        command::parsed("LIST TYPES"@) == Ok::<CommandView, ParseErrorView>(
            CommandView::ListTypes,
        ),
        command::parsed("CAPABILITIES"@) == Ok::<CommandView, ParseErrorView>(
            CommandView::Capabilities,
        ),
        command::parsed("HELP"@) == Ok::<CommandView, ParseErrorView>(CommandView::Help),
        command::parsed("QUIT"@) == Ok::<CommandView, ParseErrorView>(CommandView::Quit),
{
    lemma_verbs();
    lemma_verbs_differ();
    lemma_starts();
    lemma_pair_request("REGISTER"@, "REGISTER "@, msg_type, key);
    lemma_pair_request("PUBLISH"@, "PUBLISH "@, msg_type, key);
    lemma_type_request("SUBSCRIBE"@, "SUBSCRIBE "@, msg_type);
    lemma_type_request("UNSUBSCRIBE"@, "UNSUBSCRIBE "@, msg_type);
    lemma_list_request();
    lemma_verb_alone("CAPABILITIES"@);
    lemma_verb_alone("HELP"@);
    lemma_verb_alone("QUIT"@);
}

} // verus!
