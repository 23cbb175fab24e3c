//! A daemon holds valid names only, and a client reads all that it is sent.
use vstd::prelude::*;
use vstd::utf8::*;

use crate::body::Received;
use crate::client;
use crate::client::ClientView;
use crate::client::EventView;
use crate::client::Read;
use crate::client::UnitView;
use crate::command;
use crate::command::CommandView;
use crate::config::Limits;
use crate::conn;
use crate::conn::ConnView;
use crate::conn::DraftView;
use crate::conn::PhaseView;
use crate::frame;
use crate::number;
use crate::protocol_laws;
use crate::queue::HandleView;
use crate::queue::SendOutcome;
use crate::registry;
use crate::registry::DropView;
use crate::registry::RegistryView;
use crate::reply;
use crate::reply::ReplyView;
use crate::status;
use crate::table;
use crate::text;
use crate::validate;
use crate::wire;

verus! {

broadcast use vstd::string::group_string_axioms;

// --- names --------------------------------------------------------------------------

/// Whether the types of all drop counts are tokens.
pub open spec fn token_drops(drops: Seq<DropView>) -> bool {
    forall|i: int| 0 <= i < drops.len() ==> validate::valid_type(#[trigger] drops[i].msg_type)
}

/// Whether a registry holds valid names: finitely many types, all of them tokens,
/// each with a key of visible characters.
pub open spec fn well_named(r: RegistryView) -> bool {
    &&& r.types.dom().finite()
    &&& forall|t: Seq<char>| #[trigger]
        r.types.contains_key(t) ==> validate::valid_type(t) && validate::valid_key(r.types[t].key)
    &&& token_drops(r.drops)
}

/// Whether the publish that a connection is in the middle of, if it is, has a
/// valid type and key.
pub open spec fn well_spoken(c: ConnView) -> bool {
    c.phase matches PhaseView::Body(d) ==> validate::valid_type(d.msg_type)
        && validate::valid_key(d.key)
}

/// A daemon that has just started holds valid names.
pub proof fn fresh_registry_is_well_named(daemon_id: Seq<char>, seen_capacity: nat)
    ensures
        well_named(RegistryView::fresh(daemon_id, seen_capacity)),
{
}

/// The counts that remain of valid ones are valid.
proof fn lemma_filter_tokens(drops: Seq<DropView>, keep: spec_fn(DropView) -> bool)
    requires
        token_drops(drops),
    ensures
        token_drops(drops.filter(keep)),
    decreases drops.len(),
{
    reveal(Seq::filter);
    if drops.len() > 0 {
        let head = drops.drop_last();
        assert forall|i: int| 0 <= i < head.len() implies validate::valid_type(
            #[trigger] head[i].msg_type,
        ) by {
            assert(head[i] == drops[i]);
        }
        lemma_filter_tokens(head, keep);
        assert(validate::valid_type(drops[drops.len() - 1].msg_type));
    }
}

proof fn lemma_fanned_tokens(
    drops: Seq<DropView>,
    handles: Seq<HandleView>,
    msg_type: Seq<char>,
    outs: Seq<SendOutcome>,
)
    requires
        token_drops(drops),
        validate::valid_type(msg_type),
    ensures
        token_drops(registry::fanned_drops(drops, handles, msg_type, outs)),
    decreases outs.len(),
{
    if outs.len() > 0 {
        lemma_fanned_tokens(drops, handles, msg_type, outs.drop_last());
        let before = registry::fanned_drops(drops, handles, msg_type, outs.drop_last());
        let after = registry::fanned_drops(drops, handles, msg_type, outs);
        assert forall|i: int| 0 <= i < after.len() implies validate::valid_type(
            #[trigger] after[i].msg_type,
        ) by {
            if i < before.len() {
                assert(validate::valid_type(before[i].msg_type));
            }
        }
    }
}

/// Fanning out a message of a valid type keeps the names valid.
pub proof fn lemma_fanned_well_named(
    r: RegistryView,
    msg: crate::message::MessageView,
    outs: Seq<SendOutcome>,
)
    requires
        well_named(r),
        validate::valid_type(msg.msg_type),
    ensures
        well_named(r.fanned(msg, outs)),
{
    lemma_fanned_tokens(r.drops, r.listeners(msg.msg_type), msg.msg_type, outs);
}

/// Every step of a connection keeps the names valid.
pub proof fn steps_keep_names_valid(
    c: ConnView,
    r: RegistryView,
    now_ms: u64,
    outs: Seq<SendOutcome>,
)
    requires
        well_named(r),
        well_spoken(c),
    ensures
        ({
            let (c2, r2, _) = c.stepped(r, now_ms, outs);
            well_spoken(c2) && well_named(r2)
        }),
{
    match c.phase {
        PhaseView::Command => {
            lemma_filter_tokens(r.drops, |d: DropView| d.conn != c.id);
            let (take, _) = wire::taken(c.rbuf, c.limits.max_command_line_bytes as nat);
            if let wire::LineTakeView::Line(line) = take {
                command::parsed_command_is_valid(text::lossy(line));
            }
        },
        PhaseView::Body(d) => {
            let (body, _, _) = d.body.received(c.rbuf, c.limits);
            let msg = r.message(d.msg_type, body.lines);
            let noted = RegistryView {
                seq: registry::next_seq(r.seq),
                seen: r.seen.with(msg.msg_id),
                ..r
            };
            lemma_fanned_well_named(noted, msg, outs);
        },
    }
}

pub proof fn lemma_unsubscribed_keeps(r: RegistryView, types: Seq<Seq<char>>, conn: u64)
    ensures
        r.unsubscribed_all(types, conn).types == r.types,
        r.unsubscribed_all(types, conn).drops == r.drops,
    decreases types.len(),
{
    if types.len() > 0 {
        lemma_unsubscribed_keeps(r, types.drop_last(), conn);
    }
}

/// The end of a connection keeps the names valid.
pub proof fn end_keeps_names_valid(c: ConnView, r: RegistryView)
    requires
        well_named(r),
    ensures
        well_named(r.unsubscribed_all(c.subs, c.id).drops_taken(c.id)),
{
    lemma_unsubscribed_keeps(r, c.subs, c.id);
    lemma_filter_tokens(r.drops, |d: DropView| d.conn != c.id);
}

// --- what the server writes and the client reads ------------------------------------------

/// A reply whose lines are lines: a code of three digits that is no push, a text
/// without a line feed, and a block, of lines without a line feed, exactly where
/// the code announces one.
pub open spec fn plain(reply: ReplyView) -> bool {
    &&& 200 <= reply.code < 1000
    &&& !reply.text.contains('\n')
    &&& match reply.block {
        Some(lines) => client::has_block(reply.code) && single_lined(lines),
        None => !client::has_block(reply.code),
    }
}

/// Lines without a line feed.
pub open spec fn single_lined(lines: Seq<Seq<char>>) -> bool {
    forall|i: int| 0 <= i < lines.len() ==> !(#[trigger] lines[i]).contains('\n')
}

/// The reply that a step writes, if it writes one.
pub open spec fn step_reply(
    c: ConnView,
    r: RegistryView,
    now_ms: u64,
    outs: Seq<SendOutcome>,
) -> Option<ReplyView> {
    match c.phase {
        PhaseView::Command => {
            let (take, rest) = wire::taken(c.rbuf, c.limits.max_command_line_bytes as nat);
            match take {
                wire::LineTakeView::Line(line) => Some(
                    (ConnView { rbuf: rest, ..c }).handled(
                        r.drops_taken(c.id),
                        text::lossy(line),
                        now_ms,
                    ).reply,
                ),
                wire::LineTakeView::TooLong => Some(
                    ReplyView::line(status::SYNTAX, "command line too long"@),
                ),
                wire::LineTakeView::Need => None,
            }
        },
        PhaseView::Body(d) => {
            let (body, _, got) = d.body.received(c.rbuf, c.limits);
            if got == Received::End {
                Some(c.finished(r, DraftView { body, ..d }, outs).reply)
            } else {
                None
            }
        },
    }
}

/// A text made of two without a line feed has none.
proof fn lemma_no_lf(a: Seq<char>, b: Seq<char>)
    requires
        !a.contains('\n'),
        !b.contains('\n'),
    ensures
        !(a + b).contains('\n'),
{
    protocol_laws::lemma_contains_concat(a, b, '\n');
}

/// A token stands on one line.
proof fn lemma_token_no_lf(t: Seq<char>)
    requires
        validate::valid_type(t),
    ensures
        !t.contains('\n'),
{
    protocol_laws::lemma_type_is_word(t);
}

/// The reason why a line does not parse is one line.
proof fn lemma_parse_error_plain(line: Seq<char>)
    ensures
        match command::parsed(line) {
            Err(e) => plain(ReplyView::line(e.code, e.reason)),
            Ok(_) => true,
        },
{
    reveal_strlit("command takes no arguments");
    reveal_strlit("missing argument");
    reveal_strlit("too many arguments");
    reveal_strlit("missing arguments");
    reveal_strlit("missing second argument");
    reveal_strlit("invalid message type name");
    reveal_strlit("invalid authorization key");
    reveal_strlit("LIST requires a sub-command (TYPES)");
    reveal_strlit("only LIST TYPES is supported");
    reveal_strlit("command unrecognized");
    reveal_strlit("empty command");
}

/// The capability listing consists of lines.
proof fn lemma_capabilities_plain(limits: Limits)
    ensures
        single_lined(conn::capability_lines(limits)),
{
    reveal_strlit("VERSION ");
    reveal_strlit("MBP/1.0");
    reveal_strlit("MAXMSG ");
    reveal_strlit("QUEUE ");
    reveal_strlit("DROP-POLICY tail-drop");
    reveal_strlit("PAYLOAD text");
    reveal_strlit("TLS federation");
    number::lemma_decimal(limits.max_message_bytes as nat);
    number::lemma_decimal(limits.queue_depth as nat);
    lemma_no_lf("VERSION "@, crate::PROTOCOL_ID@);
    lemma_no_lf("MAXMSG "@, number::decimal(limits.max_message_bytes as nat));
    lemma_no_lf("QUEUE "@, number::decimal(limits.queue_depth as nat));
}

/// The help text consists of lines.
proof fn lemma_help_plain()
    ensures
        single_lined(conn::help_lines()),
{
    reveal_strlit("REGISTER <type> <key>    claim a type (first-registrant wins)");
    reveal_strlit("SUBSCRIBE <type>         start receiving a type (no key)");
    reveal_strlit("UNSUBSCRIBE <type>       stop receiving a type");
    reveal_strlit("PUBLISH <type> <key>     publish; then send body, end with '.'");
    reveal_strlit("LIST TYPES               list known types");
    reveal_strlit("CAPABILITIES             list capabilities");
    reveal_strlit("HELP                     this help");
    reveal_strlit("QUIT                     close the connection");
}

/// The listing of the types consists of lines.
proof fn lemma_type_names_plain(r: RegistryView)
    requires
        well_named(r),
    ensures
        single_lined(conn::type_names(r)),
{
    let some = table::lemma_listable(r.types.dom());
    assert(registry::lists_names(some, r.types.dom()));
    let names = conn::type_names(r);
    assert forall|i: int| 0 <= i < names.len() implies !(#[trigger] names[i]).contains('\n') by {
        assert(names.contains(names[i]));
        assert(r.types.dom().contains(names[i]));
        assert(r.types.contains_key(names[i]));
        lemma_token_no_lf(names[i]);
    }
}

proof fn lemma_command_plain(c: ConnView, r: RegistryView, cmd: CommandView, now_ms: u64)
    requires
        well_named(r),
        match cmd {
            CommandView::Register { msg_type, key } => validate::valid_type(msg_type),
            CommandView::Publish { msg_type, key } => validate::valid_type(msg_type),
            CommandView::Subscribe { msg_type } => validate::valid_type(msg_type),
            CommandView::Unsubscribe { msg_type } => validate::valid_type(msg_type),
            _ => true,
        },
    ensures
        plain(c.commanded(r, cmd, now_ms).reply),
{
    reveal_strlit("closing connection");
    reveal_strlit("capabilities follow");
    reveal_strlit("help follows");
    reveal_strlit("type list follows");
    reveal_strlit(" registered");
    reveal_strlit(" already registered");
    reveal_strlit(" not registered");
    reveal_strlit("authorization key mismatch");
    reveal_strlit("subscribed ");
    reveal_strlit("unsubscribed ");
    reveal_strlit("enter message body; end with <CRLF>.<CRLF>");
    match cmd {
        CommandView::Capabilities => lemma_capabilities_plain(c.limits),
        CommandView::Help => lemma_help_plain(),
        CommandView::ListTypes => lemma_type_names_plain(r),
        CommandView::Quit => {},
        CommandView::Register { msg_type, key } => {
            lemma_token_no_lf(msg_type);
            lemma_no_lf(msg_type, " registered"@);
            lemma_no_lf(msg_type, " already registered"@);
        },
        CommandView::Publish { msg_type, key } => {
            lemma_token_no_lf(msg_type);
            lemma_no_lf(msg_type, " not registered"@);
        },
        CommandView::Subscribe { msg_type } => {
            lemma_token_no_lf(msg_type);
            lemma_no_lf("subscribed "@, msg_type);
        },
        CommandView::Unsubscribe { msg_type } => {
            lemma_token_no_lf(msg_type);
            lemma_no_lf("unsubscribed "@, msg_type);
        },
    }
}

/// A step writes the drop notices that are due, where no exchange is under way,
/// and then its reply, if it has one; and that reply consists of lines.
pub proof fn step_writes_notices_and_reply(
    c: ConnView,
    r: RegistryView,
    now_ms: u64,
    outs: Seq<SendOutcome>,
)
    requires
        well_named(r),
        well_spoken(c),
    ensures
        c.stepped(r, now_ms, outs).2.output == (if c.phase is Command {
            conn::drop_notices(registry::drops_of(r.drops, c.id))
        } else {
            Seq::empty()
        }) + (match step_reply(c, r, now_ms, outs) {
            Some(reply) => reply.encoded(),
            None => Seq::empty(),
        }),
        step_reply(c, r, now_ms, outs) matches Some(reply) ==> plain(reply),
{
    let (_, _, s) = c.stepped(r, now_ms, outs);
    match c.phase {
        PhaseView::Command => {
            let due = conn::drop_notices(registry::drops_of(r.drops, c.id));
            let told = r.drops_taken(c.id);
            let (take, rest) = wire::taken(c.rbuf, c.limits.max_command_line_bytes as nat);
            lemma_filter_tokens(r.drops, |d: DropView| d.conn != c.id);
            reveal_strlit("command line too long");
            match take {
                wire::LineTakeView::Line(line) => {
                    let line = text::lossy(line);
                    command::parsed_command_is_valid(line);
                    lemma_parse_error_plain(line);
                    if let Ok(cmd) = command::parsed(line) {
                        lemma_command_plain(ConnView { rbuf: rest, ..c }, told, cmd, now_ms);
                    }
                },
                wire::LineTakeView::TooLong => {},
                wire::LineTakeView::Need => {
                    assert(due + Seq::<char>::empty() =~= due);
                },
            }
        },
        PhaseView::Body(d) => {
            let (body, rest, got) = d.body.received(c.rbuf, c.limits);
            let d2 = DraftView { body, ..d };
            reveal_strlit("message too large");
            reveal_strlit("message accepted");
            reveal_strlit(" not registered");
            reveal_strlit("authorization key mismatch");
            lemma_token_no_lf(d.msg_type);
            lemma_no_lf(d.msg_type, " not registered"@);
            if got == Received::End {
                let left = ConnView { rbuf: rest, phase: PhaseView::Body(d2), ..c };
                assert(left.finished(r, d2, outs).reply == c.finished(r, d2, outs).reply);
            }
        },
    }
}

/// Whether the units are read off a buffer one after the other, and `rest` stays.
pub open spec fn reads(buf: Seq<u8>, max: nat, units: Seq<UnitView>, rest: Seq<u8>) -> bool
    decreases units.len(),
{
    if units.len() == 0 {
        buf == rest
    } else {
        match client::unit_read(buf, max) {
            Read::Done(unit, more) => unit == units[0] && reads(
                more,
                max,
                units.drop_first(),
                rest,
            ),
            _ => false,
        }
    }
}

/// What is read off in two runs is read off in one.
proof fn lemma_reads_on(
    buf: Seq<u8>,
    max: nat,
    first: Seq<UnitView>,
    mid: Seq<u8>,
    second: Seq<UnitView>,
    rest: Seq<u8>,
)
    requires
        reads(buf, max, first, mid),
        reads(mid, max, second, rest),
    ensures
        reads(buf, max, first + second, rest),
    decreases first.len(),
{
    if first.len() == 0 {
        assert(first + second =~= second);
    } else {
        if let Read::Done(unit, more) = client::unit_read(buf, max) {
            lemma_reads_on(more, max, first.drop_first(), mid, second, rest);
            assert((first + second).drop_first() =~= first.drop_first() + second);
        }
    }
}

/// A single unit is a run of one.
proof fn lemma_reads_one(buf: Seq<u8>, max: nat, unit: UnitView, rest: Seq<u8>)
    requires
        client::unit_read(buf, max) == Read::Done(unit, rest),
    ensures
        reads(buf, max, seq![unit], rest),
{
    assert(seq![unit].drop_first() =~= Seq::<UnitView>::empty());
    assert(reads(rest, max, Seq::<UnitView>::empty(), rest));
}

/// The pushes that drop notices are read as.
pub open spec fn drop_pushes(drops: Seq<DropView>) -> Seq<UnitView> {
    drops.map_values(
        |d: DropView| UnitView::Push(EventView::Drop { msg_type: d.msg_type, count: d.count }),
    )
}

/// No notice is longer than a line may be.
pub open spec fn short_notices(drops: Seq<DropView>, max: nat) -> bool {
    forall|i: int|
        0 <= i < drops.len() ==> encode_utf8(conn::drop_notice(#[trigger] drops[i])).len() <= max
}

/// No line of a reply is longer than a line may be.
pub open spec fn short(reply: ReplyView, max: nat) -> bool {
    &&& encode_utf8(reply::status_text(reply.code, reply.text)).len() + 1 <= max
    &&& reply.block matches Some(lines) ==> forall|i: int|
        0 <= i < lines.len() ==> encode_utf8(frame::stuffed(#[trigger] lines[i])).len() + 1 <= max
}

/// A reply of short lines can be read.
proof fn lemma_plain_is_readable(reply: ReplyView, max: nat)
    requires
        plain(reply),
        short(reply, max),
    ensures
        protocol_laws::readable(reply, max),
{
    let digits = number::decimal(reply.code as nat);
    number::lemma_decimal(reply.code as nat);
    reveal_strlit(" ");
    lemma_no_lf(digits, " "@);
    lemma_no_lf(digits + " "@, reply.text);
    protocol_laws::lemma_encode_len(reply::status_text(reply.code, reply.text));
    if let Some(lines) = reply.block {
        assert forall|i: int| 0 <= i < lines.len() implies protocol_laws::fits(
            frame::stuffed(#[trigger] lines[i]),
            max,
        ) by {
            lemma_no_lf(seq!['.'], lines[i]);
        }
    }
}

proof fn lemma_notices_read(drops: Seq<DropView>, rest: Seq<char>, max: nat)
    requires
        token_drops(drops),
        short_notices(drops, max),
    ensures
        reads(
            encode_utf8(conn::drop_notices(drops) + rest),
            max,
            drop_pushes(drops),
            encode_utf8(rest),
        ),
    decreases drops.len(),
{
    if drops.len() == 0 {
        assert(conn::drop_notices(drops) + rest =~= rest);
    } else {
        let head = drops.drop_last();
        let last = drops.last();
        let more = conn::drop_notice(last) + rest;
        assert forall|i: int| 0 <= i < head.len() implies validate::valid_type(
            #[trigger] head[i].msg_type,
        ) && encode_utf8(conn::drop_notice(head[i])).len() <= max by {
            assert(head[i] == drops[i]);
        }
        lemma_notices_read(head, more, max);
        assert(conn::drop_notices(drops) + rest =~= conn::drop_notices(head) + more);
        assert(last == drops[drops.len() - 1]);
        protocol_laws::lemma_type_is_word(last.msg_type);
        protocol_laws::drop_notice_round_trip(last, rest, max);
        let push = UnitView::Push(
            EventView::Drop { msg_type: last.msg_type, count: last.count },
        );
        lemma_reads_one(encode_utf8(more), max, push, encode_utf8(rest));
        lemma_reads_on(
            encode_utf8(conn::drop_notices(drops) + rest),
            max,
            drop_pushes(head),
            encode_utf8(more),
            seq![push],
            encode_utf8(rest),
        );
        assert(drop_pushes(drops) =~= drop_pushes(head) + seq![push]);
    }
}

/// A client whose lines may be long enough reads all that a step writes: each
/// drop notice that is due as a push, then the reply, if there is one, and
/// whatever follows stays.
pub proof fn client_reads_what_a_step_writes(
    c: ConnView,
    r: RegistryView,
    now_ms: u64,
    outs: Seq<SendOutcome>,
    rest: Seq<char>,
    max: nat,
)
    requires
        well_named(r),
        well_spoken(c),
        short_notices(registry::drops_of(r.drops, c.id), max),
        step_reply(c, r, now_ms, outs) matches Some(reply) ==> short(reply, max),
    ensures
        reads(
            encode_utf8(c.stepped(r, now_ms, outs).2.output + rest),
            max,
            (if c.phase is Command {
                drop_pushes(registry::drops_of(r.drops, c.id))
            } else {
                Seq::empty()
            }) + (match step_reply(c, r, now_ms, outs) {
                Some(reply) => seq![UnitView::Reply(reply)],
                None => Seq::empty(),
            }),
            encode_utf8(rest),
        ),
{
    let (_, _, s) = c.stepped(r, now_ms, outs);
    let due = if c.phase is Command {
        registry::drops_of(r.drops, c.id)
    } else {
        Seq::empty()
    };
    let (answer, units) = match step_reply(c, r, now_ms, outs) {
        Some(reply) => (reply.encoded(), seq![UnitView::Reply(reply)]),
        None => (Seq::<char>::empty(), Seq::<UnitView>::empty()),
    };
    step_writes_notices_and_reply(c, r, now_ms, outs);
    lemma_filter_tokens(r.drops, |d: DropView| d.conn == c.id);
    let more = answer + rest;
    assert(s.output + rest =~= conn::drop_notices(due) + more);
    lemma_notices_read(due, more, max);
    match step_reply(c, r, now_ms, outs) {
        Some(reply) => {
            lemma_plain_is_readable(reply, max);
            protocol_laws::reply_round_trip(reply, rest, max);
            lemma_reads_one(encode_utf8(more), max, UnitView::Reply(reply), encode_utf8(rest));
        },
        None => {
            assert(more =~= rest);
        },
    }
    lemma_reads_on(
        encode_utf8(s.output + rest),
        max,
        drop_pushes(due),
        encode_utf8(more),
        units,
        encode_utf8(rest),
    );
    assert(drop_pushes(Seq::<DropView>::empty()) =~= Seq::<UnitView>::empty());
}

// --- exchanges as the client sees them ------------------------------------------------------

/// The units that a run of pushes is read as.
pub open spec fn push_units(events: Seq<EventView>) -> Seq<UnitView> {
    events.map_values(|e: EventView| UnitView::Push(e))
}

/// The events that drop notices are read as.
pub open spec fn drop_events(drops: Seq<DropView>) -> Seq<EventView> {
    drops.map_values(|d: DropView| EventView::Drop { msg_type: d.msg_type, count: d.count })
}

/// Pushes that arrive while a client awaits a reply are kept, in order, behind
/// those that it kept before, and the reply is answered as if they were not
/// there.
pub proof fn pushes_ahead_of_a_reply_are_kept(
    c: ClientView,
    events: Seq<EventView>,
    reply: ReplyView,
    rest: Seq<u8>,
)
    requires
        c.exchange is Expect || c.exchange is Publish,
        reads(c.rbuf, c.max_line, push_units(events).push(UnitView::Reply(reply)), rest),
    ensures
        c.polled() == (ClientView { pending: c.pending + events, ..c }).answered(reply, rest),
    decreases events.len(),
{
    let units = push_units(events).push(UnitView::Reply(reply));
    client::lemma_unit_read(c.rbuf, c.max_line);
    if events.len() == 0 {
        assert(units[0] == UnitView::Reply(reply));
        assert(units.drop_first() =~= Seq::<UnitView>::empty());
        assert(c.pending + events =~= c.pending);
        assert(ClientView { pending: c.pending + events, ..c } == c);
        if let Read::Done(unit, more) = client::unit_read(c.rbuf, c.max_line) {
            assert(reads(more, c.max_line, Seq::<UnitView>::empty(), rest));
        }
        assert(c.responded() == c.answered(reply, rest));
    } else {
        let tail = events.drop_first();
        if let Read::Done(unit, more) = client::unit_read(c.rbuf, c.max_line) {
            assert(unit == UnitView::Push(events[0]));
            assert(units.drop_first() =~= push_units(tail).push(UnitView::Reply(reply)));
            let next = ClientView { rbuf: more, pending: c.pending.push(events[0]), ..c };
            pushes_ahead_of_a_reply_are_kept(next, tail, reply, rest);
            assert(next.pending + tail =~= c.pending + events);
            let kept = ClientView { pending: c.pending + events, ..c };
            assert(c.polled() == next.polled());
            assert((ClientView { rbuf: more, ..kept }).answered(reply, rest) == kept.answered(
                reply,
                rest,
            ));
        }
    }
}

/// A client that awaits a reply gets the one that the server's step wrote, and
/// keeps the drop notices that were written ahead of it.
pub proof fn client_gets_the_servers_answer(
    client: ClientView,
    c: ConnView,
    r: RegistryView,
    now_ms: u64,
    outs: Seq<SendOutcome>,
    reply: ReplyView,
)
    requires
        well_named(r),
        well_spoken(c),
        client.exchange is Expect || client.exchange is Publish,
        client.rbuf == encode_utf8(c.stepped(r, now_ms, outs).2.output),
        step_reply(c, r, now_ms, outs) == Some(reply),
        short_notices(registry::drops_of(r.drops, c.id), client.max_line),
        short(reply, client.max_line),
    ensures
        client.polled() == (ClientView {
            pending: client.pending + (if c.phase is Command {
                drop_events(registry::drops_of(r.drops, c.id))
            } else {
                Seq::empty()
            }),
            ..client
        }).answered(reply, Seq::empty()),
{
    let none = Seq::<char>::empty();
    let out = c.stepped(r, now_ms, outs).2.output;
    let due = registry::drops_of(r.drops, c.id);
    let events = if c.phase is Command {
        drop_events(due)
    } else {
        Seq::empty()
    };
    client_reads_what_a_step_writes(c, r, now_ms, outs, none, client.max_line);
    assert(out + none =~= out);
    assert(encode_utf8(none) =~= Seq::<u8>::empty());
    assert(push_units(drop_events(due)) =~= drop_pushes(due));
    assert(push_units(events).push(UnitView::Reply(reply)) =~= (if c.phase is Command {
        drop_pushes(due)
    } else {
        Seq::empty()
    }) + seq![UnitView::Reply(reply)]);
    pushes_ahead_of_a_reply_are_kept(client, events, reply, Seq::empty());
}

} // verus!
