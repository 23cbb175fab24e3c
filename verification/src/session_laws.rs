//! What holds of a client connection across its steps.
use vstd::prelude::*;
use vstd::utf8::*;

use crate::body;
use crate::body::Received;
use crate::command;
use crate::command::CommandView;
use crate::conn;
use crate::conn::ConnView;
use crate::conn::DraftView;
use crate::conn::Flow;
use crate::conn::PhaseView;
use crate::conn::StepView;
use crate::exchange_laws;
use crate::frame;
use crate::message::MessageView;
use crate::protocol_laws;
use crate::queue::HandleView;
use crate::queue::PathView;
use crate::queue::SendOutcome;
use crate::registry;
use crate::registry::RegistryView;
use crate::registry_laws;
use crate::reply;
use crate::reply::ReplyView;
use crate::status;
use crate::text;
use crate::validate;
use crate::wire;

verus! {

broadcast use vstd::string::group_string_axioms;

// --- exchanges ----------------------------------------------------------------------

/// Pushes never fall inside an exchange: a step asks its owner to deliver from
/// the outbound queue only where the connection expects a command, before the
/// step and after it.
pub proof fn pushes_fall_between_exchanges(
    c: ConnView,
    r: RegistryView,
    now_ms: u64,
    outs: Seq<SendOutcome>,
)
    ensures
        ({
            let (after, _, s) = c.stepped(r, now_ms, outs);
            s.flow == Flow::Select ==> c.phase is Command && after.phase is Command
        }),
{
}

/// A line leads to one reply at most, and that reply is no push. What a step
/// within a message body writes is the final reply of the exchange or nothing;
/// ahead of the reply to a command stand only the drop notices that were due.
pub proof fn replies_are_no_pushes(
    c: ConnView,
    r: RegistryView,
    now_ms: u64,
    outs: Seq<SendOutcome>,
)
    ensures
        ({
            let (_, _, s) = c.stepped(r, now_ms, outs);
            let due = conn::drop_notices(registry::drops_of(r.drops, c.id));
            let before = if c.phase is Command {
                due
            } else {
                Seq::<char>::empty()
            };
            s.output == before || exists|reply: ReplyView|
                200 <= reply.code < 1000 && s.output == before + #[trigger] reply.encoded()
        }),
{
    let (_, _, s) = c.stepped(r, now_ms, outs);
    match c.phase {
        PhaseView::Command => {
            let due = conn::drop_notices(registry::drops_of(r.drops, c.id));
            let (take, rest) = wire::taken(c.rbuf, c.limits.max_command_line_bytes as nat);
            match take {
                wire::LineTakeView::Line(line) => {
                    let h = (ConnView { rbuf: rest, ..c }).handled(
                        r.drops_taken(c.id),
                        text::lossy(line),
                        now_ms,
                    );
                    lemma_reply_code(
                        ConnView { rbuf: rest, ..c },
                        r.drops_taken(c.id),
                        text::lossy(line),
                        now_ms,
                    );
                    assert(s.output == due + h.reply.encoded());
                },
                wire::LineTakeView::TooLong => {
                    let reply = ReplyView::line(status::SYNTAX, "command line too long"@);
                    assert(s.output == due + reply.encoded());
                },
                wire::LineTakeView::Need => {},
            }
        },
        PhaseView::Body(d) => {
            let (body, rest, got) = d.body.received(c.rbuf, c.limits);
            if got == Received::End {
                let d2 = DraftView { body, ..d };
                let h = (ConnView { rbuf: rest, phase: PhaseView::Body(d2), ..c }).finished(
                    r,
                    d2,
                    outs,
                );
                assert(s.output == Seq::<char>::empty() + h.reply.encoded());
                assert(200 <= h.reply.code < 1000);
            }
        },
    }
}

proof fn lemma_reply_code(c: ConnView, r: RegistryView, line: Seq<char>, now_ms: u64)
    ensures
        200 <= c.handled(r, line, now_ms).reply.code < 1000,
{
    lemma_error_code(line);
}

proof fn lemma_error_code(line: Seq<char>)
    ensures
        match command::parsed(line) {
            Err(e) => 500 <= e.code < 600,
            Ok(_) => true,
        },
{
}

/// What a step writes: the notices that are due between exchanges, then its reply.
pub proof fn lemma_step_output(c: ConnView, r: RegistryView, now_ms: u64, outs: Seq<SendOutcome>)
    ensures
        c.stepped(r, now_ms, outs).2.output == (if c.phase is Command {
            conn::drop_notices(registry::drops_of(r.drops, c.id))
        } else {
            Seq::empty()
        }) + (match exchange_laws::step_reply(c, r, now_ms, outs) {
            Some(reply) => reply.encoded(),
            None => Seq::empty(),
        }),
{
    let due = conn::drop_notices(registry::drops_of(r.drops, c.id));
    let none = Seq::<char>::empty();
    assert(due + none =~= due);
    assert(none + none =~= none);
    if let PhaseView::Body(d) = c.phase {
        let (body, rest, got) = d.body.received(c.rbuf, c.limits);
        let d2 = DraftView { body, ..d };
        let left = ConnView { rbuf: rest, phase: PhaseView::Body(d2), ..c };
        assert(left.finished(r, d2, outs).reply == c.finished(r, d2, outs).reply);
    }
}

/// Where a step leads: to a message body exactly where it invites one, and the
/// reply at its end is final.
pub proof fn lemma_step_stage(c: ConnView, r: RegistryView, now_ms: u64, outs: Seq<SendOutcome>)
    ensures
        ({
            let (c2, _, _) = c.stepped(r, now_ms, outs);
            match exchange_laws::step_reply(c, r, now_ms, outs) {
                Some(reply) => {
                    &&& 200 <= reply.code < 1000
                    &&& reply.code == status::START_BODY <==> c2.phase is Body
                    &&& c.phase is Body ==> reply.code != status::START_BODY
                },
                None => c2.phase is Body <==> c.phase is Body,
            }
        }),
{
    match c.phase {
        PhaseView::Command => {
            let (take, _) = wire::taken(c.rbuf, c.limits.max_command_line_bytes as nat);
            if let wire::LineTakeView::Line(line) = take {
                lemma_error_code(text::lossy(line));
            }
        },
        PhaseView::Body(d) => {},
    }
}

/// Without a complete line nothing is answered, and nothing but the report of
/// drops changes.
pub proof fn silence_without_a_line(
    c: ConnView,
    r: RegistryView,
    now_ms: u64,
    outs: Seq<SendOutcome>,
)
    requires
        wire::find_lf(c.rbuf) == c.rbuf.len(),
        c.phase is Command,
        wire::strip_cr(c.rbuf).len() <= c.limits.max_command_line_bytes,
    ensures
        c.stepped(r, now_ms, outs) == (
            c,
            r.drops_taken(c.id),
            StepView {
                output: conn::drop_notices(registry::drops_of(r.drops, c.id)),
                forward: None,
                flow: Flow::Select,
            },
        ),
{
}

// --- keys ---------------------------------------------------------------------------

/// Keys are not disclosed: but for registering and publishing, which compare the
/// key that is presented, an answer is the same whatever the keys are.
pub proof fn answers_do_not_depend_on_keys(
    c: ConnView,
    r1: RegistryView,
    r2: RegistryView,
    cmd: CommandView,
    now_ms: u64,
)
    requires
        r1.types.dom() == r2.types.dom(),
        !(cmd is Register),
        !(cmd is Publish),
    ensures
        c.commanded(r1, cmd, now_ms).reply == c.commanded(r2, cmd, now_ms).reply,
{
}

/// What registering and publishing answer is made of the type's name alone.
pub proof fn key_answers_are_fixed(
    c: ConnView,
    r: RegistryView,
    msg_type: Seq<char>,
    key: Seq<char>,
    now_ms: u64,
)
    ensures
        ({
            let reply = c.commanded(r, CommandView::Register { msg_type, key }, now_ms).reply;
            ||| reply == ReplyView::line(status::REGISTERED, msg_type + " registered"@)
            ||| reply == ReplyView::line(
                status::ALREADY_REGISTERED,
                msg_type + " already registered"@,
            )
        }),
        ({
            let reply = c.commanded(r, CommandView::Publish { msg_type, key }, now_ms).reply;
            ||| reply == ReplyView::line(
                status::START_BODY,
                "enter message body; end with <CRLF>.<CRLF>"@,
            )
            ||| reply == ReplyView::line(status::UNKNOWN_TYPE, msg_type + " not registered"@)
            ||| reply == ReplyView::line(status::KEY_MISMATCH, "authorization key mismatch"@)
        }),
{
}

// --- subscriptions --------------------------------------------------------------------

/// Whether a connection knows its subscriptions: the types it lists are those
/// that the registry has it listening to, each once.
pub open spec fn tracks(c: ConnView, r: RegistryView) -> bool {
    &&& c.subs.no_duplicates()
    &&& forall|t: Seq<char>| #[trigger]
        registry::listens(r.listeners(t), c.id) <==> c.subs.contains(t)
}

/// A connection that has just been made listens to nothing.
pub proof fn fresh_conn_tracks(
    id: u64,
    limits: crate::config::Limits,
    queue: int,
    waker: int,
    r: RegistryView,
)
    requires
        forall|t: Seq<char>| !registry::listens(#[trigger] r.listeners(t), id),
    ensures
        tracks(ConnView::fresh(id, limits, queue, waker), r),
{
    let c = ConnView::fresh(id, limits, queue, waker);
    assert forall|t: Seq<char>| #[trigger] registry::listens(r.listeners(t), id) <==> c.subs.contains(
        t,
    ) by {
        assert(!registry::listens(r.listeners(t), id));
    }
}

proof fn lemma_with_handle_listens(handles: Seq<HandleView>, handle: HandleView, id: u64)
    ensures
        registry::listens(registry::with_handle(handles, handle), id) <==> id == handle.id
            || registry::listens(handles, id),
{
    let after = registry::with_handle(handles, handle);
    let k = registry::handle_place(handles, handle.id) as int;
    registry::lemma_handle_place(handles, handle.id);
    registry::lemma_handle_place(handles, id);
    registry::lemma_handle_place(after, id);
    let i = registry::handle_place(handles, id) as int;
    let j = registry::handle_place(after, id) as int;
    assert(after[k].id == handle.id);
    if i < handles.len() && id != handle.id {
        assert(after[i] == handles[i]);
        if j >= after.len() {
            assert(after[i].id != id);
        }
    }
    if j < after.len() && id != handle.id {
        assert(j != k);
        assert(after[j] == handles[j]);
        if i >= handles.len() {
            assert(handles[j].id != id);
        }
    }
    if id == handle.id && j >= after.len() {
        assert(after[k].id != id);
    }
}

proof fn lemma_without_handle_listens(handles: Seq<HandleView>, conn: u64, id: u64)
    requires
        registry::distinct_conns(handles),
    ensures
        registry::listens(registry::without_handle(handles, conn), id) <==> id != conn
            && registry::listens(handles, id),
{
    registry::lemma_without_handle(handles, conn);
    let after = registry::without_handle(handles, conn);
    let k = registry::handle_place(handles, conn) as int;
    registry::lemma_handle_place(handles, conn);
    registry::lemma_handle_place(handles, id);
    registry::lemma_handle_place(after, id);
    let i = registry::handle_place(handles, id) as int;
    let j = registry::handle_place(after, id) as int;
    if k < handles.len() && id != conn {
        if i < handles.len() {
            let n = if i > k { i - 1 } else { i };
            assert(after[n] == handles[i]);
            if j >= after.len() {
                assert(after[n].id != id);
            }
        }
        if j < after.len() {
            let n = if j >= k { j + 1 } else { j };
            assert(after[j] == handles[n]);
            if i >= handles.len() {
                assert(handles[n].id != id);
            }
        }
    }
}

proof fn lemma_fanned_listens(r: RegistryView, msg: MessageView, outs: Seq<SendOutcome>, id: u64)
    ensures
        forall|t: Seq<char>| #[trigger]
            registry::listens(r.fanned(msg, outs).listeners(t), id) <==> registry::listens(
                r.listeners(t),
                id,
            ),
{
    let after = r.fanned(msg, outs);
    assert forall|t: Seq<char>| #[trigger] registry::listens(after.listeners(t), id)
        <==> registry::listens(r.listeners(t), id) by {
        let a = r.listeners(t);
        let b = after.listeners(t);
        registry::lemma_handle_place(a, id);
        registry::lemma_handle_place(b, id);
        let i = registry::handle_place(a, id) as int;
        let j = registry::handle_place(b, id) as int;
        if t == msg.msg_type {
            assert(b.len() == a.len());
            assert(forall|n: int| 0 <= n < a.len() ==> (#[trigger] b[n]).id == a[n].id);
            if i < a.len() && j >= b.len() {
                assert(b[i].id == id);
            }
            if j < b.len() && i >= a.len() {
                assert(b[j].id == a[j].id);
            }
        }
    }
}

/// The names of a list after one was added or removed.
proof fn lemma_names(list: Seq<Seq<char>>, name: Seq<char>)
    requires
        list.no_duplicates(),
    ensures
        text::with_name(list, name).no_duplicates(),
        text::without_name(list, name).no_duplicates(),
        forall|t: Seq<char>| #[trigger]
            text::with_name(list, name).contains(t) <==> t == name || list.contains(t),
        forall|t: Seq<char>| #[trigger]
            text::without_name(list, name).contains(t) <==> t != name && list.contains(t),
{
    text::lemma_place(list, name);
    let k = text::place(list, name) as int;
    let more = text::with_name(list, name);
    let less = text::without_name(list, name);
    assert forall|t: Seq<char>| #[trigger] more.contains(t) <==> t == name || list.contains(t) by {
        if k >= list.len() {
            assert(more[list.len() as int] == name);
            if list.contains(t) {
                let i = choose|i: int| 0 <= i < list.len() && list[i] == t;
                assert(more[i] == t);
            }
            if more.contains(t) && t != name {
                let i = choose|i: int| 0 <= i < more.len() && more[i] == t;
                assert(list[i] == t);
            }
        }
    }
    assert forall|t: Seq<char>| #[trigger] less.contains(t) <==> t != name && list.contains(t) by {
        if k < list.len() {
            if list.contains(t) && t != name {
                let i = choose|i: int| 0 <= i < list.len() && list[i] == t;
                let n = if i > k { i - 1 } else { i };
                assert(less[n] == t);
            }
            if less.contains(t) {
                let i = choose|i: int| 0 <= i < less.len() && less[i] == t;
                let n = if i >= k { i + 1 } else { i };
                assert(list[n] == t);
                assert(list[k] == name);
            }
        }
    }
    assert forall|i: int, j: int|
        0 <= i < less.len() && 0 <= j < less.len() && i != j implies less[i] != less[j] by {
        if k < list.len() {
            let oi = if i >= k { i + 1 } else { i };
            let oj = if j >= k { j + 1 } else { j };
            assert(less[i] == list[oi] && less[j] == list[oj]);
        }
    }
    assert forall|i: int, j: int|
        0 <= i < more.len() && 0 <= j < more.len() && i != j implies more[i] != more[j] by {
        if k >= list.len() {
            if i < list.len() {
                assert(more[i] == list[i] && list.contains(list[i]));
            }
            if j < list.len() {
                assert(more[j] == list[j] && list.contains(list[j]));
            }
        }
    }
}

/// Every step keeps a connection's list of its subscriptions right.
pub proof fn steps_keep_track(
    c: ConnView,
    r: RegistryView,
    now_ms: u64,
    outs: Seq<SendOutcome>,
)
    requires
        r.coherent(),
        tracks(c, r),
    ensures
        ({
            let (c2, r2, _) = c.stepped(r, now_ms, outs);
            c2.id == c.id && tracks(c2, r2)
        }),
{
    let (c2, r2, s) = c.stepped(r, now_ms, outs);
    match c.phase {
        PhaseView::Command => {
            let told = r.drops_taken(c.id);
            let (take, rest) = wire::taken(c.rbuf, c.limits.max_command_line_bytes as nat);
            let left = ConnView { rbuf: rest, ..c };
            assert forall|t: Seq<char>| #[trigger] registry::listens(told.listeners(t), c.id)
                <==> c.subs.contains(t) by {
                assert(told.listeners(t) == r.listeners(t));
                assert(registry::listens(r.listeners(t), c.id) <==> c.subs.contains(t));
            }
            assert(tracks(left, told));
            if let wire::LineTakeView::Line(line) = take {
                if let Ok(cmd) = command::parsed(text::lossy(line)) {
                    lemma_command_tracks(left, told, cmd, now_ms);
                }
            }
        },
        PhaseView::Body(d) => {
            let msg = r.message(d.msg_type, d.body.lines);
            let noted = RegistryView {
                seq: registry::next_seq(r.seq),
                seen: r.seen.with(msg.msg_id),
                ..r
            };
            lemma_fanned_listens(noted, msg, outs, c.id);
            assert forall|t: Seq<char>| #[trigger] registry::listens(r2.listeners(t), c.id)
                <==> c.subs.contains(t) by {
                assert(noted.listeners(t) == r.listeners(t));
                assert(registry::listens(r.listeners(t), c.id) <==> c.subs.contains(t));
                assert(registry::listens(noted.fanned(msg, outs).listeners(t), c.id)
                    <==> registry::listens(noted.listeners(t), c.id));
            }
        },
    }
}

proof fn lemma_command_tracks(c: ConnView, r: RegistryView, cmd: CommandView, now_ms: u64)
    requires
        forall|t: Seq<char>| #[trigger]
            r.subs.contains_key(t) ==> registry::distinct_conns(r.subs[t]),
        tracks(c, r),
    ensures
        ({
            let h = c.commanded(r, cmd, now_ms);
            h.conn.id == c.id && tracks(h.conn, h.registry)
        }),
{
    let h = c.commanded(r, cmd, now_ms);
    match cmd {
        CommandView::Subscribe { msg_type } => {
            lemma_names(c.subs, msg_type);
            let handle = c.handle();
            lemma_with_handle_listens(r.listeners(msg_type), handle, c.id);
            assert forall|t: Seq<char>| #[trigger] registry::listens(
                h.registry.listeners(t),
                c.id,
            ) <==> h.conn.subs.contains(t) by {
                if t != msg_type {
                    assert(h.registry.listeners(t) == r.listeners(t));
                    assert(registry::listens(r.listeners(t), c.id) <==> c.subs.contains(t));
                }
            }
        },
        CommandView::Unsubscribe { msg_type } => {
            lemma_names(c.subs, msg_type);
            lemma_without_handle_listens(r.listeners(msg_type), c.id, c.id);
            assert forall|t: Seq<char>| #[trigger] registry::listens(
                h.registry.listeners(t),
                c.id,
            ) <==> h.conn.subs.contains(t) by {
                if t != msg_type {
                    assert(h.registry.listeners(t) == r.listeners(t));
                    assert(registry::listens(r.listeners(t), c.id) <==> c.subs.contains(t));
                } else {
                    assert(h.registry.listeners(t) =~= registry::without_handle(
                        r.listeners(t),
                        c.id,
                    ));
                }
            }
        },
        CommandView::Register { msg_type, key } => {
            assert forall|t: Seq<char>| #[trigger] registry::listens(
                h.registry.listeners(t),
                c.id,
            ) <==> h.conn.subs.contains(t) by {
                assert(h.registry.listeners(t) == r.listeners(t));
                assert(registry::listens(r.listeners(t), c.id) <==> c.subs.contains(t));
            }
        },
        _ => {},
    }
}

/// Once a connection that tracked its subscriptions has ended, it listens to
/// nothing at all.
pub proof fn ended_conn_is_gone(c: ConnView, r: RegistryView, msg_type: Seq<char>)
    requires
        r.coherent(),
        tracks(c, r),
    ensures
        !registry::listens(
            r.unsubscribed_all(c.subs, c.id).drops_taken(c.id).listeners(msg_type),
            c.id,
        ),
{
    let after = r.unsubscribed_all(c.subs, c.id);
    assert(registry::listens(r.listeners(msg_type), c.id) <==> c.subs.contains(msg_type));
    if c.subs.contains(msg_type) {
        registry_laws::removed_conn_is_gone(r, c.subs, c.id, msg_type);
    } else {
        lemma_unsubscribed_elsewhere(r, c.subs, c.id, msg_type);
    }
    assert(after.drops_taken(c.id).listeners(msg_type) == after.listeners(msg_type));
}

proof fn lemma_unsubscribed_elsewhere(
    r: RegistryView,
    types: Seq<Seq<char>>,
    conn: u64,
    msg_type: Seq<char>,
)
    requires
        !types.contains(msg_type),
    ensures
        r.unsubscribed_all(types, conn).listeners(msg_type) == r.listeners(msg_type),
    decreases types.len(),
{
    if types.len() > 0 {
        let rest = types.drop_last();
        assert(types[types.len() - 1] == types.last());
        if rest.contains(msg_type) {
            let i = choose|i: int| 0 <= i < rest.len() && rest[i] == msg_type;
            assert(types[i] == msg_type);
        }
        lemma_unsubscribed_elsewhere(r, rest, conn, msg_type);
    }
}

/// The steps of another connection do not touch a connection's subscriptions.
pub proof fn others_keep_track(
    c: ConnView,
    other: ConnView,
    r: RegistryView,
    now_ms: u64,
    outs: Seq<SendOutcome>,
)
    requires
        r.coherent(),
        tracks(c, r),
        other.id != c.id,
    ensures
        tracks(c, other.stepped(r, now_ms, outs).1),
{
    let (o2, r2, s) = other.stepped(r, now_ms, outs);
    match other.phase {
        PhaseView::Command => {
            let told = r.drops_taken(other.id);
            let (take, rest) = wire::taken(
                other.rbuf,
                other.limits.max_command_line_bytes as nat,
            );
            let left = ConnView { rbuf: rest, ..other };
            assert forall|t: Seq<char>| #[trigger] registry::listens(told.listeners(t), c.id)
                <==> c.subs.contains(t) by {
                assert(told.listeners(t) == r.listeners(t));
                assert(registry::listens(r.listeners(t), c.id) <==> c.subs.contains(t));
            }
            if let wire::LineTakeView::Line(line) = take {
                if let Ok(cmd) = command::parsed(text::lossy(line)) {
                    lemma_command_of_other(c, left, told, cmd, now_ms);
                }
            }
        },
        PhaseView::Body(d) => {
            let msg = r.message(d.msg_type, d.body.lines);
            let noted = RegistryView {
                seq: registry::next_seq(r.seq),
                seen: r.seen.with(msg.msg_id),
                ..r
            };
            lemma_fanned_listens(noted, msg, outs, c.id);
            assert forall|t: Seq<char>| #[trigger] registry::listens(r2.listeners(t), c.id)
                <==> c.subs.contains(t) by {
                assert(noted.listeners(t) == r.listeners(t));
                assert(registry::listens(r.listeners(t), c.id) <==> c.subs.contains(t));
                assert(registry::listens(noted.fanned(msg, outs).listeners(t), c.id)
                    <==> registry::listens(noted.listeners(t), c.id));
            }
        },
    }
}

proof fn lemma_command_of_other(
    c: ConnView,
    other: ConnView,
    r: RegistryView,
    cmd: CommandView,
    now_ms: u64,
)
    requires
        forall|t: Seq<char>| #[trigger]
            r.subs.contains_key(t) ==> registry::distinct_conns(r.subs[t]),
        tracks(c, r),
        other.id != c.id,
    ensures
        tracks(c, other.commanded(r, cmd, now_ms).registry),
{
    let after = other.commanded(r, cmd, now_ms).registry;
    assert forall|t: Seq<char>| #[trigger] registry::listens(after.listeners(t), c.id)
        <==> c.subs.contains(t) by {
        assert(registry::listens(r.listeners(t), c.id) <==> c.subs.contains(t));
        match cmd {
            CommandView::Subscribe { msg_type } => {
                let handle = other.handle();
                lemma_with_handle_listens(r.listeners(msg_type), handle, c.id);
                if t != msg_type {
                    assert(after.listeners(t) == r.listeners(t));
                }
            },
            CommandView::Unsubscribe { msg_type } => {
                lemma_without_handle_listens(r.listeners(msg_type), other.id, c.id);
                if t != msg_type {
                    assert(after.listeners(t) == r.listeners(t));
                } else {
                    assert(after.listeners(t) =~= registry::without_handle(
                        r.listeners(t),
                        other.id,
                    ));
                }
            },
            _ => {
                assert(after.listeners(t) == r.listeners(t));
            },
        }
    }
}

// --- where subscriptions lead ---------------------------------------------------------------

/// Whether every handle of a connection, among these, leads the given way.
pub open spec fn leads(handles: Seq<HandleView>, id: u64, path: PathView) -> bool {
    forall|i: int|
        0 <= i < handles.len() && (#[trigger] handles[i]).id == id ==> handles[i].path == path
}

/// Whether every subscription of a connection leads the given way.
pub open spec fn all_lead(r: RegistryView, id: u64, path: PathView) -> bool {
    forall|t: Seq<char>| leads(#[trigger] r.listeners(t), id, path)
}

/// Whether what is published to a connection's subscriptions reaches it: all of
/// them lead to the queue that its owner delivers from, and wake its writer, and
/// that queue has the depth that is configured.
pub open spec fn reached(c: ConnView, r: RegistryView) -> bool {
    &&& c.path.queue == c.inbox
    &&& c.path.depth == c.limits.queue_depth
    &&& all_lead(r, c.id, c.path)
}

/// A connection that has just been made is reached by what it subscribes to.
pub proof fn fresh_conn_is_reached(
    id: u64,
    limits: crate::config::Limits,
    queue: int,
    waker: int,
    r: RegistryView,
)
    requires
        forall|t: Seq<char>| !registry::listens(#[trigger] r.listeners(t), id),
    ensures
        reached(ConnView::fresh(id, limits, queue, waker), r),
{
    let c = ConnView::fresh(id, limits, queue, waker);
    assert forall|t: Seq<char>| leads(#[trigger] r.listeners(t), id, c.path) by {
        let handles = r.listeners(t);
        assert(!registry::listens(handles, id));
        registry::lemma_handle_place(handles, id);
    }
}

/// Fanning out a message leaves every subscription leading where it led.
pub proof fn lemma_fanned_leads(
    r: RegistryView,
    msg: MessageView,
    outs: Seq<SendOutcome>,
    id: u64,
    path: PathView,
)
    requires
        all_lead(r, id, path),
    ensures
        all_lead(r.fanned(msg, outs), id, path),
{
    let after = r.fanned(msg, outs);
    assert forall|t: Seq<char>| leads(#[trigger] after.listeners(t), id, path) by {
        let before = r.listeners(t);
        assert(leads(before, id, path));
        let now = after.listeners(t);
        assert forall|i: int| 0 <= i < now.len() && (#[trigger] now[i]).id == id implies now[i].path
            == path by {
            assert(now[i].id == before[i].id);
        }
    }
}

proof fn lemma_command_leads(
    c: ConnView,
    r: RegistryView,
    cmd: CommandView,
    now_ms: u64,
    id: u64,
    path: PathView,
)
    requires
        all_lead(r, id, path),
        c.id == id ==> c.path == path,
    ensures
        all_lead(c.commanded(r, cmd, now_ms).registry, id, path),
{
    let after = c.commanded(r, cmd, now_ms).registry;
    assert forall|t: Seq<char>| leads(#[trigger] after.listeners(t), id, path) by {
        let before = r.listeners(t);
        let now = after.listeners(t);
        assert(leads(before, id, path));
        registry::lemma_handle_place(before, c.id);
        let k = registry::handle_place(before, c.id) as int;
        assert forall|i: int| 0 <= i < now.len() && (#[trigger] now[i]).id == id implies now[i].path
            == path by {
            match cmd {
                CommandView::Subscribe { msg_type } if msg_type == t => {
                    if i != k {
                        assert(now[i] == before[i]);
                    }
                },
                CommandView::Unsubscribe { msg_type } if msg_type == t => {
                    if k < before.len() && i >= k {
                        assert(now[i] == before[i + 1]);
                    } else {
                        assert(now[i] == before[i]);
                    }
                },
                _ => {
                    assert(now[i] == before[i]);
                },
            }
        }
    }
}

/// The steps of one connection leave the subscriptions of every connection that
/// it does not contradict leading where they led.
proof fn lemma_step_leads(
    c: ConnView,
    r: RegistryView,
    now_ms: u64,
    outs: Seq<SendOutcome>,
    id: u64,
    path: PathView,
)
    requires
        all_lead(r, id, path),
        c.id == id ==> c.path == path,
    ensures
        all_lead(c.stepped(r, now_ms, outs).1, id, path),
{
    match c.phase {
        PhaseView::Command => {
            let told = r.drops_taken(c.id);
            let (take, rest) = wire::taken(c.rbuf, c.limits.max_command_line_bytes as nat);
            let left = ConnView { rbuf: rest, ..c };
            assert(all_lead(told, id, path)) by {
                assert forall|t: Seq<char>| leads(#[trigger] told.listeners(t), id, path) by {
                    assert(told.listeners(t) == r.listeners(t));
                }
            }
            if let wire::LineTakeView::Line(line) = take {
                if let Ok(cmd) = command::parsed(text::lossy(line)) {
                    lemma_command_leads(left, told, cmd, now_ms, id, path);
                }
            }
        },
        PhaseView::Body(d) => {
            let (body, _, _) = d.body.received(c.rbuf, c.limits);
            let msg = r.message(d.msg_type, body.lines);
            let noted = RegistryView {
                seq: registry::next_seq(r.seq),
                seen: r.seen.with(msg.msg_id),
                ..r
            };
            assert(all_lead(noted, id, path)) by {
                assert forall|t: Seq<char>| leads(#[trigger] noted.listeners(t), id, path) by {
                    assert(noted.listeners(t) == r.listeners(t));
                }
            }
            lemma_fanned_leads(noted, msg, outs, id, path);
        },
    }
}

/// Every step of a connection leaves it reached by what it subscribes to, the
/// subscriptions that the step makes included.
pub proof fn steps_keep_reach(c: ConnView, r: RegistryView, now_ms: u64, outs: Seq<SendOutcome>)
    requires
        reached(c, r),
    ensures
        ({
            let (c2, r2, _) = c.stepped(r, now_ms, outs);
            c2.path == c.path && c2.inbox == c.inbox && reached(c2, r2)
        }),
{
    lemma_step_leads(c, r, now_ms, outs, c.id, c.path);
}

/// The steps of another connection do not divert a connection's subscriptions.
pub proof fn others_keep_reach(
    c: ConnView,
    other: ConnView,
    r: RegistryView,
    now_ms: u64,
    outs: Seq<SendOutcome>,
)
    requires
        reached(c, r),
        other.id != c.id,
    ensures
        reached(c, other.stepped(r, now_ms, outs).1),
{
    lemma_step_leads(other, r, now_ms, outs, c.id, c.path);
}

/// The end of another connection does not divert a connection's subscriptions.
pub proof fn ends_keep_reach(c: ConnView, other: ConnView, r: RegistryView)
    requires
        reached(c, r),
        other.id != c.id,
    ensures
        reached(c, r.unsubscribed_all(other.subs, other.id).drops_taken(other.id)),
{
    let after = r.unsubscribed_all(other.subs, other.id);
    lemma_unsubscribed_leads(other, r, other.subs, c.id, c.path);
    assert forall|t: Seq<char>| leads(
        #[trigger] after.drops_taken(other.id).listeners(t),
        c.id,
        c.path,
    ) by {
        assert(after.drops_taken(other.id).listeners(t) == after.listeners(t));
    }
}

proof fn lemma_unsubscribed_leads(
    other: ConnView,
    r: RegistryView,
    types: Seq<Seq<char>>,
    id: u64,
    path: PathView,
)
    requires
        all_lead(r, id, path),
        other.id != id,
    ensures
        all_lead(r.unsubscribed_all(types, other.id), id, path),
    decreases types.len(),
{
    if types.len() > 0 {
        lemma_unsubscribed_leads(other, r, types.drop_last(), id, path);
        lemma_command_leads(
            other,
            r.unsubscribed_all(types.drop_last(), other.id),
            CommandView::Unsubscribe { msg_type: types.last() },
            0,
            id,
            path,
        );
    }
}

/// After a connection subscribed to a type, it listens to it, through the queue
/// that its owner delivers from.
pub proof fn subscribing_leads_to_the_conn(
    c: ConnView,
    r: RegistryView,
    msg_type: Seq<char>,
    now_ms: u64,
)
    requires
        reached(c, r),
    ensures
        ({
            let h = c.commanded(r, CommandView::Subscribe { msg_type }, now_ms);
            let handles = h.registry.listeners(msg_type);
            let k = registry::handle_place(handles, c.id) as int;
            &&& registry::listens(handles, c.id)
            &&& handles[k].path.queue == c.inbox
            &&& handles[k].path.depth == c.limits.queue_depth
            &&& reached(h.conn, h.registry)
        }),
{
    let cmd = CommandView::Subscribe { msg_type };
    let h = c.commanded(r, cmd, now_ms);
    lemma_command_leads(c, r, cmd, now_ms, c.id, c.path);
    lemma_with_handle_listens(r.listeners(msg_type), c.handle(), c.id);
    let handles = h.registry.listeners(msg_type);
    registry::lemma_handle_place(handles, c.id);
    assert(leads(handles, c.id, c.path));
}

// --- from the client's bytes to the registry --------------------------------------------

/// A number of steps, one after the other: the connection, the registry and
/// what was written.
pub open spec fn run(
    c: ConnView,
    r: RegistryView,
    now_ms: u64,
    outs: Seq<SendOutcome>,
    n: nat,
) -> (ConnView, RegistryView, Seq<char>)
    decreases n,
{
    if n == 0 {
        (c, r, Seq::empty())
    } else {
        let (c1, r1, s) = c.stepped(r, now_ms, outs);
        let (c2, r2, more) = run(c1, r1, now_ms, outs, (n - 1) as nat);
        (c2, r2, s.output + more)
    }
}

/// The server takes a command line off the bytes that the client wrote, and what
/// follows stays.
pub proof fn command_reaches_server(
    c: ConnView,
    r: RegistryView,
    line: Seq<char>,
    rest: Seq<char>,
    now_ms: u64,
)
    requires
        c.phase is Command,
        !line.contains('\n'),
        encode_utf8(line).len() <= c.limits.max_command_line_bytes,
        c.rbuf == encode_utf8(line + frame::CRLF@ + rest),
    ensures
        c.stepped_command(r, now_ms) == ConnView::replied(
            (ConnView { rbuf: encode_utf8(rest), ..c }).handled(
                r.drops_taken(c.id),
                line,
                now_ms,
            ),
            conn::drop_notices(registry::drops_of(r.drops, c.id)),
        ),
{
    wire::sent_line_is_first_line(line, rest);
}

/// The lines of a DATA block are taken off the buffer one by one.
proof fn lemma_body_lines(
    c: ConnView,
    r: RegistryView,
    d: DraftView,
    lines: Seq<Seq<char>>,
    rest: Seq<char>,
    now_ms: u64,
    outs: Seq<SendOutcome>,
)
    requires
        c.phase == PhaseView::Body(d),
        !d.body.skipping,
        c.rbuf == encode_utf8(frame::block(lines) + rest),
        body::single_lines(lines),
    ensures
        run(c, r, now_ms, outs, lines.len()) == (
            ConnView {
                rbuf: encode_utf8(frame::TERMINATOR@ + frame::CRLF@ + rest),
                phase: PhaseView::Body(
                    DraftView { body: body::collected(d.body, lines, c.limits), ..d },
                ),
                ..c
            },
            r,
            Seq::<char>::empty(),
        ),
    decreases lines.len(),
{
    if lines.len() == 0 {
        assert(frame::block(lines) + rest =~= frame::TERMINATOR@ + frame::CRLF@ + rest);
    } else {
        let tail = lines.drop_first();
        let first = frame::stuffed(lines[0]);
        let more = frame::block(tail) + rest;
        frame::lemma_stuffed_lines(lines);
        assert(frame::block(lines) + rest =~= first + frame::CRLF@ + more);
        body::body_line_is_received(d.body, lines[0], more, c.limits);
        body::lemma_collected_first(d.body, lines, c.limits);
        let d1 = DraftView { body: body::collected(d.body, seq![lines[0]], c.limits), ..d };
        let c1 = ConnView { rbuf: encode_utf8(more), phase: PhaseView::Body(d1), ..c };
        assert(c.stepped(r, now_ms, outs) == c1.silent(r, Seq::empty(), Flow::Continue));
        assert forall|i: int| 0 <= i < tail.len() implies !frame::stuffed(
            #[trigger] tail[i],
        ).contains('\n') by {
            assert(tail[i] == lines[i + 1]);
        }
        lemma_body_lines(c1, r, d1, tail, rest, now_ms, outs);
        let (c2, r2, out) = run(c1, r, now_ms, outs, tail.len());
        assert(Seq::<char>::empty() + out =~= Seq::<char>::empty());
    }
}

/// A DATA block leads to what its body leads to, once all of it was taken.
proof fn lemma_block(
    c: ConnView,
    r: RegistryView,
    d: DraftView,
    lines: Seq<Seq<char>>,
    rest: Seq<char>,
    now_ms: u64,
    outs: Seq<SendOutcome>,
)
    requires
        c.phase == PhaseView::Body(d),
        !d.body.skipping,
        c.limits.max_body_line_bytes >= 1,
        c.rbuf == encode_utf8(frame::block(lines) + rest),
        body::single_lines(lines),
        !body::collected(d.body, lines, c.limits).skipping,
    ensures
        ({
            let all = DraftView { body: body::collected(d.body, lines, c.limits), ..d };
            let h = (ConnView {
                rbuf: encode_utf8(rest),
                phase: PhaseView::Body(all),
                ..c
            }).finished(r, all, outs);
            run(c, r, now_ms, outs, lines.len() + 1) == (h.conn, h.registry, h.reply.encoded())
        }),
{
    let all = DraftView { body: body::collected(d.body, lines, c.limits), ..d };
    lemma_body_lines(c, r, d, lines, rest, now_ms, outs);
    body::terminator_is_received(all.body, rest, c.limits);
    lemma_run_one_more(c, r, now_ms, outs, lines.len());
    let h = (ConnView { rbuf: encode_utf8(rest), phase: PhaseView::Body(all), ..c }).finished(
        r,
        all,
        outs,
    );
    let none = Seq::<char>::empty();
    assert(none + (none + h.reply.encoded()) =~= h.reply.encoded());
}

/// What a client publishes is what the registry fans out: from the bytes of the
/// request and of its DATA block, within the limits, the server invites the
/// body, publishes exactly the client's body lines, and accepts.
pub proof fn published_body_is_the_clients(
    c: ConnView,
    r: RegistryView,
    msg_type: Seq<char>,
    key: Seq<char>,
    lines: Seq<Seq<char>>,
    rest: Seq<char>,
    now_ms: u64,
    outs: Seq<SendOutcome>,
)
    requires
        c.phase is Command,
        validate::valid_type(msg_type),
        validate::valid_key(key),
        r.refusal(msg_type, key) is None,
        encode_utf8("PUBLISH "@ + msg_type + " "@ + key).len()
            <= c.limits.max_command_line_bytes,
        c.limits.max_body_line_bytes >= 1,
        body::single_lines(lines),
        body::within(lines, c.limits),
        c.rbuf == encode_utf8(
            "PUBLISH "@ + msg_type + " "@ + key + frame::CRLF@ + (frame::block(lines) + rest),
        ),
    ensures
        run(c, r, now_ms, outs, lines.len() + 2) == (
            ConnView { rbuf: encode_utf8(rest), ..c },
            r.drops_taken(c.id).published(msg_type, key, lines, outs).0,
            conn::drop_notices(registry::drops_of(r.drops, c.id)) + reply::status_line(
                status::START_BODY,
                "enter message body; end with <CRLF>.<CRLF>"@,
            ) + reply::status_line(status::ACCEPTED, "message accepted"@),
        ),
{
    let line = "PUBLISH "@ + msg_type + " "@ + key;
    let told = r.drops_taken(c.id);
    let notices = conn::drop_notices(registry::drops_of(r.drops, c.id));
    let invite = reply::status_line(
        status::START_BODY,
        "enter message body; end with <CRLF>.<CRLF>"@,
    );
    let accept = reply::status_line(status::ACCEPTED, "message accepted"@);
    lemma_publish_line(msg_type, key);
    protocol_laws::requests_are_understood(msg_type, key);
    command_reaches_server(c, r, line, frame::block(lines) + rest, now_ms);
    let d0 = DraftView::empty(msg_type, key);
    let c1 = ConnView {
        rbuf: encode_utf8(frame::block(lines) + rest),
        phase: PhaseView::Body(d0),
        ..c
    };
    assert(c.stepped(r, now_ms, outs) == (
        c1,
        told,
        StepView { output: notices + invite, forward: None, flow: Flow::Continue },
    ));
    body::too_large_is_over_a_limit(d0.body, lines, c.limits);
    assert(d0.body.lines + lines =~= lines);
    lemma_block(c1, told, d0, lines, rest, now_ms, outs);
    let c3 = ConnView { rbuf: encode_utf8(rest), ..c };
    let after = told.published(msg_type, key, lines, outs).0;
    assert(told.refusal(msg_type, key) is None);
    assert(ConnView { rbuf: encode_utf8(rest), phase: PhaseView::Command, ..c1 } == c3);
    assert(run(c1, told, now_ms, outs, lines.len() + 1) == (c3, after, accept));
    assert((notices + invite) + accept =~= notices + invite + accept);
    assert(run(c, r, now_ms, outs, lines.len() + 2) == (
        c3,
        after,
        (notices + invite) + accept,
    ));
}

proof fn lemma_publish_line(msg_type: Seq<char>, key: Seq<char>)
    requires
        validate::valid_type(msg_type),
        validate::valid_key(key),
    ensures
        !("PUBLISH "@ + msg_type + " "@ + key).contains('\n'),
{
    reveal_strlit("PUBLISH ");
    reveal_strlit(" ");
    let line = "PUBLISH "@ + msg_type + " "@ + key;
    assert forall|i: int| 0 <= i < line.len() implies line[i] != '\n' by {
        let a = "PUBLISH "@.len() as int;
        let b = a + msg_type.len();
        if i < a {
            assert(line[i] == "PUBLISH "@[i]);
        } else if i < b {
            assert(line[i] == msg_type[i - a]);
            assert(validate::tchar(msg_type[i - a]));
        } else if i > b {
            assert(line[i] == key[i - b - 1]);
            assert(validate::vchar(key[i - b - 1]));
        }
    }
}

/// A run is extended by a step at its end.
proof fn lemma_run_one_more(
    c: ConnView,
    r: RegistryView,
    now_ms: u64,
    outs: Seq<SendOutcome>,
    n: nat,
)
    ensures
        ({
            let (c1, r1, out) = run(c, r, now_ms, outs, n);
            let (c2, r2, s) = c1.stepped(r1, now_ms, outs);
            run(c, r, now_ms, outs, n + 1) == (c2, r2, out + s.output)
        }),
    decreases n,
{
    let (c1, r1, s) = c.stepped(r, now_ms, outs);
    if n == 0 {
        assert(run(c1, r1, now_ms, outs, 0) == (c1, r1, Seq::<char>::empty()));
        assert(s.output + Seq::<char>::empty() =~= Seq::<char>::empty() + s.output);
    } else {
        lemma_run_one_more(c1, r1, now_ms, outs, (n - 1) as nat);
        let (c2, r2, out) = run(c1, r1, now_ms, outs, (n - 1) as nat);
        let (c3, r3, last) = c2.stepped(r2, now_ms, outs);
        assert(s.output + (out + last.output) =~= (s.output + out) + last.output);
    }
}

/// A body over a limit is refused and drained: nothing is published, and the
/// connection goes on with what follows the terminator.
pub proof fn oversized_body_is_drained(
    c: ConnView,
    r: RegistryView,
    msg_type: Seq<char>,
    key: Seq<char>,
    lines: Seq<Seq<char>>,
    rest: Seq<char>,
    now_ms: u64,
    outs: Seq<SendOutcome>,
)
    requires
        c.phase == PhaseView::Body(DraftView::empty(msg_type, key)),
        c.limits.max_body_line_bytes >= 1,
        body::single_lines(lines),
        !body::within(lines, c.limits),
        c.rbuf == encode_utf8(frame::block(lines) + rest),
    ensures
        run(c, r, now_ms, outs, lines.len() + 1) == (
            ConnView { rbuf: encode_utf8(rest), phase: PhaseView::Command, ..c },
            r,
            reply::status_line(status::TOO_LARGE, "message too large"@),
        ),
{
    let d0 = DraftView::empty(msg_type, key);
    body::too_large_is_over_a_limit(d0.body, lines, c.limits);
    lemma_block(c, r, d0, lines, rest, now_ms, outs);
}

// --- connection ids ------------------------------------------------------------------------

/// Connection ids are fresh: of the ids that are allocated from one counter, all
/// up to the largest are one or above, and each is greater than those before it.
pub proof fn conn_ids_differ_and_grow(i: nat, j: nat)
    requires
        i < j < u64::MAX,
    ensures
        1 <= conn::counted(conn::FIRST_CONN_ID, i) < conn::counted(conn::FIRST_CONN_ID, j),
{
    lemma_counted(i);
    lemma_counted(j);
}

proof fn lemma_counted(n: nat)
    requires
        n < u64::MAX,
    ensures
        conn::counted(conn::FIRST_CONN_ID, n) == 1 + n,
    decreases n,
{
    if n > 0 {
        lemma_counted((n - 1) as nat);
    }
}

} // verus!
