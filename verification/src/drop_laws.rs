//! Every drop is reported, in exactly one notice to the connection it concerns.
use vstd::prelude::*;

use crate::body::Received;
use crate::command;
use crate::command::CommandView;
use crate::conn;
use crate::conn::ConnView;
use crate::conn::PhaseView;
use crate::exchange_laws;
use crate::message::MessageView;
use crate::queue::SendOutcome;
use crate::registry;
use crate::registry::DropView;
use crate::registry::RegistryView;
use crate::registry::TypeRegView;
use crate::registry_laws;
use crate::run_laws;
use crate::seen;
use crate::session_laws;
use crate::text;
use crate::wire;

verus! {

broadcast use vstd::string::group_string_axioms;

// --- what happens to a registry ---------------------------------------------------------

/// Something that happens while a connection is served.
pub enum HappeningView {
    /// The connection steps.
    Own { now_ms: u64, outs: Seq<SendOutcome> },
    /// Input of the connection arrives.
    Input(Seq<u8>),
    /// Another connection steps.
    Other { conn: ConnView, now_ms: u64, outs: Seq<SendOutcome> },
    /// A peer's message is taken in.
    Fed { msg: MessageView, outs: Seq<SendOutcome> },
    /// A registration is learned from a peer.
    Learned { msg_type: Seq<char>, reg: TypeRegView },
    /// Another connection ends.
    Ended { conn: ConnView },
}

/// The connection and the registry after something happened.
pub open spec fn happened(c: ConnView, r: RegistryView, e: HappeningView) -> (
    ConnView,
    RegistryView,
) {
    match e {
        HappeningView::Own { now_ms, outs } => {
            let (c2, r2, _) = run_laws::one_step(c, r, now_ms, outs);
            (c2, r2)
        },
        HappeningView::Input(bytes) => (run_laws::with_input(c, bytes), r),
        HappeningView::Other { conn, now_ms, outs } => (
            c,
            run_laws::one_step(conn, r, now_ms, outs).1,
        ),
        HappeningView::Fed { msg, outs } => (c, r.ingested(msg, outs).0),
        HappeningView::Learned { msg_type, reg } => (c, r.remotely_registered(msg_type, reg).0),
        HappeningView::Ended { conn } => (
            c,
            r.unsubscribed_all(conn.subs, conn.id).drops_taken(conn.id),
        ),
    }
}

/// The message that a step of a connection fans out, if it does: that of a publish
/// whose body is complete, and that is not refused.
pub open spec fn fans_out(c: ConnView, r: RegistryView) -> Option<MessageView> {
    match c.phase {
        PhaseView::Command => None,
        PhaseView::Body(d) => {
            let (body, _, got) = d.body.received(c.rbuf, c.limits);
            if got == Received::End && !body.too_large && r.refusal(d.msg_type, d.key) is None {
                Some(r.message(d.msg_type, body.lines))
            } else {
                None
            }
        },
    }
}

/// The message that is fanned out, with the outcomes of its offers, if one is.
pub open spec fn fan(c: ConnView, r: RegistryView, e: HappeningView) -> Option<
    (MessageView, Seq<SendOutcome>),
> {
    match e {
        HappeningView::Own { now_ms, outs } => match fans_out(c, r) {
            Some(msg) => Some((msg, outs)),
            None => None,
        },
        HappeningView::Other { conn, now_ms, outs } => match fans_out(conn, r) {
            Some(msg) => Some((msg, outs)),
            None => None,
        },
        HappeningView::Fed { msg, outs } => if r.seen.has(msg.msg_id) {
            None
        } else {
            Some((msg, outs))
        },
        _ => None,
    }
}

/// Whether something can happen: another connection is another, and a message that
/// is fanned out is offered to each subscriber of its type.
pub open spec fn can_happen(c: ConnView, r: RegistryView, e: HappeningView) -> bool {
    &&& e matches HappeningView::Other { conn, .. } ==> conn.id != c.id
    &&& e matches HappeningView::Ended { conn } ==> conn.id != c.id
    &&& fan(c, r, e) matches Some((msg, outs)) ==> outs.len() == r.listeners(msg.msg_type).len()
}

/// How many messages of a type are dropped for a connection: one, where the queue
/// that it was offered to was full.
pub open spec fn lost(c: ConnView, r: RegistryView, e: HappeningView, msg_type: Seq<char>) -> nat {
    match fan(c, r, e) {
        Some((msg, outs)) => {
            let handles = r.listeners(msg.msg_type);
            let k = registry::handle_place(handles, c.id) as int;
            if msg.msg_type == msg_type && k < handles.len() && outs[k] == SendOutcome::Full {
                1
            } else {
                0
            }
        },
        None => 0,
    }
}

/// The drops of a type that a run of notices reports.
pub open spec fn noticed(drops: Seq<DropView>, msg_type: Seq<char>) -> nat
    decreases drops.len(),
{
    if drops.len() == 0 {
        0
    } else {
        noticed(drops.drop_last(), msg_type) + if drops.last().msg_type == msg_type {
            drops.last().count as nat
        } else {
            0
        }
    }
}

/// The notices that are written to a connection when something happens: where it
/// steps between exchanges, all that are due.
pub open spec fn notices(c: ConnView, r: RegistryView, e: HappeningView) -> Seq<DropView> {
    if e is Own && c.phase is Command {
        registry::drops_of(r.drops, c.id)
    } else {
        Seq::empty()
    }
}

// --- the registry stays coherent -----------------------------------------------------------

proof fn lemma_fanned_drops_distinct(
    drops: Seq<DropView>,
    handles: Seq<crate::queue::HandleView>,
    msg_type: Seq<char>,
    outs: Seq<SendOutcome>,
)
    requires
        registry::distinct_drops(drops),
    ensures
        registry::distinct_drops(registry::fanned_drops(drops, handles, msg_type, outs)),
    decreases outs.len(),
{
    if outs.len() > 0 {
        let before = registry::fanned_drops(drops, handles, msg_type, outs.drop_last());
        lemma_fanned_drops_distinct(drops, handles, msg_type, outs.drop_last());
        registry::lemma_dropped_distinct(before, handles[outs.len() - 1].id, msg_type);
    }
}

/// Fanning out a message that is noted keeps a registry coherent.
proof fn lemma_fanned_coherent(r: RegistryView, seq: u64, msg: MessageView, outs: Seq<SendOutcome>)
    requires
        r.coherent(),
    ensures
        (RegistryView { seq, seen: r.seen.with(msg.msg_id), ..r }).fanned(msg, outs).coherent(),
{
    let noted = RegistryView { seq, seen: r.seen.with(msg.msg_id), ..r };
    let after = noted.fanned(msg, outs);
    seen::seen_id_is_remembered(r.seen, msg.msg_id);
    lemma_fanned_drops_distinct(r.drops, r.listeners(msg.msg_type), msg.msg_type, outs);
    assert forall|t: Seq<char>| #[trigger] after.subs.contains_key(t) implies after.subs[t].len()
        > 0 && registry::distinct_conns(after.subs[t]) by {
        if t != msg.msg_type || r.listeners(msg.msg_type).len() == 0 {
            assert(r.subs.contains_key(t));
        } else {
            let before = r.listeners(t);
            let now = after.subs[t];
            assert(r.subs.contains_key(t));
            assert forall|i: int, j: int| 0 <= i < j < now.len() implies (#[trigger] now[i]).id != (
            #[trigger] now[j]).id by {
                assert(before[i].id != before[j].id);
            }
        }
    }
}

proof fn lemma_with_listeners_coherent(
    r: RegistryView,
    msg_type: Seq<char>,
    handles: Seq<crate::queue::HandleView>,
)
    requires
        r.coherent(),
        registry::distinct_conns(handles),
    ensures
        r.with_listeners(msg_type, handles).coherent(),
{
    let after = r.with_listeners(msg_type, handles);
    assert forall|t: Seq<char>| #[trigger] after.subs.contains_key(t) implies after.subs[t].len()
        > 0 && registry::distinct_conns(after.subs[t]) by {
        if t != msg_type {
            assert(r.subs.contains_key(t));
        }
    }
}

proof fn lemma_listeners_distinct(r: RegistryView, msg_type: Seq<char>)
    requires
        r.coherent(),
    ensures
        registry::distinct_conns(r.listeners(msg_type)),
{
    if r.subs.contains_key(msg_type) {
        assert(registry::distinct_conns(r.subs[msg_type]));
    }
}

/// Every command keeps the registry coherent, and counts no drop.
pub proof fn lemma_command_coherent(c: ConnView, r: RegistryView, cmd: CommandView, now_ms: u64)
    requires
        r.coherent(),
    ensures
        c.commanded(r, cmd, now_ms).registry.coherent(),
        c.commanded(r, cmd, now_ms).registry.drops == r.drops,
{
    match cmd {
        CommandView::Subscribe { msg_type } => {
            lemma_listeners_distinct(r, msg_type);
            registry::lemma_with_handle(r.listeners(msg_type), c.handle());
            lemma_with_listeners_coherent(
                r,
                msg_type,
                registry::with_handle(r.listeners(msg_type), c.handle()),
            );
        },
        CommandView::Unsubscribe { msg_type } => {
            lemma_listeners_distinct(r, msg_type);
            registry::lemma_without_handle(r.listeners(msg_type), c.id);
            lemma_with_listeners_coherent(
                r,
                msg_type,
                registry::without_handle(r.listeners(msg_type), c.id),
            );
        },
        _ => {},
    }
}

/// What a step does to the drop counts: between exchanges those of its connection
/// are taken, and a message that is fanned out is counted where it is dropped.
proof fn lemma_step_drops(c: ConnView, r: RegistryView, now_ms: u64, outs: Seq<SendOutcome>)
    requires
        r.coherent(),
    ensures
        ({
            let after = run_laws::one_step(c, r, now_ms, outs).1;
            &&& after.coherent()
            &&& after.drops == match c.phase {
                PhaseView::Command => registry::drops_without(r.drops, c.id),
                PhaseView::Body(d) => match fans_out(c, r) {
                    Some(msg) => registry::fanned_drops(
                        r.drops,
                        r.listeners(msg.msg_type),
                        msg.msg_type,
                        outs,
                    ),
                    None => r.drops,
                },
            }
        }),
{
    reveal(run_laws::one_step);
    match c.phase {
        PhaseView::Command => {
            registry::lemma_filter_distinct(r.drops, |d: DropView| d.conn != c.id);
            let told = r.drops_taken(c.id);
            assert(told.coherent());
            let (take, rest) = wire::taken(c.rbuf, c.limits.max_command_line_bytes as nat);
            let left = ConnView { rbuf: rest, ..c };
            if let wire::LineTakeView::Line(line) = take {
                if let Ok(cmd) = command::parsed(text::lossy(line)) {
                    lemma_command_coherent(left, told, cmd, now_ms);
                }
            }
        },
        PhaseView::Body(d) => {
            if let Some(msg) = fans_out(c, r) {
                lemma_fanned_coherent(r, registry::next_seq(r.seq), msg, outs);
            }
        },
    }
}

/// A registry stays coherent whatever happens.
pub proof fn registry_stays_coherent(c: ConnView, r: RegistryView, e: HappeningView)
    requires
        r.coherent(),
    ensures
        happened(c, r, e).1.coherent(),
{
    match e {
        HappeningView::Own { now_ms, outs } => lemma_step_drops(c, r, now_ms, outs),
        HappeningView::Input(_) => {},
        HappeningView::Other { conn, now_ms, outs } => lemma_step_drops(conn, r, now_ms, outs),
        HappeningView::Fed { msg, outs } => {
            if !r.seen.has(msg.msg_id) {
                lemma_fanned_coherent(r, r.seq, msg, outs);
            }
        },
        HappeningView::Learned { msg_type, reg } => {},
        HappeningView::Ended { conn } => {
            registry_laws::lemma_unsubscribed_all(r, conn.subs, conn.id, Seq::empty());
            let after = r.unsubscribed_all(conn.subs, conn.id);
            registry::lemma_filter_distinct(after.drops, |d: DropView| d.conn != conn.id);
        },
    }
}

// --- every drop is reported once --------------------------------------------------------------

/// The notices of one connection report, of a type, what is counted for it: in one
/// notice, as no type is counted twice.
proof fn lemma_noticed(drops: Seq<DropView>, id: u64, msg_type: Seq<char>)
    requires
        registry::distinct_drops(drops),
        forall|i: int| 0 <= i < drops.len() ==> (#[trigger] drops[i]).conn == id,
    ensures
        noticed(drops, msg_type) == registry::drop_count(drops, id, msg_type),
    decreases drops.len(),
{
    registry::lemma_drop_place(drops, id, msg_type);
    if drops.len() > 0 {
        let head = drops.drop_last();
        let n = drops.len() - 1;
        assert forall|i: int| 0 <= i < head.len() implies (#[trigger] head[i]).conn == id by {
            assert(head[i] == drops[i]);
        }
        assert forall|i: int, j: int| 0 <= i < j < head.len() implies !((#[trigger] head[i]).conn
            == (#[trigger] head[j]).conn && head[i].msg_type == head[j].msg_type) by {
            assert(head[i] == drops[i] && head[j] == drops[j]);
        }
        lemma_noticed(head, id, msg_type);
        registry::lemma_drop_place(head, id, msg_type);
        let i = registry::drop_place(drops, id, msg_type) as int;
        let j = registry::drop_place(head, id, msg_type) as int;
        if j < head.len() {
            assert(drops[j] == head[j]);
            assert(!(drops[j].conn == drops[n].conn && drops[j].msg_type == drops[n].msg_type));
            if i < j {
                assert(head[i] == drops[i]);
            } else if j < i {
                assert(!(drops[j].conn == id && drops[j].msg_type == msg_type));
            }
            assert(i == j);
        } else {
            if i < n {
                assert(head[i] == drops[i]);
            }
            if drops[n].msg_type == msg_type && i > n {
                assert(!(drops[n].conn == id && drops[n].msg_type == msg_type));
            }
        }
    }
}

/// The notices that are due report what is counted, and no type twice.
pub proof fn notices_report_the_counts(r: RegistryView, id: u64, msg_type: Seq<char>)
    requires
        r.coherent(),
    ensures
        registry::distinct_drops(registry::drops_of(r.drops, id)),
        noticed(registry::drops_of(r.drops, id), msg_type) == registry::drop_count(
            r.drops,
            id,
            msg_type,
        ),
{
    let own = registry::drops_of(r.drops, id);
    registry::lemma_filter_distinct(r.drops, |d: DropView| d.conn == id);
    assert forall|i: int| 0 <= i < own.len() implies (#[trigger] own[i]).conn == id by {
    }
    lemma_noticed(own, id, msg_type);
    registry_laws::drops_are_reported_once(r.drops, id, msg_type);
}

/// The books balance: whatever happens, the drops that are counted for a connection
/// and a type afterwards, and those that it was told of, are together those that
/// were counted before and those that were lost.
pub proof fn drops_balance(c: ConnView, r: RegistryView, e: HappeningView, msg_type: Seq<char>)
    requires
        r.coherent(),
        can_happen(c, r, e),
        registry::drop_count(r.drops, c.id, msg_type) < u64::MAX,
    ensures
        ({
            let (c2, r2) = happened(c, r, e);
            &&& c2.id == c.id
            &&& registry::drop_count(r2.drops, c.id, msg_type) + noticed(
                notices(c, r, e),
                msg_type,
            ) == registry::drop_count(r.drops, c.id, msg_type) + lost(c, r, e, msg_type)
        }),
{
    notices_report_the_counts(r, c.id, msg_type);
    if let Some((msg, outs)) = fan(c, r, e) {
        lemma_listeners_distinct(r, msg.msg_type);
        registry::lemma_handle_place(r.listeners(msg.msg_type), c.id);
        registry_laws::lemma_fanned_drops(
            r.drops,
            r.listeners(msg.msg_type),
            msg.msg_type,
            outs,
            c.id,
            msg_type,
        );
    }
    match e {
        HappeningView::Own { now_ms, outs } => {
            lemma_step_drops(c, r, now_ms, outs);
            lemma_step_keeps_id(c, r, now_ms, outs);
            registry_laws::drops_are_reported_once(r.drops, c.id, msg_type);
        },
        HappeningView::Input(_) => {},
        HappeningView::Other { conn, now_ms, outs } => {
            lemma_step_drops(conn, r, now_ms, outs);
            registry_laws::drops_are_reported_once(r.drops, conn.id, msg_type);
        },
        HappeningView::Fed { msg, outs } => {},
        HappeningView::Learned { msg_type, reg } => {},
        HappeningView::Ended { conn } => {
            exchange_laws::lemma_unsubscribed_keeps(r, conn.subs, conn.id);
            registry_laws::drops_are_reported_once(r.drops, conn.id, msg_type);
        },
    }
}

proof fn lemma_step_keeps_id(c: ConnView, r: RegistryView, now_ms: u64, outs: Seq<SendOutcome>)
    ensures
        run_laws::one_step(c, r, now_ms, outs).0.id == c.id,
{
    reveal(run_laws::one_step);
}

/// The notices are written, a line each, and ahead of all that the step writes.
pub proof fn notices_are_written(
    c: ConnView,
    r: RegistryView,
    now_ms: u64,
    outs: Seq<SendOutcome>,
)
    ensures
        run_laws::one_step(c, r, now_ms, outs).2.output == conn::drop_notices(
            notices(c, r, HappeningView::Own { now_ms, outs }),
        ) + match exchange_laws::step_reply(c, r, now_ms, outs) {
            Some(reply) => reply.encoded(),
            None => Seq::empty(),
        },
{
    reveal(run_laws::one_step);
    session_laws::lemma_step_output(c, r, now_ms, outs);
}

/// The connection and the registry after a run of happenings.
pub open spec fn all_happened(c: ConnView, r: RegistryView, list: Seq<HappeningView>) -> (
    ConnView,
    RegistryView,
)
    decreases list.len(),
{
    if list.len() == 0 {
        (c, r)
    } else {
        let (c1, r1) = all_happened(c, r, list.drop_last());
        happened(c1, r1, list.last())
    }
}

/// Whether a run can happen.
pub open spec fn all_can_happen(c: ConnView, r: RegistryView, list: Seq<HappeningView>) -> bool
    decreases list.len(),
{
    list.len() > 0 ==> {
        let (c1, r1) = all_happened(c, r, list.drop_last());
        all_can_happen(c, r, list.drop_last()) && can_happen(c1, r1, list.last())
    }
}

/// How many messages of a type are dropped for a connection over a run.
pub open spec fn all_lost(
    c: ConnView,
    r: RegistryView,
    list: Seq<HappeningView>,
    msg_type: Seq<char>,
) -> nat
    decreases list.len(),
{
    if list.len() == 0 {
        0
    } else {
        let (c1, r1) = all_happened(c, r, list.drop_last());
        all_lost(c, r, list.drop_last(), msg_type) + lost(c1, r1, list.last(), msg_type)
    }
}

/// The drops of a type that a connection is told of over a run.
pub open spec fn all_noticed(
    c: ConnView,
    r: RegistryView,
    list: Seq<HappeningView>,
    msg_type: Seq<char>,
) -> nat
    decreases list.len(),
{
    if list.len() == 0 {
        0
    } else {
        let (c1, r1) = all_happened(c, r, list.drop_last());
        all_noticed(c, r, list.drop_last(), msg_type) + noticed(
            notices(c1, r1, list.last()),
            msg_type,
        )
    }
}

/// Every drop is counted in exactly one notice: over any run, a connection is told
/// of as many drops of a type as were lost or counted before, but for those that
/// are still counted at the end, of which the next notice will tell. (The run is
/// short of as many drops as a count can hold.)
pub proof fn every_drop_is_reported_once(
    c: ConnView,
    r: RegistryView,
    list: Seq<HappeningView>,
    msg_type: Seq<char>,
)
    requires
        r.coherent(),
        all_can_happen(c, r, list),
        registry::drop_count(r.drops, c.id, msg_type) + list.len() < u64::MAX,
    ensures
        ({
            let (c2, r2) = all_happened(c, r, list);
            &&& c2.id == c.id
            &&& r2.coherent()
            &&& registry::drop_count(r2.drops, c.id, msg_type) <= registry::drop_count(
                r.drops,
                c.id,
                msg_type,
            ) + list.len()
            &&& all_noticed(c, r, list, msg_type) + registry::drop_count(r2.drops, c.id, msg_type)
                == registry::drop_count(r.drops, c.id, msg_type) + all_lost(c, r, list, msg_type)
        }),
    decreases list.len(),
{
    if list.len() > 0 {
        let head = list.drop_last();
        every_drop_is_reported_once(c, r, head, msg_type);
        let (c1, r1) = all_happened(c, r, head);
        drops_balance(c1, r1, list.last(), msg_type);
        registry_stays_coherent(c1, r1, list.last());
    }
}

/// Once a connection was told of its drops, and none was counted since, there is
/// nothing to tell it.
pub proof fn nothing_is_reported_twice(r: RegistryView, id: u64)
    ensures
        registry::drops_of(r.drops_taken(id).drops, id) == Seq::<DropView>::empty(),
        r.drops_taken(id).drops_taken(id) == r.drops_taken(id),
{
    run_laws::lemma_taken_twice(r, id);
}

} // verus!
