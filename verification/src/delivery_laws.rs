//! Who gets a message: what subscribing, publishing and taking in come to.
use vstd::prelude::*;

use crate::message::MessageView;
use crate::number;
use crate::queue::HandleView;
use crate::queue::OutboundView;
use crate::queue::SendOutcome;
use crate::registry;
use crate::registry::DropView;
use crate::registry::RefusalView;
use crate::registry::RegistryView;
use crate::registry_laws;
use crate::seen;
use crate::seen::SeenView;

verus! {

broadcast use vstd::string::group_string_axioms;

// --- subscribing ------------------------------------------------------------------------

/// Whether a handle is among the subscribers of a type.
pub open spec fn subscribes(r: RegistryView, msg_type: Seq<char>, h: HandleView) -> bool {
    r.subs.contains_key(msg_type) && r.subs[msg_type].contains(h)
}

/// Nothing but the subscribers differs.
pub open spec fn only_subs_differ(a: RegistryView, b: RegistryView) -> bool {
    &&& a.daemon_id == b.daemon_id
    &&& a.seq == b.seq
    &&& a.types == b.types
    &&& a.seen == b.seen
    &&& a.drops == b.drops
}

/// The subscribers of a type are those that are listed for it.
pub proof fn listeners_are_the_subscribers(r: RegistryView, msg_type: Seq<char>, h: HandleView)
    ensures
        r.listeners(msg_type).contains(h) <==> subscribes(r, msg_type, h),
        r.subs.contains_key(msg_type) ==> r.listeners(msg_type) == r.subs[msg_type],
        !r.subs.contains_key(msg_type) ==> r.listeners(msg_type).len() == 0,
{
}

/// Subscribing adds the handle to the subscribers of the type, in place of any
/// other of its connection, and changes nothing else.
pub proof fn subscribing_adds_the_handle(
    r: RegistryView,
    msg_type: Seq<char>,
    handle: HandleView,
    t: Seq<char>,
    h: HandleView,
)
    requires
        r.coherent(),
    ensures
        subscribes(r.subscribed(msg_type, handle), t, h) <==> (if t == msg_type {
            h == handle || (h.id != handle.id && subscribes(r, t, h))
        } else {
            subscribes(r, t, h)
        }),
        only_subs_differ(r, r.subscribed(msg_type, handle)),
{
    let after = r.subscribed(msg_type, handle);
    if t == msg_type {
        let before = r.listeners(t);
        let now = after.subs[t];
        let k = registry::handle_place(before, handle.id) as int;
        registry::lemma_handle_place(before, handle.id);
        if r.subs.contains_key(t) {
            assert(registry::distinct_conns(r.subs[t]));
        }
        assert(now[k] == handle);
        if subscribes(r, t, h) && h.id != handle.id {
            let i = choose|i: int| 0 <= i < before.len() && before[i] == h;
            assert(now[i] == h);
        }
        if subscribes(after, t, h) && h != handle {
            let i = choose|i: int| 0 <= i < now.len() && now[i] == h;
            assert(before[i] == h);
            if k < before.len() && h.id == handle.id {
                assert(i == k || before[i].id != before[k].id);
            }
        }
    }
}

/// Subscribers keep their places when another subscribes, who comes last.
pub proof fn subscribers_keep_their_places(
    r: RegistryView,
    msg_type: Seq<char>,
    handle: HandleView,
)
    ensures
        ({
            let before = r.listeners(msg_type);
            let after = r.subscribed(msg_type, handle).listeners(msg_type);
            let known = exists|i: int| 0 <= i < before.len() && (#[trigger] before[i]).id
                == handle.id;
            &&& known ==> after.len() == before.len()
            &&& !known ==> after.len() == before.len() + 1 && after.last() == handle
            &&& forall|i: int|
                0 <= i < before.len() ==> (#[trigger] after[i]).id == before[i].id
            &&& forall|i: int|
                0 <= i < before.len() && (#[trigger] before[i]).id != handle.id ==> after[i]
                    == before[i]
        }),
{
    registry::lemma_handle_place(r.listeners(msg_type), handle.id);
}

/// A daemon that has just started has its id, numbers its messages from one, and knows
/// of no type, no subscriber, no message and no drop.
pub proof fn fresh_registry_holds_nothing(
    daemon_id: Seq<char>,
    seen_capacity: nat,
    t: Seq<char>,
    id: Seq<char>,
)
    ensures
        ({
            let r = RegistryView::fresh(daemon_id, seen_capacity);
            &&& r.daemon_id == daemon_id
            &&& r.seq == 1
            &&& !r.types.contains_key(t)
            &&& !r.subs.contains_key(t)
            &&& !r.seen.has(id)
            &&& seen_capacity >= 1 ==> r.seen.cap == seen_capacity
            &&& r.drops.len() == 0
            &&& r.coherent()
        }),
{
}

/// Unsubscribing takes the connection out of the subscribers of the type, and
/// changes nothing else.
pub proof fn unsubscribing_removes_the_conn(
    r: RegistryView,
    msg_type: Seq<char>,
    conn: u64,
    t: Seq<char>,
    h: HandleView,
)
    requires
        r.coherent(),
    ensures
        subscribes(r.unsubscribed(msg_type, conn), t, h) <==> subscribes(r, t, h) && !(t
            == msg_type && h.id == conn),
        only_subs_differ(r, r.unsubscribed(msg_type, conn)),
        r.unsubscribed(msg_type, conn).coherent(),
{
    let after = r.unsubscribed(msg_type, conn);
    let left = registry::without_handle(r.listeners(msg_type), conn);
    if r.subs.contains_key(msg_type) {
        assert(registry::distinct_conns(r.subs[msg_type]));
    }
    registry::lemma_without_handle(r.listeners(msg_type), conn);
    assert forall|u: Seq<char>| #[trigger] after.subs.contains_key(u) implies after.subs[u].len()
        > 0 && registry::distinct_conns(after.subs[u]) by {
        if u != msg_type {
            assert(r.subs.contains_key(u));
        }
    }
    if t == msg_type {
        let before = r.listeners(t);
        let k = registry::handle_place(before, conn) as int;
        registry::lemma_handle_place(before, conn);
        registry::lemma_handle_place(left, conn);
        if subscribes(r, t, h) && h.id != conn {
            let i = choose|i: int| 0 <= i < before.len() && before[i] == h;
            if k < before.len() {
                let n = if i > k { i - 1 } else { i };
                assert(left[n] == h);
            } else {
                assert(left[i] == h);
            }
            assert(left.contains(h));
        }
        if left.contains(h) {
            let i = choose|i: int| 0 <= i < left.len() && left[i] == h;
            if k < before.len() {
                let n = if i >= k { i + 1 } else { i };
                assert(before[n] == h);
            } else {
                assert(before[i] == h);
            }
            assert(h.id != conn);
        }
    }
}

/// The end of a connection takes it out of the subscribers of each type that it
/// subscribed to, drops its counts, and changes nothing else.
pub proof fn end_removes_the_conn(
    r: RegistryView,
    types: Seq<Seq<char>>,
    conn: u64,
    t: Seq<char>,
    h: HandleView,
)
    requires
        r.coherent(),
    ensures
        ({
            let after = r.unsubscribed_all(types, conn).drops_taken(conn);
            &&& subscribes(after, t, h) <==> subscribes(r, t, h) && !(types.contains(t) && h.id
                == conn)
            &&& after.daemon_id == r.daemon_id
            &&& after.seq == r.seq
            &&& after.types == r.types
            &&& after.seen == r.seen
            &&& registry::drop_count(after.drops, conn, t) == 0
            &&& forall|c: u64|
                c != conn ==> #[trigger] registry::drop_count(after.drops, c, t)
                    == registry::drop_count(r.drops, c, t)
        }),
{
    lemma_all_removed(r, types, conn, t, h);
    registry_laws::drops_are_reported_once(r.drops, conn, t);
}

proof fn lemma_all_removed(
    r: RegistryView,
    types: Seq<Seq<char>>,
    conn: u64,
    t: Seq<char>,
    h: HandleView,
)
    requires
        r.coherent(),
    ensures
        r.unsubscribed_all(types, conn).coherent(),
        only_subs_differ(r, r.unsubscribed_all(types, conn)),
        subscribes(r.unsubscribed_all(types, conn), t, h) <==> subscribes(r, t, h) && !(
        types.contains(t) && h.id == conn),
    decreases types.len(),
{
    if types.len() > 0 {
        let head = types.drop_last();
        lemma_all_removed(r, head, conn, t, h);
        unsubscribing_removes_the_conn(r.unsubscribed_all(head, conn), types.last(), conn, t, h);
        assert(types[types.len() - 1] == types.last());
        if types.contains(t) && t != types.last() {
            let i = choose|i: int| 0 <= i < types.len() && types[i] == t;
            assert(head[i] == t);
        }
        if head.contains(t) {
            let i = choose|i: int| 0 <= i < head.len() && head[i] == t;
            assert(types[i] == t);
        }
    }
}

// --- the seen-set -----------------------------------------------------------------------

/// A seen-set that is made holds nothing, and room for what it was made for, one at
/// least.
pub proof fn fresh_seen_set_is_empty(cap: nat, id: Seq<char>)
    ensures
        !SeenView::empty(cap).has(id),
        cap >= 1 ==> SeenView::empty(cap).cap == cap,
        SeenView::empty(0).cap == 1,
        SeenView::empty(cap).bounded(),
{
}

/// What is remembered after an id was seen: that id, and all that were remembered
/// before, but for the oldest one where there is no room for all.
pub proof fn seen_ids_make_room(s: SeenView, id: Seq<char>, other: Seq<char>)
    requires
        s.bounded(),
    ensures
        s.with(id).has(id),
        s.with(id).cap == s.cap,
        other != id ==> (s.with(id).has(other) <==> s.has(other) && !(!s.has(id) && s.order.len()
            == s.cap && s.order[0] == other)),
        !s.has(id) ==> s.with(id).order.last() == id,
        s.has(id) ==> s.with(id) == s,
{
    seen::seen_id_is_remembered(s, id);
    let longer = s.order.push(id);
    let after = s.with(id).order;
    if !s.has(id) {
        if other != id && s.has(other) {
            let i = choose|i: int| 0 <= i < s.order.len() && s.order[i] == other;
            assert(longer[i] == other);
            if longer.len() > s.cap {
                if i > 0 {
                    assert(after[i - 1] == other);
                    assert(s.order[0] != s.order[i]);
                } else if after.contains(other) {
                    let j = choose|j: int| 0 <= j < after.len() && after[j] == other;
                    assert(longer[j + 1] == other);
                    assert(j + 1 < s.order.len());
                    assert(s.order[j + 1] == s.order[0]);
                }
            } else {
                assert(after[i] == other);
            }
        }
        if other != id && s.with(id).has(other) {
            let j = choose|j: int| 0 <= j < after.len() && after[j] == other;
            let d = longer.len() - after.len();
            assert(longer[j + d] == other);
            assert(s.order[j + d] == other);
        }
    }
}

// --- drop counts ------------------------------------------------------------------------

/// The count for a connection and a type is that of its entry, and zero without one.
pub proof fn count_is_the_entry(drops: Seq<DropView>, conn: u64, msg_type: Seq<char>, i: int)
    requires
        registry::distinct_drops(drops),
    ensures
        0 <= i < drops.len() && drops[i].conn == conn && drops[i].msg_type == msg_type
            ==> registry::drop_count(drops, conn, msg_type) == drops[i].count,
        (forall|j: int|
            0 <= j < drops.len() ==> !((#[trigger] drops[j]).conn == conn && drops[j].msg_type
                == msg_type)) ==> registry::drop_count(drops, conn, msg_type) == 0,
{
    registry::lemma_drop_place(drops, conn, msg_type);
    let k = registry::drop_place(drops, conn, msg_type) as int;
    if 0 <= i < drops.len() && drops[i].conn == conn && drops[i].msg_type == msg_type {
        if k < i {
            assert(!(drops[k].conn == drops[i].conn && drops[k].msg_type == drops[i].msg_type));
        } else if i < k {
            assert(!(drops[i].conn == conn && drops[i].msg_type == msg_type));
        }
    }
}

/// Whether the entries of drop counts keep their places, and others only follow them.
pub open spec fn keep_places(before: Seq<DropView>, after: Seq<DropView>) -> bool {
    &&& after.len() >= before.len()
    &&& forall|i: int|
        0 <= i < before.len() ==> (#[trigger] after[i]).conn == before[i].conn && after[i].msg_type
            == before[i].msg_type
}

/// Counting drops leaves the entries in their places.
proof fn lemma_places(
    drops: Seq<DropView>,
    handles: Seq<HandleView>,
    msg_type: Seq<char>,
    outs: Seq<SendOutcome>,
)
    ensures
        keep_places(drops, registry::fanned_drops(drops, handles, msg_type, outs)),
    decreases outs.len(),
{
    if outs.len() > 0 {
        lemma_places(drops, handles, msg_type, outs.drop_last());
        let mid = registry::fanned_drops(drops, handles, msg_type, outs.drop_last());
        let conn = handles[outs.len() - 1].id;
        registry::lemma_drop_place(mid, conn, msg_type);
        let after = registry::settled(mid, conn, msg_type, outs.last());
        assert forall|i: int| 0 <= i < drops.len() implies (#[trigger] after[i]).conn
            == drops[i].conn && after[i].msg_type == drops[i].msg_type by {
            assert(mid[i].conn == drops[i].conn && mid[i].msg_type == drops[i].msg_type);
        }
    }
}

/// A full queue is one drop for its connection and the type, up to the most that a
/// count can hold; nothing else is a drop, and no other count changes.
pub proof fn only_full_queues_are_drops(
    drops: Seq<DropView>,
    conn: u64,
    msg_type: Seq<char>,
    outcome: SendOutcome,
    c: u64,
    t: Seq<char>,
)
    ensures
        ({
            let before = registry::drop_count(drops, c, t);
            let after = registry::drop_count(
                registry::settled(drops, conn, msg_type, outcome),
                c,
                t,
            );
            if outcome == SendOutcome::Full && c == conn && t == msg_type && before < u64::MAX {
                after == before + 1
            } else {
                after == before
            }
        }),
{
    registry_laws::lemma_drop_count(drops, conn, msg_type, c, t);
}

// --- publishing -------------------------------------------------------------------------

/// Whether a handle was offered a message, once: it leads where it led, its offers
/// are one more, of this message, and its writer was woken exactly where the queue
/// was full.
pub open spec fn was_offered(before: HandleView, after: HandleView, m: MessageView) -> bool {
    &&& after.id == before.id
    &&& after.path == before.path
    &&& after.offers.len() == before.offers.len() + 1
    &&& after.offers.drop_last() == before.offers
    &&& after.offers.last().0 == OutboundView::Deliver(m)
    &&& after.wakes == before.wakes + if after.offers.last().1 == SendOutcome::Full {
        1nat
    } else {
        0nat
    }
}

/// Whether the last offer through a connection's handle, among these, found a full
/// queue.
pub open spec fn dropped_for(handles: Seq<HandleView>, conn: u64) -> bool {
    exists|i: int|
        0 <= i < handles.len() && (#[trigger] handles[i]).id == conn && handles[i].offers.last().1
            == SendOutcome::Full
}

/// Whether a message was delivered: every subscriber of its type was offered it,
/// once, those of other types were offered nothing, and a drop is counted for
/// exactly those whose queue was full.
pub open spec fn delivered(before: RegistryView, after: RegistryView, m: MessageView) -> bool {
    &&& after.daemon_id == before.daemon_id
    &&& after.types == before.types
    &&& forall|t: Seq<char>|
        #![trigger after.subs.contains_key(t)]
        after.subs.contains_key(t) <==> before.subs.contains_key(t)
    &&& forall|t: Seq<char>|
        #![trigger after.subs.contains_key(t)]
        t != m.msg_type && before.subs.contains_key(t) ==> after.subs[t] == before.subs[t]
    &&& before.subs.contains_key(m.msg_type) ==> ({
        let was = before.subs[m.msg_type];
        let now = after.subs[m.msg_type];
        &&& now.len() == was.len()
        &&& forall|i: int| 0 <= i < was.len() ==> was_offered(#[trigger] was[i], now[i], m)
    })
    &&& forall|c: u64, t: Seq<char>|
        #![trigger registry::drop_count(after.drops, c, t)]
        {
            let was = registry::drop_count(before.drops, c, t);
            let lost = t == m.msg_type && after.subs.contains_key(t) && dropped_for(
                after.subs[t],
                c,
            );
            registry::drop_count(after.drops, c, t) == if lost && was < u64::MAX {
                was + 1
            } else {
                was as int
            }
        }
    &&& keep_places(before.drops, after.drops)
}

/// Fanning a message out delivers it.
proof fn lemma_fanned_delivers(
    before: RegistryView,
    noted: RegistryView,
    m: MessageView,
    outs: Seq<SendOutcome>,
)
    requires
        before.coherent(),
        noted.daemon_id == before.daemon_id,
        noted.types == before.types,
        noted.subs == before.subs,
        noted.drops == before.drops,
        outs.len() == before.listeners(m.msg_type).len(),
    ensures
        delivered(before, noted.fanned(m, outs), m),
{
    let after = noted.fanned(m, outs);
    let t0 = m.msg_type;
    lemma_places(before.drops, before.listeners(t0), t0, outs);
    if before.subs.contains_key(t0) {
        let was = before.subs[t0];
        let now = after.subs[t0];
        assert(was.len() > 0 && registry::distinct_conns(was));
        assert forall|i: int| 0 <= i < was.len() implies was_offered(#[trigger] was[i], now[i], m) by {
            let grown = was[i].offers.push((OutboundView::Deliver(m), outs[i]));
            assert(now[i].offers == grown);
            assert(grown.drop_last() =~= was[i].offers);
        }
    }
    assert forall|c: u64, t: Seq<char>|
        #![trigger registry::drop_count(after.drops, c, t)]
        {
            let was = registry::drop_count(before.drops, c, t);
            let lost = t == m.msg_type && after.subs.contains_key(t) && dropped_for(
                after.subs[t],
                c,
            );
            registry::drop_count(after.drops, c, t) == if lost && was < u64::MAX {
                was + 1
            } else {
                was as int
            }
        } by {
        let handles = before.listeners(t0);
        if before.subs.contains_key(t0) {
            assert(registry::distinct_conns(before.subs[t0]));
        }
        registry_laws::lemma_fanned_drops(before.drops, handles, t0, outs, c, t);
        registry::lemma_handle_place(handles, c);
        let k = registry::handle_place(handles, c) as int;
        if t == t0 && before.subs.contains_key(t0) {
            let now = after.subs[t0];
            if k < handles.len() {
                assert(now[k].id == c);
                assert(now[k].offers.last().1 == outs[k]);
            }
            if dropped_for(now, c) {
                let i = choose|i: int|
                    0 <= i < now.len() && (#[trigger] now[i]).id == c && now[i].offers.last().1
                        == SendOutcome::Full;
                assert(handles[i].id == c);
                if i < k {
                    assert(handles[i].id != c);
                } else if k < i {
                    assert(handles[k].id != handles[i].id);
                }
            }
        }
    }
}

/// What publishing comes to. Without the key of a registered type nothing changes,
/// and the answer says why. With it, a message is made of exactly the type and the
/// lines that were published, line for line, with this daemon as its origin and an
/// id of its own; it is answered, remembered, and delivered to every subscriber of
/// the type.
pub proof fn published_message_is_delivered(
    before: RegistryView,
    msg_type: Seq<char>,
    key: Seq<char>,
    body: Seq<Seq<char>>,
    after: RegistryView,
    answer: Result<MessageView, RefusalView>,
)
    requires
        before.coherent(),
        registry::publishes(before, msg_type, key, body, after, answer),
    ensures
        answer is Ok <==> before.types.contains_key(msg_type) && before.types[msg_type].key == key,
        answer is Err ==> after == before,
        !before.types.contains_key(msg_type) ==> answer->Err_0.code == 430
            && answer->Err_0.reason == msg_type + " not registered"@,
        before.types.contains_key(msg_type) && before.types[msg_type].key != key
            ==> answer->Err_0.code == 441 && answer->Err_0.reason
            == "authorization key mismatch"@,
        answer is Ok ==> {
            let m = answer->Ok_0;
            &&& m.msg_type == msg_type
            &&& m.body.len() == body.len()
            &&& forall|i: int| 0 <= i < body.len() ==> m.body[i] == #[trigger] body[i]
            &&& m.origin == before.daemon_id
            &&& m.msg_id == before.daemon_id + "-"@ + number::hex(before.seq as nat)
            &&& after.seq == (before.seq + 1) % 0x1_0000_0000_0000_0000
            &&& after.seen.has(m.msg_id)
            &&& forall|id: Seq<char>|
                id != m.msg_id && #[trigger] after.seen.has(id) ==> before.seen.has(id)
            &&& forall|id: Seq<char>|
                #![trigger after.seen.has(id)]
                before.seen.has(id) ==> after.seen.has(id) || (before.seen.order.len()
                    == before.seen.cap && id == before.seen.order[0])
            &&& after.seen.cap == before.seen.cap
            &&& delivered(before, after, m)
        },
{
    let outs = choose|outs: Seq<SendOutcome>|
        (answer is Ok ==> outs.len() == before.listeners(msg_type).len())
            && #[trigger] before.published(msg_type, key, body, outs) == (after, answer);
    if answer is Ok {
        let m = answer->Ok_0;
        let noted = RegistryView { seq: after.seq, seen: after.seen, ..before };
        lemma_fanned_delivers(before, noted, m, outs);
        assert(after == noted.fanned(m, outs));
        seen::seen_id_is_remembered(before.seen, m.msg_id);
        assert forall|id: Seq<char>| id != m.msg_id && #[trigger] after.seen.has(id) implies
            before.seen.has(id) by {
            seen_ids_make_room(before.seen, m.msg_id, id);
        }
        assert forall|id: Seq<char>|
            #![trigger after.seen.has(id)]
            before.seen.has(id) implies after.seen.has(id) || (before.seen.order.len()
            == before.seen.cap && id == before.seen.order[0]) by {
            seen_ids_make_room(before.seen, m.msg_id, id);
        }
    }
}

/// A message that is published is the one that is answered, with the type and the
/// lines that were given, every line in its place and as it was, and this daemon as
/// its origin; each subscriber of the type is offered that message, once.
pub proof fn published_lines_are_offered(
    before: RegistryView,
    msg_type: Seq<char>,
    key: Seq<char>,
    body: Seq<Seq<char>>,
    after: RegistryView,
    answer: Result<MessageView, RefusalView>,
)
    requires
        registry::publishes(before, msg_type, key, body, after, answer),
        before.types.contains_key(msg_type),
        before.types[msg_type].key == key,
    ensures
        answer is Ok,
        answer->Ok_0.msg_type == msg_type,
        answer->Ok_0.body.len() == body.len(),
        forall|i: int| 0 <= i < body.len() ==> answer->Ok_0.body[i] == #[trigger] body[i],
        answer->Ok_0.origin == before.daemon_id,
        after.listeners(msg_type).len() == before.listeners(msg_type).len(),
        forall|i: int|
            0 <= i < before.listeners(msg_type).len() ==> was_offered(
                #[trigger] before.listeners(msg_type)[i],
                after.listeners(msg_type)[i],
                answer->Ok_0,
            ),
        forall|t: Seq<char>|
            t != msg_type ==> #[trigger] after.listeners(t) == before.listeners(t),
{
    let outs = choose|outs: Seq<SendOutcome>|
        (answer is Ok ==> outs.len() == before.listeners(msg_type).len())
            && #[trigger] before.published(msg_type, key, body, outs) == (after, answer);
    let m = answer->Ok_0;
    let was = before.listeners(msg_type);
    let now = after.listeners(msg_type);
    assert forall|i: int| 0 <= i < was.len() implies was_offered(#[trigger] was[i], now[i], m) by {
        let grown = was[i].offers.push((OutboundView::Deliver(m), outs[i]));
        assert(now[i].offers == grown);
        assert(grown.drop_last() =~= was[i].offers);
    }
}

/// What taking in a peer's message comes to. One whose id is remembered changes
/// nothing, and is told as no news. Any other is remembered and delivered as it
/// came, to every subscriber of its type, and takes no id of this daemon.
pub proof fn ingested_message_is_delivered(
    before: RegistryView,
    msg: MessageView,
    after: RegistryView,
    fresh: bool,
)
    requires
        before.coherent(),
        registry::ingests(before, msg, after, fresh),
    ensures
        fresh <==> !before.seen.has(msg.msg_id),
        !fresh ==> after == before,
        fresh ==> {
            &&& after.seq == before.seq
            &&& after.seen.has(msg.msg_id)
            &&& forall|id: Seq<char>|
                id != msg.msg_id && #[trigger] after.seen.has(id) ==> before.seen.has(id)
            &&& forall|id: Seq<char>|
                #![trigger after.seen.has(id)]
                before.seen.has(id) ==> after.seen.has(id) || (before.seen.order.len()
                    == before.seen.cap && id == before.seen.order[0])
            &&& after.seen.cap == before.seen.cap
            &&& delivered(before, after, msg)
        },
{
    let outs = choose|outs: Seq<SendOutcome>|
        (fresh ==> outs.len() == before.listeners(msg.msg_type).len())
            && #[trigger] before.ingested(msg, outs) == (after, fresh);
    if fresh {
        let noted = RegistryView { seen: after.seen, ..before };
        lemma_fanned_delivers(before, noted, msg, outs);
        assert(after == noted.fanned(msg, outs));
        seen::seen_id_is_remembered(before.seen, msg.msg_id);
        assert forall|id: Seq<char>| id != msg.msg_id && #[trigger] after.seen.has(id) implies
            before.seen.has(id) by {
            seen_ids_make_room(before.seen, msg.msg_id, id);
        }
        assert forall|id: Seq<char>|
            #![trigger after.seen.has(id)]
            before.seen.has(id) implies after.seen.has(id) || (before.seen.order.len()
            == before.seen.cap && id == before.seen.order[0]) by {
            seen_ids_make_room(before.seen, msg.msg_id, id);
        }
    }
}

} // verus!
