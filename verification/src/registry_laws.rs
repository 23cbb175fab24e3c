//! What holds of the registry across operations.
use vstd::prelude::*;

use crate::message::MessageView;
use crate::number;
use crate::queue;
use crate::queue::HandleView;
use crate::queue::OutboundView;
use crate::queue::SendOutcome;
use crate::registry;
use crate::registry::DropView;
use crate::registry::RegisteredView;
use crate::registry::RegistryView;
use crate::registry::RefusalView;
use crate::registry::TypeRegView;
use crate::seen;
use crate::table;
use crate::text;

verus! {

broadcast use vstd::string::group_string_axioms;

// --- ownership -------------------------------------------------------------------

/// The first registrant owns a type: from then on the same key succeeds and
/// changes nothing, and any other key is refused and changes nothing.
pub proof fn first_registrant_owns(
    r: RegistryView,
    msg_type: Seq<char>,
    key: Seq<char>,
    now_ms: u64,
    other: Seq<char>,
    later_ms: u64,
)
    requires
        !r.types.contains_key(msg_type),
    ensures
        ({
            let reg = TypeRegView { key, origin_daemon: r.daemon_id, ts: now_ms };
            let (owned, first) = r.registered(msg_type, key, now_ms);
            &&& first == Ok::<RegisteredView, RefusalView>(RegisteredView { reg, changed: true })
            &&& owned.types[msg_type] == reg
            &&& owned.registered(msg_type, key, later_ms) == (
                owned,
                Ok::<RegisteredView, RefusalView>(RegisteredView { reg, changed: false }),
            )
            &&& other != key ==> owned.registered(msg_type, other, later_ms) == (
                owned,
                Err::<RegisteredView, RefusalView>(registry::taken(msg_type)),
            )
        }),
{
}

/// Registering a type leaves every other type as it is.
pub proof fn registration_concerns_one_type(
    r: RegistryView,
    msg_type: Seq<char>,
    key: Seq<char>,
    now_ms: u64,
    other: Seq<char>,
)
    requires
        other != msg_type,
    ensures
        r.registered(msg_type, key, now_ms).0.types.contains_key(other) == r.types.contains_key(
            other,
        ),
        r.types.contains_key(other) ==> r.registered(msg_type, key, now_ms).0.types[other]
            == r.types[other],
{
}

/// The owner's key, and no other, publishes: a publish is refused exactly where
/// the check ahead of the body refuses it, with the same refusal, and a refused
/// publish changes nothing.
pub proof fn refused_publish_changes_nothing(
    r: RegistryView,
    msg_type: Seq<char>,
    key: Seq<char>,
    body: Seq<Seq<char>>,
    outs: Seq<SendOutcome>,
)
    ensures
        match r.refusal(msg_type, key) {
            Some(e) => r.published(msg_type, key, body, outs) == (
                r,
                Err::<MessageView, RefusalView>(e),
            ),
            None => r.published(msg_type, key, body, outs).1 == Ok::<MessageView, RefusalView>(
                r.message(msg_type, body),
            ),
        },
        r.refusal(msg_type, key) is None <==> r.types.contains_key(msg_type)
            && r.types[msg_type].key == key,
{
}

// --- conflict resolution -----------------------------------------------------------

/// The registry after a sequence of registrations of one type was learned.
pub open spec fn all_learned(
    r: RegistryView,
    msg_type: Seq<char>,
    records: Seq<TypeRegView>,
) -> RegistryView
    decreases records.len(),
{
    if records.len() == 0 {
        r
    } else {
        all_learned(r, msg_type, records.drop_last()).remotely_registered(
            msg_type,
            records.last(),
        ).0
    }
}

/// The records of a type that have met at a daemon: its own, and those learned.
pub open spec fn met(r: RegistryView, msg_type: Seq<char>, records: Seq<TypeRegView>) -> Set<
    TypeRegView,
> {
    if r.types.contains_key(msg_type) {
        records.to_set().insert(r.types[msg_type])
    } else {
        records.to_set()
    }
}

/// Learning a registration a second time changes nothing and is not passed on.
pub proof fn learning_is_idempotent(r: RegistryView, msg_type: Seq<char>, incoming: TypeRegView)
    ensures
        ({
            let once = r.remotely_registered(msg_type, incoming).0;
            once.remotely_registered(msg_type, incoming) == (once, None::<TypeRegView>)
        }),
{
    lemma_before_irreflexive(incoming);
}

/// A registration is passed on exactly where it changed the table.
pub proof fn passed_on_iff_changed(r: RegistryView, msg_type: Seq<char>, incoming: TypeRegView)
    ensures
        ({
            let (after, passed) = r.remotely_registered(msg_type, incoming);
            &&& passed is None <==> after == r
            &&& passed is Some ==> passed == Some(incoming) && after.types[msg_type] == incoming
        }),
{
    lemma_before_irreflexive(incoming);
    let (after, passed) = r.remotely_registered(msg_type, incoming);
    if passed is Some {
        assert(after.types.contains_key(msg_type));
        assert(after.types[msg_type] == incoming);
    }
}

pub proof fn lemma_before_irreflexive(a: TypeRegView)
    ensures
        !a.before(a),
{
    text::lemma_text_lt_irreflexive(a.origin_daemon);
}

pub proof fn lemma_before_transitive(a: TypeRegView, b: TypeRegView, c: TypeRegView)
    requires
        a.before(b),
        b.before(c),
    ensures
        a.before(c),
{
    if a.ts == b.ts && b.ts == c.ts {
        text::lemma_text_lt_transitive(a.origin_daemon, b.origin_daemon, c.origin_daemon);
    }
}

pub proof fn lemma_before_total(a: TypeRegView, b: TypeRegView)
    ensures
        a.before(b) || b.before(a) || a.ties(b),
{
    text::lemma_text_lt_total(a.origin_daemon, b.origin_daemon);
}

/// The record that stands is one of those that have met, and none of them has a
/// lower tuple.
pub proof fn lowest_record_stands(
    r: RegistryView,
    msg_type: Seq<char>,
    records: Seq<TypeRegView>,
)
    requires
        r.types.contains_key(msg_type) || records.len() > 0,
    ensures
        ({
            let after = all_learned(r, msg_type, records);
            &&& after.types.contains_key(msg_type)
            &&& met(r, msg_type, records).contains(after.types[msg_type])
            &&& forall|x: TypeRegView| #[trigger]
                met(r, msg_type, records).contains(x) ==> !x.before(after.types[msg_type])
        }),
    decreases records.len(),
{
    let after = all_learned(r, msg_type, records);
    let set = met(r, msg_type, records);
    if records.len() == 0 {
        lemma_before_irreflexive(r.types[msg_type]);
    } else {
        let rest = records.drop_last();
        let x = records.last();
        let prior = all_learned(r, msg_type, rest);
        let prior_set = met(r, msg_type, rest);
        assert(records[records.len() - 1] == x);
        assert(set.contains(x));
        assert forall|y: TypeRegView| #[trigger] set.contains(y) implies y == x
            || prior_set.contains(y) by {
            if records.contains(y) {
                let i = choose|i: int| 0 <= i < records.len() && records[i] == y;
                if i < rest.len() {
                    assert(rest[i] == y);
                }
            }
        }
        assert forall|y: TypeRegView| #[trigger] prior_set.contains(y) implies set.contains(y) by {
            if rest.contains(y) {
                let i = choose|i: int| 0 <= i < rest.len() && rest[i] == y;
                assert(records[i] == y);
            }
        }
        lemma_before_irreflexive(x);
        if r.types.contains_key(msg_type) || rest.len() > 0 {
            lowest_record_stands(r, msg_type, rest);
            let old = prior.types[msg_type];
            if x.before(old) {
                assert forall|y: TypeRegView| #[trigger] set.contains(y) implies !y.before(x) by {
                    if y != x && y.before(x) {
                        lemma_before_transitive(y, x, old);
                    }
                }
            }
        } else {
            assert(prior == r);
        }
    }
}

/// Daemons converge: where two of them have met the same records of a type, in
/// whatever order and however often, the same record stands at both. Two
/// records that share a tuple have to be the same record.
pub proof fn daemons_converge(
    r1: RegistryView,
    r2: RegistryView,
    msg_type: Seq<char>,
    first: Seq<TypeRegView>,
    second: Seq<TypeRegView>,
)
    requires
        r1.types.contains_key(msg_type) || first.len() > 0,
        met(r1, msg_type, first) == met(r2, msg_type, second),
        forall|x: TypeRegView, y: TypeRegView|
            #![trigger met(r1, msg_type, first).contains(x), met(r1, msg_type, first).contains(y)]
            met(r1, msg_type, first).contains(x) && met(r1, msg_type, first).contains(y) && x.ties(
                y,
            ) ==> x == y,
    ensures
        all_learned(r1, msg_type, first).types.contains_key(msg_type),
        all_learned(r2, msg_type, second).types.contains_key(msg_type),
        all_learned(r1, msg_type, first).types[msg_type] == all_learned(
            r2,
            msg_type,
            second,
        ).types[msg_type],
{
    lowest_record_stands(r1, msg_type, first);
    let a = all_learned(r1, msg_type, first).types[msg_type];
    let set = met(r1, msg_type, first);
    assert(set.contains(a));
    if !r2.types.contains_key(msg_type) && second.len() == 0 {
        assert(!second.contains(a));
        assert(false);
    }
    lowest_record_stands(r2, msg_type, second);
    let b = all_learned(r2, msg_type, second).types[msg_type];
    assert(set.contains(b));
    lemma_before_total(a, b);
}

/// The order in which two registrations arrive does not matter, unless they
/// share a tuple and differ in the key.
pub proof fn learning_commutes(
    r: RegistryView,
    msg_type: Seq<char>,
    a: TypeRegView,
    b: TypeRegView,
)
    requires
        a.ties(b) ==> a == b,
    ensures
        r.remotely_registered(msg_type, a).0.remotely_registered(msg_type, b).0
            == r.remotely_registered(msg_type, b).0.remotely_registered(msg_type, a).0,
{
    lemma_before_irreflexive(a);
    lemma_before_total(a, b);
    let ab = r.remotely_registered(msg_type, a).0.remotely_registered(msg_type, b).0;
    let ba = r.remotely_registered(msg_type, b).0.remotely_registered(msg_type, a).0;
    if a.before(b) && b.before(a) {
        lemma_before_transitive(a, b, a);
    }
    if r.types.contains_key(msg_type) {
        let old = r.types[msg_type];
        if a.before(b) && b.before(old) {
            lemma_before_transitive(a, b, old);
        }
        if b.before(a) && a.before(old) {
            lemma_before_transitive(b, a, old);
        }
    }
    assert(ab =~= ba);
}

// --- message ids -------------------------------------------------------------------

proof fn lemma_hex_digits(n: nat)
    ensures
        number::hex(n).len() > 0,
        forall|i: int| 0 <= i < number::hex(n).len() ==> #[trigger] number::hex(n)[i] != '-',
    decreases n,
{
    if n >= 16 {
        lemma_hex_digits(n / 16);
        let s = number::hex(n);
        let head = number::hex(n / 16);
        assert forall|i: int| 0 <= i < s.len() implies #[trigger] s[i] != '-' by {
            if i < head.len() {
                assert(s[i] == head[i]);
            }
        }
    }
}

proof fn lemma_hex_injective(n: nat, m: nat)
    requires
        number::hex(n) == number::hex(m),
    ensures
        n == m,
    decreases n,
{
    let a = number::hex(n);
    let b = number::hex(m);
    if n < 16 && m < 16 {
        assert(a[0] == b[0]);
    } else if n < 16 {
        lemma_hex_digits(m / 16);
        assert(a.len() == 1 && b.len() > 1);
    } else if m < 16 {
        lemma_hex_digits(n / 16);
        assert(b.len() == 1 && a.len() > 1);
    } else {
        assert(a.drop_last() =~= number::hex(n / 16));
        assert(b.drop_last() =~= number::hex(m / 16));
        lemma_hex_injective(n / 16, m / 16);
        assert(a.last() == b.last());
        assert(n % 16 == m % 16);
    }
}

/// Message ids are unique across a cluster whose daemons have distinct ids: one
/// id comes from one daemon and one sequence number only.
pub proof fn msg_ids_are_unique(d1: Seq<char>, n1: u64, d2: Seq<char>, n2: u64)
    requires
        registry::msg_id(d1, n1) == registry::msg_id(d2, n2),
    ensures
        d1 == d2,
        n1 == n2,
{
    reveal_strlit("-");
    let h1 = number::hex(n1 as nat);
    let h2 = number::hex(n2 as nat);
    let id = registry::msg_id(d1, n1);
    lemma_hex_digits(n1 as nat);
    lemma_hex_digits(n2 as nat);
    assert(id.len() == d1.len() + 1 + h1.len());
    assert(id[d1.len() as int] == '-');
    assert(registry::msg_id(d2, n2)[d2.len() as int] == '-');
    if d1.len() < d2.len() {
        assert(id[d2.len() as int] == h1[d2.len() - d1.len() - 1]);
    } else if d2.len() < d1.len() {
        assert(registry::msg_id(d2, n2)[d1.len() as int] == h2[d1.len() - d2.len() - 1]);
    }
    assert(d1 =~= d2) by {
        assert forall|i: int| 0 <= i < d1.len() implies d1[i] == d2[i] by {
            assert(id[i] == d1[i]);
            assert(registry::msg_id(d2, n2)[i] == d2[i]);
        }
    }
    assert(h1 =~= h2) by {
        assert forall|i: int| 0 <= i < h1.len() implies h1[i] == h2[i] by {
            let k = d1.len() as int + 1 + i;
            assert(id[k] == h1[i]);
            assert(registry::msg_id(d2, n2)[k] == h2[i]);
        }
    }
    lemma_hex_injective(n1 as nat, n2 as nat);
}

// --- loop prevention ----------------------------------------------------------------

/// A message that was taken in is remembered: any message with its id that comes
/// after is a duplicate, and changes nothing.
pub proof fn duplicate_is_dropped(
    r: RegistryView,
    msg: MessageView,
    outs: Seq<SendOutcome>,
    again: MessageView,
    more: Seq<SendOutcome>,
)
    requires
        r.coherent(),
        again.msg_id == msg.msg_id,
    ensures
        r.ingested(msg, outs).0.ingested(again, more) == (r.ingested(msg, outs).0, false),
{
    seen::seen_id_is_remembered(r.seen, msg.msg_id);
}

/// A message that reaches a daemon, with the outcomes of its offers.
pub enum ArrivalView {
    /// A client published it.
    Published {
        msg_type: Seq<char>,
        key: Seq<char>,
        body: Seq<Seq<char>>,
        outs: Seq<SendOutcome>,
    },
    /// A peer sent it.
    Fed { msg: MessageView, outs: Seq<SendOutcome> },
}

/// The registry after a message reached the daemon.
pub open spec fn arrived(r: RegistryView, a: ArrivalView) -> RegistryView {
    match a {
        ArrivalView::Published { msg_type, key, body, outs } => r.published(
            msg_type,
            key,
            body,
            outs,
        ).0,
        ArrivalView::Fed { msg, outs } => r.ingested(msg, outs).0,
    }
}

/// The registry after a sequence of messages reached the daemon.
pub open spec fn all_arrived(r: RegistryView, list: Seq<ArrivalView>) -> RegistryView
    decreases list.len(),
{
    if list.len() == 0 {
        r
    } else {
        arrived(all_arrived(r, list.drop_last()), list.last())
    }
}

/// What was seen after a sequence of messages: an id for each of them at most.
proof fn lemma_arrivals_seen(r: RegistryView, list: Seq<ArrivalView>) -> (ids: Seq<Seq<char>>)
    ensures
        ids.len() <= list.len(),
        all_arrived(r, list).seen == r.seen.with_all(ids),
    decreases list.len(),
{
    if list.len() == 0 {
        Seq::empty()
    } else {
        let before = all_arrived(r, list.drop_last());
        let ids = lemma_arrivals_seen(r, list.drop_last());
        match list.last() {
            ArrivalView::Published { msg_type, key, body, outs } => {
                if before.refusal(msg_type, key) is None {
                    let id = before.message(msg_type, body).msg_id;
                    assert(ids.push(id).drop_last() =~= ids);
                    ids.push(id)
                } else {
                    ids
                }
            },
            ArrivalView::Fed { msg, outs } => {
                assert(ids.push(msg.msg_id).drop_last() =~= ids);
                ids.push(msg.msg_id)
            },
        }
    }
}

/// A message is remembered within the horizon of the seen-set: until as many
/// further messages as its capacity reached the daemon, one with the same id is
/// a duplicate, and changes nothing.
pub proof fn duplicate_is_dropped_within_horizon(
    r: RegistryView,
    msg: MessageView,
    outs: Seq<SendOutcome>,
    later: Seq<ArrivalView>,
    again: MessageView,
    more: Seq<SendOutcome>,
)
    requires
        r.coherent(),
        r.ingested(msg, outs).1,
        later.len() < r.seen.cap,
        again.msg_id == msg.msg_id,
    ensures
        ({
            let after = all_arrived(r.ingested(msg, outs).0, later);
            after.ingested(again, more) == (after, false)
        }),
{
    let ids = lemma_arrivals_seen(r.ingested(msg, outs).0, later);
    seen::id_stays_within_horizon(r.seen, msg.msg_id, ids);
}

/// A message published here is a duplicate when a peer sends it back.
pub proof fn own_message_is_dropped(
    r: RegistryView,
    msg_type: Seq<char>,
    key: Seq<char>,
    body: Seq<Seq<char>>,
    outs: Seq<SendOutcome>,
    back: MessageView,
    more: Seq<SendOutcome>,
)
    requires
        r.coherent(),
        r.refusal(msg_type, key) is None,
        back.msg_id == r.message(msg_type, body).msg_id,
    ensures
        ({
            let after = r.published(msg_type, key, body, outs).0;
            after.ingested(back, more) == (after, false)
        }),
{
    seen::seen_id_is_remembered(r.seen, back.msg_id);
}

/// A message published here is remembered within the horizon of the seen-set:
/// until as many further messages as its capacity reached the daemon, it is a
/// duplicate when a peer sends it back, and changes nothing.
pub proof fn own_message_is_dropped_within_horizon(
    r: RegistryView,
    msg_type: Seq<char>,
    key: Seq<char>,
    body: Seq<Seq<char>>,
    outs: Seq<SendOutcome>,
    later: Seq<ArrivalView>,
    back: MessageView,
    more: Seq<SendOutcome>,
)
    requires
        r.coherent(),
        r.refusal(msg_type, key) is None,
        !r.seen.has(r.message(msg_type, body).msg_id),
        later.len() < r.seen.cap,
        back.msg_id == r.message(msg_type, body).msg_id,
    ensures
        ({
            let after = all_arrived(r.published(msg_type, key, body, outs).0, later);
            after.ingested(back, more) == (after, false)
        }),
{
    let ids = lemma_arrivals_seen(r.published(msg_type, key, body, outs).0, later);
    seen::id_stays_within_horizon(r.seen, back.msg_id, ids);
}

/// The message that is offered to the subscribers of its type when a message
/// reaches a daemon, if one is: a publish may be refused, and a fed message may be
/// a duplicate.
pub open spec fn carried(r: RegistryView, a: ArrivalView) -> Option<MessageView> {
    match a {
        ArrivalView::Published { msg_type, key, body, outs } => if r.refusal(
            msg_type,
            key,
        ) is None {
            Some(r.message(msg_type, body))
        } else {
            None
        },
        ArrivalView::Fed { msg, outs } => if r.seen.has(msg.msg_id) {
            None
        } else {
            Some(msg)
        },
    }
}

/// How many of a run of offers are deliveries of messages with an id.
pub open spec fn deliveries(offers: Seq<(OutboundView, SendOutcome)>, id: Seq<char>) -> nat
    decreases offers.len(),
{
    if offers.len() == 0 {
        0
    } else {
        deliveries(offers.drop_last(), id) + match offers.last().0 {
            OutboundView::Deliver(m) if m.msg_id == id => 1nat,
            _ => 0nat,
        }
    }
}

/// What an arrival adds to the deliveries through a handle.
proof fn lemma_arrival_deliveries(
    r: RegistryView,
    a: ArrivalView,
    id: Seq<char>,
    msg_type: Seq<char>,
    i: int,
)
    requires
        0 <= i < r.listeners(msg_type).len(),
    ensures
        ({
            let before = r.listeners(msg_type);
            let after = arrived(r, a).listeners(msg_type);
            &&& after.len() == before.len()
            &&& after[i].id == before[i].id
            &&& deliveries(after[i].offers, id) == deliveries(before[i].offers, id) + match carried(
                r,
                a,
            ) {
                Some(m) if m.msg_id == id && m.msg_type == msg_type => 1nat,
                _ => 0nat,
            }
        }),
{
    let before = r.listeners(msg_type)[i].offers;
    if let Some(m) = carried(r, a) {
        let outcome = match a {
            ArrivalView::Published { outs, .. } => outs[i],
            ArrivalView::Fed { outs, .. } => outs[i],
        };
        let grown = before.push((OutboundView::Deliver(m), outcome));
        assert(grown.drop_last() =~= before);
        if m.msg_type == msg_type {
            assert(arrived(r, a).listeners(msg_type)[i].offers == grown);
        }
    }
}

/// Whether no publish of a client among these takes the id.
pub open spec fn takes_other_ids(r: RegistryView, list: Seq<ArrivalView>, id: Seq<char>) -> bool {
    forall|k: int| #![trigger list[k]]
        0 <= k < list.len() ==> match list[k] {
            ArrivalView::Published { msg_type, key, body, outs } => all_arrived(
                r,
                list.take(k),
            ).message(msg_type, body).msg_id != id,
            ArrivalView::Fed { msg, outs } => true,
        }
}

/// While an id is remembered, arrivals add nothing to its deliveries.
proof fn lemma_no_more_deliveries(
    s: seen::SeenView,
    r: RegistryView,
    later: Seq<ArrivalView>,
    id: Seq<char>,
    msg_type: Seq<char>,
    i: int,
)
    requires
        s.bounded(),
        !s.has(id),
        r.seen == s.with(id),
        later.len() < s.cap,
        takes_other_ids(r, later, id),
        0 <= i < r.listeners(msg_type).len(),
    ensures
        ({
            let before = r.listeners(msg_type);
            let after = all_arrived(r, later).listeners(msg_type);
            &&& after.len() == before.len()
            &&& after[i].id == before[i].id
            &&& deliveries(after[i].offers, id) == deliveries(before[i].offers, id)
        }),
    decreases later.len(),
{
    if later.len() > 0 {
        let head = later.drop_last();
        let k = later.len() - 1;
        assert(later.take(k) =~= head);
        assert forall|j: int| #![trigger head[j]] 0 <= j < head.len() implies match head[j] {
            ArrivalView::Published { msg_type, key, body, outs } => all_arrived(
                r,
                head.take(j),
            ).message(msg_type, body).msg_id != id,
            ArrivalView::Fed { msg, outs } => true,
        } by {
            assert(head[j] == later[j]);
            assert(head.take(j) =~= later.take(j));
        }
        lemma_no_more_deliveries(s, r, head, id, msg_type, i);
        let now = all_arrived(r, head);
        let ids = lemma_arrivals_seen(r, head);
        seen::id_stays_within_horizon(s, id, ids);
        assert(now.seen.has(id));
        assert(later[k] == later.last());
        lemma_arrival_deliveries(now, later.last(), id, msg_type, i);
    }
}

/// No message is delivered twice to one connection: when a message reaches a
/// daemon that does not remember its id, each subscriber of its type is offered
/// that id once, and nobody else is; and until as many further messages as the
/// seen-set holds reached the daemon, none of them offers the id to anybody again.
/// (The ids that a daemon gives to publishes of its own are others.)
pub proof fn each_id_is_offered_once_within_horizon(
    r: RegistryView,
    first: ArrivalView,
    later: Seq<ArrivalView>,
    msg: MessageView,
    msg_type: Seq<char>,
    i: int,
)
    requires
        r.coherent(),
        carried(r, first) == Some(msg),
        !r.seen.has(msg.msg_id),
        later.len() < r.seen.cap,
        takes_other_ids(arrived(r, first), later, msg.msg_id),
        0 <= i < r.listeners(msg_type).len(),
    ensures
        ({
            let before = r.listeners(msg_type);
            let after = all_arrived(arrived(r, first), later).listeners(msg_type);
            &&& after.len() == before.len()
            &&& after[i].id == before[i].id
            &&& deliveries(after[i].offers, msg.msg_id) == deliveries(before[i].offers, msg.msg_id)
                + if msg.msg_type == msg_type {
                1nat
            } else {
                0nat
            }
        }),
{
    lemma_arrival_deliveries(r, first, msg.msg_id, msg_type, i);
    lemma_no_more_deliveries(r.seen, arrived(r, first), later, msg.msg_id, msg_type, i);
}

/// The sequence number after a sequence of messages, short of its largest value.
proof fn lemma_arrivals_seq(r: RegistryView, list: Seq<ArrivalView>)
    requires
        r.seq + list.len() <= u64::MAX,
    ensures
        r.seq <= all_arrived(r, list).seq <= r.seq + list.len(),
        all_arrived(r, list).daemon_id == r.daemon_id,
    decreases list.len(),
{
    if list.len() > 0 {
        lemma_arrivals_seq(r, list.drop_last());
    }
}

/// The publishes after one, short of the largest sequence number, take other ids
/// than it took.
pub proof fn publishes_take_other_ids(
    r: RegistryView,
    msg_type: Seq<char>,
    key: Seq<char>,
    body: Seq<Seq<char>>,
    outs: Seq<SendOutcome>,
    later: Seq<ArrivalView>,
)
    requires
        r.refusal(msg_type, key) is None,
        r.seq + 1 + later.len() <= u64::MAX,
    ensures
        takes_other_ids(
            r.published(msg_type, key, body, outs).0,
            later,
            r.message(msg_type, body).msg_id,
        ),
{
    let after = r.published(msg_type, key, body, outs).0;
    let id = r.message(msg_type, body).msg_id;
    assert forall|k: int| #![trigger later[k]] 0 <= k < later.len() implies match later[k] {
        ArrivalView::Published { msg_type, key, body, outs } => all_arrived(
            after,
            later.take(k),
        ).message(msg_type, body).msg_id != id,
        ArrivalView::Fed { msg, outs } => true,
    } by {
        lemma_arrivals_seq(after, later.take(k));
        let now = all_arrived(after, later.take(k));
        if registry::msg_id(now.daemon_id, now.seq) == registry::msg_id(r.daemon_id, r.seq) {
            msg_ids_are_unique(now.daemon_id, now.seq, r.daemon_id, r.seq);
        }
    }
}

// --- subscribers --------------------------------------------------------------------

/// Subscribing a handle again changes nothing, and the connection listens.
pub proof fn subscribing_is_idempotent(r: RegistryView, msg_type: Seq<char>, handle: HandleView)
    requires
        r.coherent(),
    ensures
        ({
            let once = r.subscribed(msg_type, handle);
            &&& registry::listens(once.listeners(msg_type), handle.id)
            &&& once.subscribed(msg_type, handle) == once
        }),
{
    let before = r.listeners(msg_type);
    registry::lemma_with_handle(before, handle);
    let once = r.subscribed(msg_type, handle);
    let after = once.listeners(msg_type);
    registry::lemma_handle_place(before, handle.id);
    registry::lemma_handle_place(after, handle.id);
    let k = registry::handle_place(before, handle.id) as int;
    let p = registry::handle_place(after, handle.id) as int;
    assert(after[k].id == handle.id && after[p].id == handle.id);
    assert(k == p);
    assert(registry::with_handle(after, handle) =~= after);
    assert(once.subscribed(msg_type, handle) =~= once);
}

/// After unsubscribing, the connection does not listen, and unsubscribing again
/// changes nothing.
pub proof fn unsubscribing_is_idempotent(r: RegistryView, msg_type: Seq<char>, conn: u64)
    requires
        r.coherent(),
    ensures
        ({
            let once = r.unsubscribed(msg_type, conn);
            &&& !registry::listens(once.listeners(msg_type), conn)
            &&& once.unsubscribed(msg_type, conn) == once
        }),
{
    registry::lemma_without_handle(r.listeners(msg_type), conn);
    let once = r.unsubscribed(msg_type, conn);
    let left = registry::without_handle(r.listeners(msg_type), conn);
    assert(once.listeners(msg_type) =~= left);
    assert(once.unsubscribed(msg_type, conn) =~= once);
}

/// Unsubscribing undoes the subscription of a connection that did not listen.
pub proof fn unsubscribing_undoes_subscribing(
    r: RegistryView,
    msg_type: Seq<char>,
    handle: HandleView,
)
    requires
        r.coherent(),
        !registry::listens(r.listeners(msg_type), handle.id),
    ensures
        r.subscribed(msg_type, handle).unsubscribed(msg_type, handle.id) == r,
{
    let before = r.listeners(msg_type);
    registry::lemma_with_handle(before, handle);
    registry::lemma_handle_place(before, handle.id);
    let after = registry::with_handle(before, handle);
    registry::lemma_handle_place(after, handle.id);
    let p = registry::handle_place(after, handle.id) as int;
    if p < before.len() {
        assert(after[p] == before[p]);
    }
    assert(registry::without_handle(after, handle.id) =~= before);
    assert(r.subscribed(msg_type, handle).unsubscribed(msg_type, handle.id) =~= r);
}

/// Subscribing and unsubscribing concern one type and one connection only.
pub proof fn subscription_concerns_one_type(
    r: RegistryView,
    msg_type: Seq<char>,
    handle: HandleView,
    conn: u64,
    other: Seq<char>,
)
    requires
        other != msg_type,
    ensures
        r.subscribed(msg_type, handle).listeners(other) == r.listeners(other),
        r.unsubscribed(msg_type, conn).listeners(other) == r.listeners(other),
{
}

/// Once a connection is removed from the types it subscribed to, it listens to
/// none of them, and no drop is recorded for it.
pub proof fn removed_conn_is_gone(
    r: RegistryView,
    types: Seq<Seq<char>>,
    conn: u64,
    msg_type: Seq<char>,
)
    requires
        r.coherent(),
        types.contains(msg_type),
    ensures
        ({
            let after = r.unsubscribed_all(types, conn).drops_taken(conn);
            &&& !registry::listens(after.listeners(msg_type), conn)
            &&& registry::drop_count(after.drops, conn, msg_type) == 0
        }),
{
    lemma_unsubscribed_all(r, types, conn, msg_type);
    let cleared = r.unsubscribed_all(types, conn);
    drops_are_reported_once(cleared.drops, conn, msg_type);
}

pub proof fn lemma_unsubscribed_all(
    r: RegistryView,
    types: Seq<Seq<char>>,
    conn: u64,
    msg_type: Seq<char>,
)
    requires
        r.coherent(),
    ensures
        r.unsubscribed_all(types, conn).coherent(),
        types.contains(msg_type) ==> !registry::listens(
            r.unsubscribed_all(types, conn).listeners(msg_type),
            conn,
        ),
    decreases types.len(),
{
    if types.len() > 0 {
        let rest = types.drop_last();
        lemma_unsubscribed_all(r, rest, conn, msg_type);
        let prior = r.unsubscribed_all(rest, conn);
        let t = types.last();
        registry::lemma_without_handle(prior.listeners(t), conn);
        let after = prior.unsubscribed(t, conn);
        assert forall|u: Seq<char>| #[trigger] after.subs.contains_key(u) implies after.subs[u].len()
            > 0 && registry::distinct_conns(after.subs[u]) by {
            if u != t {
                assert(prior.subs.contains_key(u));
            }
        }
        if types.contains(msg_type) && msg_type != t {
            let i = choose|i: int| 0 <= i < types.len() && types[i] == msg_type;
            assert(rest[i] == msg_type);
        }
        assert(after.listeners(t) =~= registry::without_handle(prior.listeners(t), conn));
    }
}

// --- fan-out ------------------------------------------------------------------------

/// A message is offered to every subscriber of its type, once, and to nobody
/// else: the queue of a subscriber gets one offer more, of the message, and what
/// enters it is the message or nothing, whatever becomes of the offers to the
/// others. Its writer is woken, once, exactly where the message is dropped because
/// the queue is full.
pub proof fn each_listener_is_offered_once(
    r: RegistryView,
    msg: MessageView,
    outs: Seq<SendOutcome>,
    i: int,
    other: Seq<char>,
)
    requires
        outs.len() == r.listeners(msg.msg_type).len(),
        0 <= i < outs.len(),
        other != msg.msg_type,
    ensures
        ({
            let before = r.listeners(msg.msg_type);
            let after = r.fanned(msg, outs).listeners(msg.msg_type);
            &&& after.len() == before.len()
            &&& after[i].id == before[i].id
            &&& after[i].offers == before[i].offers.push((OutboundView::Deliver(msg), outs[i]))
            &&& queue::entered(after[i].offers) == (if outs[i] == SendOutcome::Sent {
                queue::entered(before[i].offers).push(OutboundView::Deliver(msg))
            } else {
                queue::entered(before[i].offers)
            })
            &&& after[i].wakes == before[i].wakes + if outs[i] == SendOutcome::Full {
                1nat
            } else {
                0nat
            }
        }),
        r.fanned(msg, outs).listeners(other) == r.listeners(other),
        r.fanned(msg, outs).types == r.types,
{
    let before = r.listeners(msg.msg_type)[i].offers;
    assert(before.push((OutboundView::Deliver(msg), outs[i])).drop_last() =~= before);
}

/// A message without subscribers evaporates.
pub proof fn unheard_message_evaporates(r: RegistryView, msg: MessageView)
    requires
        r.listeners(msg.msg_type).len() == 0,
    ensures
        r.fanned(msg, Seq::empty()) == r,
{
}

pub proof fn lemma_drop_count(
    drops: Seq<DropView>,
    conn: u64,
    msg_type: Seq<char>,
    c: u64,
    t: Seq<char>,
)
    ensures
        registry::drop_count(registry::dropped(drops, conn, msg_type), c, t) == (if c == conn && t
            == msg_type {
            registry::one_more(registry::drop_count(drops, conn, msg_type))
        } else {
            registry::drop_count(drops, c, t)
        }),
{
    let after = registry::dropped(drops, conn, msg_type);
    let k = registry::drop_place(drops, conn, msg_type) as int;
    registry::lemma_drop_place(drops, conn, msg_type);
    registry::lemma_drop_place(drops, c, t);
    registry::lemma_drop_place(after, c, t);
    let i = registry::drop_place(drops, c, t) as int;
    let j = registry::drop_place(after, c, t) as int;
    if c == conn && t == msg_type {
        assert(after[k].conn == c && after[k].msg_type == t);
        if j < k {
            assert(after[j] == drops[j]);
        }
        assert(j == k);
    } else {
        if i < drops.len() {
            assert(i != k);
            assert(after[i] == drops[i]);
        }
        if j < after.len() {
            assert(j != k);
            assert(after[j] == drops[j]);
        }
        assert(j < after.len() <==> i < drops.len());
        if i < drops.len() {
            assert(i == j);
        }
    }
}

/// A subscriber's drop count for the message's type grows by one exactly where
/// its queue was full; every other count stays.
pub proof fn full_queues_are_counted(
    r: RegistryView,
    msg: MessageView,
    outs: Seq<SendOutcome>,
    conn: u64,
    msg_type: Seq<char>,
)
    requires
        r.coherent(),
        outs.len() == r.listeners(msg.msg_type).len(),
    ensures
        ({
            let handles = r.listeners(msg.msg_type);
            let k = registry::handle_place(handles, conn) as int;
            let before = registry::drop_count(r.drops, conn, msg_type);
            let after = registry::drop_count(r.fanned(msg, outs).drops, conn, msg_type);
            if msg_type == msg.msg_type && k < handles.len() && outs[k] == SendOutcome::Full {
                after == registry::one_more(before)
            } else {
                after == before
            }
        }),
{
    let handles = r.listeners(msg.msg_type);
    registry::lemma_handle_place(handles, conn);
    lemma_fanned_drops(r.drops, handles, msg.msg_type, outs, conn, msg_type);
}

pub proof fn lemma_fanned_drops(
    drops: Seq<DropView>,
    handles: Seq<HandleView>,
    sent_type: Seq<char>,
    outs: Seq<SendOutcome>,
    conn: u64,
    msg_type: Seq<char>,
)
    requires
        registry::distinct_conns(handles),
        outs.len() <= handles.len(),
    ensures
        ({
            let k = registry::handle_place(handles, conn) as int;
            let before = registry::drop_count(drops, conn, msg_type);
            let after = registry::drop_count(
                registry::fanned_drops(drops, handles, sent_type, outs),
                conn,
                msg_type,
            );
            if msg_type == sent_type && k < outs.len() && outs[k] == SendOutcome::Full {
                after == registry::one_more(before)
            } else {
                after == before
            }
        }),
    decreases outs.len(),
{
    registry::lemma_handle_place(handles, conn);
    if outs.len() > 0 {
        let rest = outs.drop_last();
        let n = outs.len() - 1;
        lemma_fanned_drops(drops, handles, sent_type, rest, conn, msg_type);
        let prior = registry::fanned_drops(drops, handles, sent_type, rest);
        lemma_drop_count(prior, handles[n].id, sent_type, conn, msg_type);
        let k = registry::handle_place(handles, conn) as int;
        if k < n {
            assert(handles[k].id != handles[n].id);
            assert(rest[k] == outs[k]);
        }
    }
}

/// Taking a connection's drop counts reports each of them and leaves none,
/// and leaves the counts of the other connections.
pub proof fn drops_are_reported_once(drops: Seq<DropView>, conn: u64, msg_type: Seq<char>)
    requires
        registry::distinct_drops(drops),
    ensures
        registry::drop_count(registry::drops_without(drops, conn), conn, msg_type) == 0,
        registry::drop_count(registry::drops_of(drops, conn), conn, msg_type)
            == registry::drop_count(drops, conn, msg_type),
        forall|c: u64|
            c != conn ==> #[trigger] registry::drop_count(
                registry::drops_without(drops, conn),
                c,
                msg_type,
            ) == registry::drop_count(drops, c, msg_type),
{
    lemma_filter_count(drops, |d: DropView| d.conn == conn, conn, msg_type);
    lemma_filter_count(drops, |d: DropView| d.conn != conn, conn, msg_type);
    assert forall|c: u64| c != conn implies #[trigger] registry::drop_count(
        registry::drops_without(drops, conn),
        c,
        msg_type,
    ) == registry::drop_count(drops, c, msg_type) by {
        lemma_filter_count(drops, |d: DropView| d.conn != conn, c, msg_type);
    }
}

proof fn lemma_filter_count(
    drops: Seq<DropView>,
    keep: spec_fn(DropView) -> bool,
    conn: u64,
    msg_type: Seq<char>,
)
    requires
        registry::distinct_drops(drops),
        forall|d: DropView, e: DropView|
            d.conn == e.conn ==> #[trigger] keep(d) == #[trigger] keep(e),
    ensures
        registry::drop_count(drops.filter(keep), conn, msg_type) == (if keep(
            DropView { conn, msg_type, count: 0 },
        ) {
            registry::drop_count(drops, conn, msg_type)
        } else {
            0
        }),
{
    let kept = drops.filter(keep);
    registry::lemma_filter_distinct(drops, keep);
    registry::lemma_drop_place(drops, conn, msg_type);
    registry::lemma_drop_place(kept, conn, msg_type);
    let i = registry::drop_place(drops, conn, msg_type) as int;
    let j = registry::drop_place(kept, conn, msg_type) as int;
    let probe = DropView { conn, msg_type, count: 0 };
    if j < kept.len() {
        assert(drops.contains(kept[j]) && keep(kept[j]));
        assert(keep(kept[j]) == keep(probe));
        let m = choose|m: int| 0 <= m < drops.len() && drops[m] == kept[j];
        if i < m {
            assert(!(drops[i].conn == drops[m].conn && drops[i].msg_type == drops[m].msg_type));
        } else if m < i {
            assert(!(drops[m].conn == conn && drops[m].msg_type == msg_type));
        }
        assert(i == m);
    }
    if i < drops.len() && keep(probe) {
        assert(keep(drops[i]) == keep(probe));
        assert(kept.contains(drops[i]));
        let m = choose|m: int| 0 <= m < kept.len() && kept[m] == drops[i];
        if m < j {
            assert(!(kept[m].conn == conn && kept[m].msg_type == msg_type));
        }
    }
}

// --- listing ------------------------------------------------------------------------

/// What LIST shows depends on the names of the registered types alone: two
/// registries with the same types, whatever the keys, give the same list.
pub proof fn listing_discloses_names_only(
    a: Seq<Seq<char>>,
    b: Seq<Seq<char>>,
    r1: RegistryView,
    r2: RegistryView,
)
    requires
        registry::lists_names(a, r1.types.dom()),
        registry::lists_names(b, r2.types.dom()),
        r1.types.dom() == r2.types.dom(),
    ensures
        a == b,
{
    let pa = a.map_values(|n: Seq<char>| (n, ()));
    let pb = b.map_values(|n: Seq<char>| (n, ()));
    let m = Map::new(|k: Seq<char>| r1.types.contains_key(k), |k: Seq<char>| ());
    lemma_names_list(a, r1, m);
    lemma_names_list(b, r1, m);
    table::listing_is_unique(pa, pb, m);
    assert(a =~= table::names_of(pa));
    assert(b =~= table::names_of(pb));
}

proof fn lemma_names_list(names: Seq<Seq<char>>, r: RegistryView, m: Map<Seq<char>, ()>)
    requires
        registry::lists_names(names, r.types.dom()),
        m == Map::new(|k: Seq<char>| r.types.contains_key(k), |k: Seq<char>| ()),
    ensures
        table::lists(names.map_values(|n: Seq<char>| (n, ())), m),
{
    let pairs = names.map_values(|n: Seq<char>| (n, ()));
    assert(table::names_of(pairs) =~= names);
    assert forall|i: int| 0 <= i < pairs.len() implies m.contains_key(#[trigger] pairs[i].0)
        && m[pairs[i].0] == pairs[i].1 by {
        assert(names[i] == pairs[i].0);
        assert(names.contains(names[i]));
        assert(r.types.dom().contains(names[i]));
    }
    assert forall|k: Seq<char>| #[trigger] m.contains_key(k) implies exists|i: int|
        0 <= i < pairs.len() && #[trigger] pairs[i].0 == k by {
        assert(r.types.dom().contains(k));
        assert(names.contains(k));
        let i = choose|i: int| 0 <= i < names.len() && names[i] == k;
        assert(pairs[i].0 == k);
    }
}

} // verus!
