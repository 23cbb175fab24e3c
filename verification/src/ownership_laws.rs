//! Who owns a type: what registering, learning and listing come to.
use vstd::prelude::*;

use crate::registry;
use crate::registry::RegistryView;
use crate::registry::TypeRegView;
use crate::table;
use crate::text;

verus! {

broadcast use vstd::string::group_string_axioms;

/// Nothing but the ownership records differs.
pub open spec fn only_types_differ(a: RegistryView, b: RegistryView) -> bool {
    &&& a.daemon_id == b.daemon_id
    &&& a.seq == b.seq
    &&& a.subs == b.subs
    &&& a.seen == b.seen
    &&& a.drops == b.drops
}

/// Nothing but the ownership record of one type differs.
pub open spec fn only_type_differs(a: RegistryView, b: RegistryView, msg_type: Seq<char>) -> bool {
    &&& only_types_differ(a, b)
    &&& forall|t: Seq<char>|
        t != msg_type ==> (#[trigger] a.types.contains_key(t) <==> b.types.contains_key(t))
    &&& forall|t: Seq<char>|
        t != msg_type && #[trigger] a.types.contains_key(t) ==> a.types[t] == b.types[t]
}

/// An unclaimed type is claimed by whoever registers it: the record holds the key
/// that was presented, this daemon and the time, and it is new.
pub proof fn unclaimed_type_is_claimed(
    r: RegistryView,
    msg_type: Seq<char>,
    key: Seq<char>,
    now_ms: u64,
)
    requires
        !r.types.contains_key(msg_type),
    ensures
        ({
            let (after, answer) = r.registered(msg_type, key, now_ms);
            &&& answer is Ok
            &&& answer->Ok_0.changed
            &&& answer->Ok_0.reg.key == key
            &&& answer->Ok_0.reg.origin_daemon == r.daemon_id
            &&& answer->Ok_0.reg.ts == now_ms
            &&& after.types.contains_key(msg_type)
            &&& after.types[msg_type] == answer->Ok_0.reg
            &&& only_type_differs(r, after, msg_type)
        }),
{
}

/// A claimed type is not claimed again, wherever its record came from: registering
/// with its key succeeds and hands out the record as it stands, registering with
/// any other key is refused with 433, and neither changes anything.
pub proof fn claimed_type_stays_claimed(
    r: RegistryView,
    msg_type: Seq<char>,
    key: Seq<char>,
    now_ms: u64,
)
    requires
        r.types.contains_key(msg_type),
    ensures
        ({
            let (after, answer) = r.registered(msg_type, key, now_ms);
            &&& after == r
            &&& answer is Ok <==> key == r.types[msg_type].key
            &&& answer is Ok ==> answer->Ok_0.reg == r.types[msg_type] && !answer->Ok_0.changed
            &&& answer is Err ==> answer->Err_0.code == 433 && answer->Err_0.reason == msg_type
                + " already registered"@
        }),
{
}

/// After a registration learned from a peer, its key is the one that registers and
/// publishes here, and no other is, unless an earlier record stands.
pub proof fn learned_key_is_the_key(
    r: RegistryView,
    msg_type: Seq<char>,
    incoming: TypeRegView,
    key: Seq<char>,
    now_ms: u64,
)
    requires
        !r.types.contains_key(msg_type),
    ensures
        ({
            let (after, _) = r.remotely_registered(msg_type, incoming);
            &&& after.registered(msg_type, key, now_ms).1 is Ok <==> key == incoming.key
            &&& after.registered(msg_type, key, now_ms).0 == after
            &&& after.refusal(msg_type, key) is None <==> key == incoming.key
        }),
{
}

/// A record that is learned for an unknown type is adopted as it is, and passed on.
pub proof fn unknown_type_is_learned(
    r: RegistryView,
    msg_type: Seq<char>,
    incoming: TypeRegView,
)
    requires
        !r.types.contains_key(msg_type),
    ensures
        ({
            let (after, passed) = r.remotely_registered(msg_type, incoming);
            &&& passed == Some(incoming)
            &&& after.types.contains_key(msg_type)
            &&& after.types[msg_type] == incoming
            &&& only_type_differs(r, after, msg_type)
        }),
{
}

/// Of a record that stands and one that is learned, the one with the lower time
/// stands, and at the same time the one whose daemon's id is the lower; only where
/// the learned one does, anything changes, and it is passed on.
pub proof fn lower_record_is_kept(r: RegistryView, msg_type: Seq<char>, incoming: TypeRegView)
    requires
        r.types.contains_key(msg_type),
    ensures
        ({
            let (after, passed) = r.remotely_registered(msg_type, incoming);
            let standing = r.types[msg_type];
            let wins = incoming.ts < standing.ts || (incoming.ts == standing.ts && text::text_lt(
                incoming.origin_daemon,
                standing.origin_daemon,
            ));
            &&& wins ==> passed == Some(incoming) && after.types[msg_type] == incoming
            &&& !wins ==> passed is None && after == r
            &&& after.types.contains_key(msg_type)
            &&& only_type_differs(r, after, msg_type)
        }),
{
}

/// Publishing is refused exactly to those who do not hold the key of a type that is
/// registered: with 430 where it is not, with 441 where the key is another.
pub proof fn only_the_key_publishes(r: RegistryView, msg_type: Seq<char>, key: Seq<char>)
    ensures
        r.refusal(msg_type, key) is None <==> r.types.contains_key(msg_type)
            && r.types[msg_type].key == key,
        !r.types.contains_key(msg_type) ==> r.refusal(msg_type, key) is Some && r.refusal(
            msg_type,
            key,
        )->0.code == 430 && r.refusal(msg_type, key)->0.reason == msg_type + " not registered"@,
        r.types.contains_key(msg_type) && r.types[msg_type].key != key ==> r.refusal(
            msg_type,
            key,
        ) is Some && r.refusal(msg_type, key)->0.code == 441 && r.refusal(msg_type, key)->0.reason
            == "authorization key mismatch"@,
{
}

/// A listing of names holds exactly the names, each once, in ascending order.
pub proof fn listed_names_are_the_names(names: Seq<Seq<char>>, set: Set<Seq<char>>)
    requires
        registry::lists_names(names, set),
    ensures
        forall|i: int| 0 <= i < names.len() ==> set.contains(#[trigger] names[i]),
        forall|k: Seq<char>| #[trigger]
            set.contains(k) ==> exists|i: int| 0 <= i < names.len() && names[i] == k,
        forall|i: int, j: int|
            0 <= i < j < names.len() ==> text::text_lt(#[trigger] names[i], #[trigger] names[j]),
        forall|i: int, j: int|
            0 <= i < j < names.len() ==> #[trigger] names[i] != #[trigger] names[j],
{
    assert forall|i: int| 0 <= i < names.len() implies set.contains(#[trigger] names[i]) by {
        assert(names.contains(names[i]));
    }
    assert forall|i: int, j: int| 0 <= i < j < names.len() implies #[trigger] names[i]
        != #[trigger] names[j] by {
        text::lemma_text_lt_irreflexive(names[i]);
    }
}

/// A snapshot holds exactly the records, each once, in ascending order of the types.
pub proof fn snapshot_is_the_records(
    list: Seq<(Seq<char>, TypeRegView)>,
    types: Map<Seq<char>, TypeRegView>,
)
    requires
        table::lists(list, types),
    ensures
        forall|i: int|
            0 <= i < list.len() ==> types.contains_key((#[trigger] list[i]).0)
                && types[list[i].0] == list[i].1,
        forall|k: Seq<char>| #[trigger]
            types.contains_key(k) ==> exists|i: int|
                0 <= i < list.len() && #[trigger] list[i] == (k, types[k]),
        forall|i: int, j: int|
            0 <= i < j < list.len() ==> text::text_lt(
                (#[trigger] list[i]).0,
                (#[trigger] list[j]).0,
            ),
{
    let names = table::names_of(list);
    assert forall|i: int, j: int| 0 <= i < j < list.len() implies text::text_lt(
        (#[trigger] list[i]).0,
        (#[trigger] list[j]).0,
    ) by {
        assert(names[i] == list[i].0 && names[j] == list[j].0);
    }
    assert forall|k: Seq<char>| #[trigger] types.contains_key(k) implies exists|i: int|
        0 <= i < list.len() && #[trigger] list[i] == (k, types[k]) by {
        let i = choose|i: int| 0 <= i < list.len() && #[trigger] list[i].0 == k;
        assert(list[i].1 == types[k]);
        assert(list[i] == (k, types[k]));
    }
}

} // verus!
