//! The shared in-memory registry: message-type ownership (auth keys), per-type
//! subscriber sets, message-id generation, fan-out with the tail-drop
//! slow-consumer policy, and the loop-prevention seen-set.
//!
//! Everything here is in RAM and rebuilt as clients and peers (re)connect. A
//! daemon restart is a clean slate, by design.
use std::sync::Arc;

use vstd::prelude::*;

use crate::message::Message;
use crate::message::MessageView;
use crate::number;
pub use crate::queue::ConnHandle;
use crate::queue::HandleView;
pub use crate::queue::Outbound;
use crate::queue::OutboundView;
use crate::queue::SendOutcome;
use crate::seen::SeenSet;
use crate::seen::SeenView;
use crate::status;
use crate::status::Code;
use crate::table;
use crate::table::Table;
use crate::text;

verus! {

broadcast use vstd::string::group_string_axioms;

// --- ownership records ---------------------------------------------------------

/// Ownership record for a registered message type.
#[derive(Debug, PartialEq, Eq)]
pub struct TypeReg {
    /// The authorization key required to publish.
    pub key: String,
    /// The daemon on which the owning registration originated.
    pub origin_daemon: String,
    /// Registration timestamp (ms since the Unix epoch), for tie-breaking.
    pub ts: u64,
}

/// The model of a [`TypeReg`].
#[verifier::ext_equal]
pub struct TypeRegView {
    pub key: Seq<char>,
    pub origin_daemon: Seq<char>,
    pub ts: u64,
}

impl View for TypeReg {
    type V = TypeRegView;

    open spec fn view(&self) -> TypeRegView {
        TypeRegView { key: self.key@, origin_daemon: self.origin_daemon@, ts: self.ts }
    }
}

impl Clone for TypeReg {
    fn clone(&self) -> (r: Self)
        ensures
            r == *self,
    {
        TypeReg {
            key: self.key.clone(),
            origin_daemon: self.origin_daemon.clone(),
            ts: self.ts,
        }
    }
}

impl TypeRegView {
    /// Whether this record's `(timestamp, daemon-id)` tuple is the lower one.
    pub open spec fn before(self, other: TypeRegView) -> bool {
        self.ts < other.ts || (self.ts == other.ts && text::text_lt(
            self.origin_daemon,
            other.origin_daemon,
        ))
    }

    /// Whether two records have the same `(timestamp, daemon-id)` tuple.
    pub open spec fn ties(self, other: TypeRegView) -> bool {
        self.ts == other.ts && self.origin_daemon == other.origin_daemon
    }
}

impl TypeReg {
    /// Whether this record's `(timestamp, daemon-id)` tuple, used to resolve
    /// concurrent registrations, is strictly the lower one.
    pub fn before(&self, other: &TypeReg) -> (b: bool)
        ensures
            b == self@.before(other@),
    {
        self.ts < other.ts || (self.ts == other.ts && text::str_lt(
            self.origin_daemon.as_str(),
            other.origin_daemon.as_str(),
        ))
    }
}

/// Error registering a type.
#[derive(Debug, Clone, PartialEq, Eq)]
pub struct RegisterError {
    /// MBP status code (`433`).
    pub code: Code,
    /// Human-readable reason.
    pub reason: String,
}

/// Error publishing a message.
#[derive(Debug, Clone, PartialEq, Eq)]
pub struct PublishError {
    /// MBP status code (`430` / `441` / `452`).
    pub code: Code,
    /// Human-readable reason.
    pub reason: String,
}

/// The model of a refusal: its status code and reason.
#[verifier::ext_equal]
pub struct RefusalView {
    pub code: Code,
    pub reason: Seq<char>,
}

impl View for RegisterError {
    type V = RefusalView;

    open spec fn view(&self) -> RefusalView {
        RefusalView { code: self.code, reason: self.reason@ }
    }
}

impl View for PublishError {
    type V = RefusalView;

    open spec fn view(&self) -> RefusalView {
        RefusalView { code: self.code, reason: self.reason@ }
    }
}

/// Outcome of a local `REGISTER`.
#[derive(Debug, PartialEq, Eq)]
pub struct Registered {
    /// The full ownership record now held for the type.
    pub reg: TypeReg,
    /// True if this call created or changed the record (worth propagating),
    /// false if it was an idempotent no-op.
    pub changed: bool,
}

/// The model of a [`Registered`].
#[verifier::ext_equal]
pub struct RegisteredView {
    pub reg: TypeRegView,
    pub changed: bool,
}

impl View for Registered {
    type V = RegisteredView;

    open spec fn view(&self) -> RegisteredView {
        RegisteredView { reg: self.reg@, changed: self.changed }
    }
}

// --- drops ---------------------------------------------------------------------

/// How many messages of a type were tail-dropped for a connection since its
/// last `102 DROP` for that type.
pub struct DropCount {
    conn: u64,
    msg_type: String,
    count: u64,
}

/// The model of a [`DropCount`].
#[verifier::ext_equal]
pub struct DropView {
    pub conn: u64,
    pub msg_type: Seq<char>,
    pub count: u64,
}

impl View for DropCount {
    type V = DropView;

    closed spec fn view(&self) -> DropView {
        DropView { conn: self.conn, msg_type: self.msg_type@, count: self.count }
    }
}

/// The place of the count for a connection and a type, or the length.
pub open spec fn drop_place(drops: Seq<DropView>, conn: u64, msg_type: Seq<char>) -> nat
    decreases drops.len(),
{
    if drops.len() == 0 || (drops[0].conn == conn && drops[0].msg_type == msg_type) {
        0
    } else {
        1 + drop_place(drops.drop_first(), conn, msg_type)
    }
}

/// The drops that are recorded for a connection and a type.
pub open spec fn drop_count(drops: Seq<DropView>, conn: u64, msg_type: Seq<char>) -> u64 {
    let i = drop_place(drops, conn, msg_type);
    if i < drops.len() {
        drops[i as int].count
    } else {
        0
    }
}

/// One more of a count, which stops at the largest value.
pub open spec fn one_more(n: u64) -> u64 {
    if n < u64::MAX {
        (n + 1) as u64
    } else {
        n
    }
}

/// The counts after one more drop.
pub open spec fn dropped(drops: Seq<DropView>, conn: u64, msg_type: Seq<char>) -> Seq<DropView> {
    let i = drop_place(drops, conn, msg_type);
    let entry = DropView { conn, msg_type, count: one_more(drop_count(drops, conn, msg_type)) };
    if i < drops.len() {
        drops.update(i as int, entry)
    } else {
        drops.push(entry)
    }
}

/// The counts after an item of a type was offered to a connection: a full queue
/// is a drop, the other outcomes are not.
pub open spec fn settled(
    drops: Seq<DropView>,
    conn: u64,
    msg_type: Seq<char>,
    outcome: SendOutcome,
) -> Seq<DropView> {
    if outcome == SendOutcome::Full {
        dropped(drops, conn, msg_type)
    } else {
        drops
    }
}

/// No connection has two counts for one type.
pub open spec fn distinct_drops(drops: Seq<DropView>) -> bool {
    forall|i: int, j: int|
        0 <= i < j < drops.len() ==> !((#[trigger] drops[i]).conn == (#[trigger] drops[j]).conn
            && drops[i].msg_type == drops[j].msg_type)
}

/// The counts of one connection.
pub open spec fn drops_of(drops: Seq<DropView>, conn: u64) -> Seq<DropView> {
    drops.filter(|d: DropView| d.conn == conn)
}

/// The counts of all other connections.
pub open spec fn drops_without(drops: Seq<DropView>, conn: u64) -> Seq<DropView> {
    drops.filter(|d: DropView| d.conn != conn)
}

pub proof fn lemma_drop_place(drops: Seq<DropView>, conn: u64, msg_type: Seq<char>)
    ensures
        ({
            let i = drop_place(drops, conn, msg_type);
            &&& i <= drops.len()
            &&& i < drops.len() ==> drops[i as int].conn == conn && drops[i as int].msg_type
                == msg_type
            &&& forall|j: int|
                0 <= j < i ==> !((#[trigger] drops[j]).conn == conn && drops[j].msg_type
                    == msg_type)
        }),
    decreases drops.len(),
{
    if drops.len() > 0 && !(drops[0].conn == conn && drops[0].msg_type == msg_type) {
        let rest = drops.drop_first();
        lemma_drop_place(rest, conn, msg_type);
        let i = drop_place(drops, conn, msg_type);
        assert forall|j: int| 0 <= j < i implies !((#[trigger] drops[j]).conn == conn
            && drops[j].msg_type == msg_type) by {
            if j > 0 {
                assert(drops[j] == rest[j - 1]);
            }
        }
    }
}

proof fn lemma_drop_place_is(drops: Seq<DropView>, conn: u64, msg_type: Seq<char>, k: int)
    requires
        0 <= k <= drops.len(),
        k < drops.len() ==> drops[k].conn == conn && drops[k].msg_type == msg_type,
        forall|j: int|
            0 <= j < k ==> !((#[trigger] drops[j]).conn == conn && drops[j].msg_type == msg_type),
    ensures
        drop_place(drops, conn, msg_type) == k,
{
    lemma_drop_place(drops, conn, msg_type);
    let i = drop_place(drops, conn, msg_type) as int;
    if i < k {
        assert(drops[i].conn == conn);
    } else if k < i {
        assert(drops[k].conn == conn);
    }
}

pub proof fn lemma_dropped_distinct(drops: Seq<DropView>, conn: u64, msg_type: Seq<char>)
    requires
        distinct_drops(drops),
    ensures
        distinct_drops(dropped(drops, conn, msg_type)),
{
    lemma_drop_place(drops, conn, msg_type);
    let k = drop_place(drops, conn, msg_type) as int;
    let after = dropped(drops, conn, msg_type);
    assert forall|i: int, j: int| 0 <= i < j < after.len() implies !((#[trigger] after[i]).conn == (
    #[trigger] after[j]).conn && after[i].msg_type == after[j].msg_type) by {
        if i != k {
            assert(after[i] == drops[i]);
        }
        if j != k {
            assert(after[j] == drops[j]);
            if i == k {
                assert(!(drops[k].conn == drops[j].conn && drops[k].msg_type
                    == drops[j].msg_type));
            }
        }
    }
}

pub proof fn lemma_filter_distinct(drops: Seq<DropView>, keep: spec_fn(DropView) -> bool)
    requires
        distinct_drops(drops),
    ensures
        distinct_drops(drops.filter(keep)),
        forall|i: int|
            0 <= i < drops.filter(keep).len() ==> drops.contains(
                #[trigger] drops.filter(keep)[i],
            ) && keep(drops.filter(keep)[i]),
        forall|i: int|
            0 <= i < drops.len() && keep(#[trigger] drops[i]) ==> drops.filter(keep).contains(
                drops[i],
            ),
    decreases drops.len(),
{
    reveal(Seq::filter);
    if drops.len() > 0 {
        let head = drops.drop_last();
        let last = drops.last();
        lemma_filter_distinct(head, keep);
        let sub = head.filter(keep);
        let all = drops.filter(keep);
        assert forall|i: int| 0 <= i < all.len() implies drops.contains(#[trigger] all[i]) && keep(
            all[i],
        ) by {
            if i < sub.len() {
                assert(all[i] == sub[i]);
                let k = choose|k: int| 0 <= k < head.len() && head[k] == sub[i];
                assert(drops[k] == all[i]);
            } else {
                assert(drops[drops.len() - 1] == all[i]);
            }
        }
        assert forall|i: int| 0 <= i < drops.len() && keep(#[trigger] drops[i]) implies all.contains(
            drops[i],
        ) by {
            if i < head.len() {
                assert(head[i] == drops[i]);
                assert(sub.contains(head[i]));
                let k = choose|k: int| 0 <= k < sub.len() && sub[k] == head[i];
                assert(all[k] == drops[i]);
            } else {
                assert(all[all.len() - 1] == drops[i]);
            }
        }
        assert forall|i: int, j: int| 0 <= i < j < all.len() implies !((#[trigger] all[i]).conn == (
        #[trigger] all[j]).conn && all[i].msg_type == all[j].msg_type) by {
            assert(all[i] == sub[i]);
            if j < sub.len() {
                assert(all[j] == sub[j]);
            } else {
                assert(head.contains(sub[i]));
                let k = choose|k: int| 0 <= k < head.len() && head[k] == sub[i];
                assert(drops[k] == sub[i]);
                assert(all[j] == drops[drops.len() - 1]);
                assert(!(drops[k].conn == drops[drops.len() - 1].conn && drops[k].msg_type
                    == drops[drops.len() - 1].msg_type));
            }
        }
    }
}

// --- subscribers ----------------------------------------------------------------

/// The place of a connection's handle, or the length.
pub open spec fn handle_place(handles: Seq<HandleView>, id: u64) -> nat
    decreases handles.len(),
{
    if handles.len() == 0 || handles[0].id == id {
        0
    } else {
        1 + handle_place(handles.drop_first(), id)
    }
}

/// Whether a connection is among the subscribers.
pub open spec fn listens(handles: Seq<HandleView>, id: u64) -> bool {
    handle_place(handles, id) < handles.len()
}

/// The subscribers with `handle`, in place of an earlier handle of the same
/// connection.
pub open spec fn with_handle(handles: Seq<HandleView>, handle: HandleView) -> Seq<HandleView> {
    if listens(handles, handle.id) {
        handles.update(handle_place(handles, handle.id) as int, handle)
    } else {
        handles.push(handle)
    }
}

/// The subscribers without a connection.
pub open spec fn without_handle(handles: Seq<HandleView>, id: u64) -> Seq<HandleView> {
    if listens(handles, id) {
        handles.remove(handle_place(handles, id) as int)
    } else {
        handles
    }
}

/// No two handles belong to one connection.
pub open spec fn distinct_conns(handles: Seq<HandleView>) -> bool {
    forall|i: int, j: int|
        0 <= i < j < handles.len() ==> (#[trigger] handles[i]).id != (#[trigger] handles[j]).id
}

pub proof fn lemma_handle_place(handles: Seq<HandleView>, id: u64)
    ensures
        ({
            let i = handle_place(handles, id);
            &&& i <= handles.len()
            &&& i < handles.len() ==> handles[i as int].id == id
            &&& forall|j: int| 0 <= j < i ==> (#[trigger] handles[j]).id != id
        }),
    decreases handles.len(),
{
    if handles.len() > 0 && handles[0].id != id {
        let rest = handles.drop_first();
        lemma_handle_place(rest, id);
        let i = handle_place(handles, id);
        assert forall|j: int| 0 <= j < i implies (#[trigger] handles[j]).id != id by {
            if j > 0 {
                assert(handles[j] == rest[j - 1]);
            }
        }
    }
}

proof fn lemma_handle_place_is(handles: Seq<HandleView>, id: u64, k: int)
    requires
        0 <= k <= handles.len(),
        k < handles.len() ==> handles[k].id == id,
        forall|j: int| 0 <= j < k ==> (#[trigger] handles[j]).id != id,
    ensures
        handle_place(handles, id) == k,
{
    lemma_handle_place(handles, id);
    let i = handle_place(handles, id) as int;
    if i < k {
        assert(handles[i].id == id);
    } else if k < i {
        assert(handles[k].id == id);
    }
}

/// The handles after a message was fanned out to each of them, once.
pub open spec fn fanned_handles(
    handles: Seq<HandleView>,
    msg: MessageView,
    outs: Seq<SendOutcome>,
) -> Seq<HandleView> {
    Seq::new(
        handles.len(),
        |i: int| handles[i].fanned(OutboundView::Deliver(msg), outs[i]),
    )
}

/// The drop counts after a message was offered to each of the handles.
pub open spec fn fanned_drops(
    drops: Seq<DropView>,
    handles: Seq<HandleView>,
    msg_type: Seq<char>,
    outs: Seq<SendOutcome>,
) -> Seq<DropView>
    decreases outs.len(),
{
    if outs.len() == 0 {
        drops
    } else {
        settled(
            fanned_drops(drops, handles, msg_type, outs.drop_last()),
            handles[outs.len() - 1].id,
            msg_type,
            outs.last(),
        )
    }
}

// --- the registry -----------------------------------------------------------------

/// The model of a [`Registry`].
#[verifier::ext_equal]
pub struct RegistryView {
    /// This daemon's id.
    pub daemon_id: Seq<char>,
    /// The sequence number of the next message id.
    pub seq: u64,
    /// The ownership record of each registered type.
    pub types: Map<Seq<char>, TypeRegView>,
    /// The handles of each type's subscribers.
    pub subs: Map<Seq<char>, Seq<HandleView>>,
    /// The recently seen message ids.
    pub seen: SeenView,
    /// The drops that are not reported yet.
    pub drops: Seq<DropView>,
}

/// The refusal to register a type that has another key.
pub open spec fn taken(msg_type: Seq<char>) -> RefusalView {
    RefusalView {
        code: status::ALREADY_REGISTERED,
        reason: msg_type + " already registered"@,
    }
}

/// The refusal to publish to a type that is not registered.
pub open spec fn unknown_type(msg_type: Seq<char>) -> RefusalView {
    RefusalView { code: status::UNKNOWN_TYPE, reason: msg_type + " not registered"@ }
}

/// The refusal to publish with a key that is not the owner's.
pub open spec fn key_mismatch() -> RefusalView {
    RefusalView { code: status::KEY_MISMATCH, reason: "authorization key mismatch"@ }
}

/// A message id: the daemon's id, a dash and the sequence number in hexadecimal.
pub open spec fn msg_id(daemon_id: Seq<char>, seq: u64) -> Seq<char> {
    daemon_id + "-"@ + number::hex(seq as nat)
}

/// The sequence number after another, which starts over past the largest.
pub open spec fn next_seq(seq: u64) -> u64 {
    if seq < u64::MAX {
        (seq + 1) as u64
    } else {
        0
    }
}

impl RegistryView {
    /// The registry of a daemon that has just started.
    pub open spec fn fresh(daemon_id: Seq<char>, seen_capacity: nat) -> RegistryView {
        RegistryView {
            daemon_id,
            seq: 1,
            types: Map::empty(),
            subs: Map::empty(),
            seen: SeenView::empty(seen_capacity),
            drops: Seq::empty(),
        }
    }

    /// What every registry keeps: each listed type has a subscriber, a
    /// connection subscribes once, the seen-set is bounded, and a connection has
    /// one drop count for a type.
    pub open spec fn coherent(self) -> bool {
        &&& forall|t: Seq<char>| #[trigger]
            self.subs.contains_key(t) ==> self.subs[t].len() > 0 && distinct_conns(self.subs[t])
        &&& self.seen.bounded()
        &&& distinct_drops(self.drops)
    }

    /// The subscribers of a type.
    pub open spec fn listeners(self, msg_type: Seq<char>) -> Seq<HandleView> {
        if self.subs.contains_key(msg_type) {
            self.subs[msg_type]
        } else {
            Seq::empty()
        }
    }

    /// The registry with other subscribers of a type; a type without
    /// subscribers is not listed.
    pub open spec fn with_listeners(
        self,
        msg_type: Seq<char>,
        handles: Seq<HandleView>,
    ) -> RegistryView {
        RegistryView {
            subs: if handles.len() == 0 {
                self.subs.remove(msg_type)
            } else {
                self.subs.insert(msg_type, handles)
            },
            ..self
        }
    }

    /// A local registration: the registry after it and what is answered.
    pub open spec fn registered(self, msg_type: Seq<char>, key: Seq<char>, now_ms: u64) -> (
        RegistryView,
        Result<RegisteredView, RefusalView>,
    ) {
        if !self.types.contains_key(msg_type) {
            let reg = TypeRegView { key, origin_daemon: self.daemon_id, ts: now_ms };
            (
                RegistryView { types: self.types.insert(msg_type, reg), ..self },
                Ok(RegisteredView { reg, changed: true }),
            )
        } else if self.types[msg_type].key == key {
            (self, Ok(RegisteredView { reg: self.types[msg_type], changed: false }))
        } else {
            (self, Err(taken(msg_type)))
        }
    }

    /// A registration learned from a peer: the registry after it and the record
    /// to pass on, if it changed anything.
    pub open spec fn remotely_registered(self, msg_type: Seq<char>, incoming: TypeRegView) -> (
        RegistryView,
        Option<TypeRegView>,
    ) {
        if !self.types.contains_key(msg_type) || incoming.before(self.types[msg_type]) {
            (
                RegistryView { types: self.types.insert(msg_type, incoming), ..self },
                Some(incoming),
            )
        } else {
            (self, None)
        }
    }

    /// The registry with `handle` among the subscribers of a type.
    pub open spec fn subscribed(self, msg_type: Seq<char>, handle: HandleView) -> RegistryView {
        self.with_listeners(msg_type, with_handle(self.listeners(msg_type), handle))
    }

    /// The registry with a connection no longer among the subscribers of a type.
    pub open spec fn unsubscribed(self, msg_type: Seq<char>, conn: u64) -> RegistryView {
        self.with_listeners(msg_type, without_handle(self.listeners(msg_type), conn))
    }

    /// The registry with a connection unsubscribed from each of the types.
    pub open spec fn unsubscribed_all(self, types: Seq<Seq<char>>, conn: u64) -> RegistryView
        decreases types.len(),
    {
        if types.len() == 0 {
            self
        } else {
            self.unsubscribed_all(types.drop_last(), conn).unsubscribed(types.last(), conn)
        }
    }

    /// The registry without the drop counts of a connection.
    pub open spec fn drops_taken(self, conn: u64) -> RegistryView {
        RegistryView { drops: drops_without(self.drops, conn), ..self }
    }

    /// Why a publish would be refused, if it would.
    pub open spec fn refusal(self, msg_type: Seq<char>, key: Seq<char>) -> Option<RefusalView> {
        if !self.types.contains_key(msg_type) {
            Some(unknown_type(msg_type))
        } else if self.types[msg_type].key != key {
            Some(key_mismatch())
        } else {
            None
        }
    }

    /// The registry after `msg` was offered to every subscriber of its type,
    /// with the given outcomes.
    pub open spec fn fanned(self, msg: MessageView, outs: Seq<SendOutcome>) -> RegistryView {
        let handles = self.listeners(msg.msg_type);
        RegistryView {
            subs: if handles.len() == 0 {
                self.subs
            } else {
                self.subs.insert(msg.msg_type, fanned_handles(handles, msg, outs))
            },
            drops: fanned_drops(self.drops, handles, msg.msg_type, outs),
            ..self
        }
    }

    /// The message that a publish makes.
    pub open spec fn message(self, msg_type: Seq<char>, body: Seq<Seq<char>>) -> MessageView {
        MessageView {
            msg_type,
            msg_id: msg_id(self.daemon_id, self.seq),
            origin: self.daemon_id,
            body,
        }
    }

    /// A local publish: the registry after it and what is answered.
    pub open spec fn published(
        self,
        msg_type: Seq<char>,
        key: Seq<char>,
        body: Seq<Seq<char>>,
        outs: Seq<SendOutcome>,
    ) -> (RegistryView, Result<MessageView, RefusalView>) {
        match self.refusal(msg_type, key) {
            Some(e) => (self, Err(e)),
            None => {
                let msg = self.message(msg_type, body);
                let noted = RegistryView {
                    seq: next_seq(self.seq),
                    seen: self.seen.with(msg.msg_id),
                    ..self
                };
                (noted.fanned(msg, outs), Ok(msg))
            },
        }
    }

    /// A message from a peer: the registry after it and whether it was new.
    pub open spec fn ingested(self, msg: MessageView, outs: Seq<SendOutcome>) -> (
        RegistryView,
        bool,
    ) {
        if self.seen.has(msg.msg_id) {
            (self, false)
        } else {
            let noted = RegistryView { seen: self.seen.with(msg.msg_id), ..self };
            (noted.fanned(msg, outs), true)
        }
    }
}

/// The views of a list of handles.
pub open spec fn handle_views(handles: Seq<ConnHandle>) -> Seq<HandleView> {
    handles.map_values(|h: ConnHandle| h@)
}

/// The views of a list of drop counts.
pub open spec fn drop_views(drops: Seq<DropCount>) -> Seq<DropView> {
    drops.map_values(|d: DropCount| d@)
}

/// The in-memory registry of a daemon.
pub struct Registry {
    daemon_id: String,
    seq: u64,
    types: Table<TypeReg>,
    subs: Table<Vec<ConnHandle>>,
    seen: SeenSet,
    drops: Vec<DropCount>,
}

impl View for Registry {
    type V = RegistryView;

    closed spec fn view(&self) -> RegistryView {
        RegistryView {
            daemon_id: self.daemon_id@,
            seq: self.seq,
            types: self.types@.map_values(|r: TypeReg| r@),
            subs: self.subs@.map_values(|v: Vec<ConnHandle>| handle_views(v@)),
            seen: self.seen@,
            drops: drop_views(self.drops@),
        }
    }
}

/// The index of a connection's handle, or the length.
fn find_handle(handles: &Vec<ConnHandle>, id: u64) -> (k: usize)
    ensures
        k == handle_place(handle_views(handles@), id),
        k <= handles.len(),
{
    let ghost views = handle_views(handles@);
    let mut k: usize = 0;
    while k < handles.len() && handles[k].id != id
        invariant
            k <= handles.len(),
            views == handle_views(handles@),
            forall|j: int| 0 <= j < k ==> (#[trigger] views[j]).id != id,
        decreases handles.len() - k,
    {
        k += 1;
    }
    proof {
        lemma_handle_place_is(views, id, k as int);
    }
    k
}

impl Registry {
    /// The tables are sorted, the seen-set is consistent, and the model is
    /// coherent.
    pub closed spec fn wf(&self) -> bool {
        &&& self.types.wf()
        &&& self.subs.wf()
        &&& self.seen.wf()
        &&& self@.coherent()
    }

    /// A well-formed registry is coherent.
    pub proof fn lemma_wf(&self)
        requires
            self.wf(),
        ensures
            self@.coherent(),
    {
    }

    /// Create a registry for `daemon_id` with a seen-set of `seen_capacity`.
    pub fn new(daemon_id: &str, seen_capacity: usize) -> (r: Self)
        ensures
            r.wf(),
            r@ == RegistryView::fresh(daemon_id@, seen_capacity as nat),
    {
        let r = Registry {
            daemon_id: daemon_id.to_string(),
            seq: 1,
            types: Table::new(),
            subs: Table::new(),
            seen: SeenSet::new(seen_capacity),
            drops: Vec::new(),
        };
        assert(r@ =~= RegistryView::fresh(daemon_id@, seen_capacity as nat));
        proof {
            r.seen.lemma_wf();
        }
        r
    }

    /// This daemon's id.
    pub fn daemon_id(&self) -> (id: &str)
        ensures
            id@ == self@.daemon_id,
    {
        self.daemon_id.as_str()
    }

    /// Generate a fresh, cluster-unique message id: `<daemon-id>-<hex-seq>`.
    pub fn next_msg_id(&mut self) -> (id: String)
        requires
            old(self).wf(),
        ensures
            final(self).wf(),
            id@ == msg_id(old(self)@.daemon_id, old(self)@.seq),
            final(self)@ == (RegistryView { seq: next_seq(old(self)@.seq), ..old(self)@ }),
    {
        let n = self.seq;
        self.seq = n.wrapping_add(1);
        self.daemon_id.clone().concat("-").concat(number::to_hex(n).as_str())
    }

    /// Handle a local `REGISTER <type> <key>` at wall-clock time `now_ms`.
    ///
    /// First-registrant wins: an unknown type is claimed; re-registering with
    /// the SAME key is idempotent; a DIFFERENT key is rejected with `433`.
    pub fn register_local(&mut self, msg_type: &str, key: &str, now_ms: u64) -> (r: Result<
        Registered,
        RegisterError,
    >)
        requires
            old(self).wf(),
        ensures
            final(self).wf(),
            match r {
                Ok(reg) => old(self)@.registered(msg_type@, key@, now_ms) == (
                    final(self)@,
                    Ok::<RegisteredView, RefusalView>(reg@),
                ),
                Err(e) => old(self)@.registered(msg_type@, key@, now_ms) == (
                    final(self)@,
                    Err::<RegisteredView, RefusalView>(e@),
                ),
            },
            old(self)@.types.contains_key(msg_type@) ==> {
                let standing = old(self)@.types[msg_type@];
                &&& final(self)@ == old(self)@
                &&& standing.key == key@ ==> r is Ok && r->Ok_0@.reg == standing
                    && !r->Ok_0@.changed
                &&& standing.key != key@ ==> r is Err && r->Err_0@.code == 433
            },
    {
        match self.types.get(msg_type) {
            None => {
                let reg = TypeReg {
                    key: key.to_string(),
                    origin_daemon: self.daemon_id.clone(),
                    ts: now_ms,
                };
                self.types.insert(msg_type, reg.clone());
                assert(self@.types =~= old(self)@.types.insert(msg_type@, reg@));
                assert(self@ =~= old(self)@.registered(msg_type@, key@, now_ms).0);
                Ok(Registered { reg, changed: true })
            },
            Some(existing) => {
                if text::str_eq(existing.key.as_str(), key) {
                    Ok(Registered { reg: existing.clone(), changed: false })
                } else {
                    Err(
                        RegisterError {
                            code: status::ALREADY_REGISTERED,
                            reason: msg_type.to_string().concat(" already registered"),
                        },
                    )
                }
            },
        }
    }

    /// Apply a registration learned from a peer, resolving conflicts by the
    /// deterministic lowest-`(ts, daemon-id)` rule.
    ///
    /// Returns `Some(reg)` with the now-effective record if the local table
    /// changed (caller should re-propagate), or `None` if the incoming record
    /// lost / was a duplicate and nothing changed.
    pub fn apply_remote_registration(&mut self, msg_type: &str, incoming: TypeReg) -> (r: Option<
        TypeReg,
    >)
        requires
            old(self).wf(),
        ensures
            final(self).wf(),
            match r {
                Some(reg) => old(self)@.remotely_registered(msg_type@, incoming@) == (
                    final(self)@,
                    Some(reg@),
                ),
                None => old(self)@.remotely_registered(msg_type@, incoming@) == (
                    final(self)@,
                    None::<TypeRegView>,
                ),
            },
    {
        let wins = match self.types.get(msg_type) {
            None => true,
            Some(existing) => incoming.before(existing),
        };
        if wins {
            self.types.insert(msg_type, incoming.clone());
            assert(self@.types =~= old(self)@.types.insert(msg_type@, incoming@));
            assert(self@ =~= old(self)@.remotely_registered(msg_type@, incoming@).0);
            Some(incoming)
        } else {
            None
        }
    }

    /// Snapshot the full type table (for reconciliation with a newly-connected
    /// peer), ascending by type name.
    pub fn all_registrations(&self) -> (list: Vec<(String, TypeReg)>)
        requires
            self.wf(),
        ensures
            table::lists(snapshot_views(list@), self@.types),
    {
        let mut list: Vec<(String, TypeReg)> = Vec::new();
        let ghost pairs = self.types.pairs();
        let mut i: usize = 0;
        while i < self.types.len()
            invariant
                i <= pairs.len(),
                pairs == self.types.pairs(),
                list@.len() == i,
                forall|j: int|
                    0 <= j < i ==> #[trigger] snapshot_views(list@)[j] == (
                        pairs[j].0,
                        pairs[j].1@,
                    ),
            decreases pairs.len() - i,
        {
            let entry = (self.types.name_at(i).to_string(), self.types.value_at(i).clone());
            let ghost before = list@;
            list.push(entry);
            assert(snapshot_views(list@) =~= snapshot_views(before).push((entry.0@, entry.1@)));
            i += 1;
        }
        proof {
            self.types.lemma_wf();
            let views = snapshot_views(list@);
            assert(table::names_of(views) =~= table::names_of(pairs));
            let m = self@.types;
            assert forall|j: int| 0 <= j < views.len() implies m.contains_key(
                #[trigger] views[j].0,
            ) && m[views[j].0] == views[j].1 by {
                assert(views[j] == (pairs[j].0, pairs[j].1@));
            }
            assert forall|k: Seq<char>| #[trigger] m.contains_key(k) implies exists|j: int|
                0 <= j < views.len() && #[trigger] views[j].0 == k by {
                assert(self.types@.contains_key(k));
                let j = choose|j: int| 0 <= j < pairs.len() && #[trigger] pairs[j].0 == k;
                assert(views[j] == (pairs[j].0, pairs[j].1@));
                assert(views[j].0 == k);
            }
        }
        list
    }

    /// List known type names (sorted). Keys are never disclosed.
    pub fn list_types(&self) -> (list: Vec<String>)
        requires
            self.wf(),
        ensures
            lists_names(text::views(list@), self@.types.dom()),
    {
        let list = self.types.names();
        proof {
            self.types.lemma_wf();
            let names = text::views(list@);
            let pairs = self.types.pairs();
            let m = self@.types;
            assert forall|k: Seq<char>| names.contains(k) <==> #[trigger] m.dom().contains(k) by {
                if names.contains(k) {
                    let j = choose|j: int| 0 <= j < names.len() && names[j] == k;
                    assert(pairs[j].0 == k);
                }
                if m.dom().contains(k) {
                    assert(self.types@.contains_key(k));
                    let j = choose|j: int| 0 <= j < pairs.len() && #[trigger] pairs[j].0 == k;
                    assert(names[j] == k);
                }
            }
        }
        list
    }

    /// Add `handle` as a subscriber of `msg_type`. Idempotent per connection.
    pub fn subscribe(&mut self, msg_type: &str, handle: ConnHandle)
        requires
            old(self).wf(),
        ensures
            final(self).wf(),
            final(self)@ == old(self)@.subscribed(msg_type@, handle@),
    {
        let mut handles: Vec<ConnHandle> = match self.subs.remove(msg_type) {
            Some(v) => v,
            None => Vec::new(),
        };
        let ghost before = handle_views(handles@);
        assert(before =~= old(self)@.listeners(msg_type@));
        let k = find_handle(&handles, handle.id);
        proof {
            lemma_handle_place(before, handle.id);
        }
        if k < handles.len() {
            handles.set(k, handle);
        } else {
            handles.push(handle);
        }
        assert(handle_views(handles@) =~= with_handle(before, handle@));
        let ghost after = handle_views(handles@);
        self.subs.insert(msg_type, handles);
        proof {
            lemma_with_handle(before, handle@);
            assert(self@.subs =~= old(self)@.subs.insert(msg_type@, after));
            assert(self@ =~= old(self)@.subscribed(msg_type@, handle@));
        }
    }

    /// Remove connection `conn_id` from `msg_type`.
    pub fn unsubscribe(&mut self, msg_type: &str, conn_id: u64)
        requires
            old(self).wf(),
        ensures
            final(self).wf(),
            final(self)@ == old(self)@.unsubscribed(msg_type@, conn_id),
    {
        match self.subs.remove(msg_type) {
            None => {
                assert(self@.subs =~= old(self)@.subs.remove(msg_type@));
                assert(self@ =~= old(self)@.unsubscribed(msg_type@, conn_id));
            },
            Some(handles) => {
                let mut handles = handles;
                let ghost before = handle_views(handles@);
                assert(old(self)@.subs.contains_key(msg_type@));
                assert(before == old(self)@.subs[msg_type@]);
                let k = find_handle(&handles, conn_id);
                if k < handles.len() {
                    handles.remove(k);
                }
                assert(handle_views(handles@) =~= without_handle(before, conn_id));
                let ghost after = handle_views(handles@);
                proof {
                    lemma_without_handle(before, conn_id);
                }
                if handles.len() > 0 {
                    self.subs.insert(msg_type, handles);
                    assert(self@.subs =~= old(self)@.subs.insert(msg_type@, after));
                } else {
                    assert(self@.subs =~= old(self)@.subs.remove(msg_type@));
                }
                assert(self@ =~= old(self)@.unsubscribed(msg_type@, conn_id));
            },
        }
    }

    /// Remove connection `conn_id` from every type it subscribed to, and forget
    /// its unreported drops.
    pub fn remove_conn(&mut self, conn_id: u64, types: &Vec<String>)
        requires
            old(self).wf(),
        ensures
            final(self).wf(),
            final(self)@ == old(self)@.unsubscribed_all(text::views(types@), conn_id).drops_taken(
                conn_id,
            ),
    {
        let ghost all = text::views(types@);
        let mut i: usize = 0;
        while i < types.len()
            invariant
                i <= types.len(),
                all == text::views(types@),
                self.wf(),
                self@ == old(self)@.unsubscribed_all(all.take(i as int), conn_id),
            decreases types.len() - i,
        {
            self.unsubscribe(types[i].as_str(), conn_id);
            assert(all.take(i + 1).drop_last() =~= all.take(i as int));
            i += 1;
        }
        assert(all.take(i as int) =~= all);
        self.take_drops(conn_id);
    }

    /// Check whether a `PUBLISH <type> <key>` would be authorized, WITHOUT
    /// publishing. Used to reject before inviting the DATA body. Returns
    /// `Some(err)` if it would fail, `None` if it would be accepted.
    pub fn publish_precheck(&self, msg_type: &str, key: &str) -> (e: Option<PublishError>)
        requires
            self.wf(),
        ensures
            match e {
                Some(err) => self@.refusal(msg_type@, key@) == Some(err@),
                None => self@.refusal(msg_type@, key@) is None,
            },
    {
        match self.types.get(msg_type) {
            None => Some(
                PublishError {
                    code: status::UNKNOWN_TYPE,
                    reason: msg_type.to_string().concat(" not registered"),
                },
            ),
            Some(reg) => if text::str_eq(reg.key.as_str(), key) {
                None
            } else {
                Some(
                    PublishError {
                        code: status::KEY_MISMATCH,
                        reason: "authorization key mismatch".to_string(),
                    },
                )
            },
        }
    }

    /// Record one tail-drop of a message of `msg_type` for a connection. The
    /// count stops at the largest value.
    pub fn record_drop(&mut self, conn: u64, msg_type: &str)
        requires
            old(self).wf(),
        ensures
            final(self).wf(),
            final(self)@ == (RegistryView {
                drops: dropped(old(self)@.drops, conn, msg_type@),
                ..old(self)@
            }),
    {
        let ghost views = drop_views(self.drops@);
        let mut k: usize = 0;
        while k < self.drops.len() && !(self.drops[k].conn == conn && text::str_eq(
            self.drops[k].msg_type.as_str(),
            msg_type,
        ))
            invariant
                *self == *old(self),
                k <= self.drops.len(),
                views == drop_views(self.drops@),
                forall|j: int|
                    0 <= j < k ==> !((#[trigger] views[j]).conn == conn && views[j].msg_type
                        == msg_type@),
            decreases self.drops.len() - k,
        {
            k += 1;
        }
        proof {
            lemma_drop_place_is(views, conn, msg_type@, k as int);
            lemma_dropped_distinct(views, conn, msg_type@);
        }
        if k < self.drops.len() {
            let count = self.drops[k].count.saturating_add(1);
            let entry = DropCount { conn, msg_type: msg_type.to_string(), count };
            self.drops.set(k, entry);
        } else {
            self.drops.push(DropCount { conn, msg_type: msg_type.to_string(), count: 1 });
        }
        assert(self@.drops =~= dropped(views, conn, msg_type@));
        assert(self@ =~= (RegistryView {
            drops: dropped(old(self)@.drops, conn, msg_type@),
            ..old(self)@
        }));
    }

    /// Account for the outcome of one offer to a connection: a full queue is a
    /// tail-drop; a closed one is cleaned up when its connection ends.
    pub fn settle(&mut self, conn: u64, msg_type: &str, outcome: SendOutcome)
        requires
            old(self).wf(),
        ensures
            final(self).wf(),
            final(self)@ == (RegistryView {
                drops: settled(old(self)@.drops, conn, msg_type@, outcome),
                ..old(self)@
            }),
    {
        if outcome == SendOutcome::Full {
            self.record_drop(conn, msg_type);
        }
    }

    /// Take the unreported drop counts of a connection, by type.
    pub fn take_drops(&mut self, conn: u64) -> (taken: Vec<(String, u64)>)
        requires
            old(self).wf(),
        ensures
            final(self).wf(),
            final(self)@ == old(self)@.drops_taken(conn),
            pending_views(taken@, conn) == drops_of(old(self)@.drops, conn),
    {
        let mut taken: Vec<(String, u64)> = Vec::new();
        let mut rest: Vec<DropCount> = Vec::new();
        let ghost views = drop_views(self.drops@);
        let ghost mine = |d: DropView| d.conn == conn;
        let ghost others = |d: DropView| d.conn != conn;
        let mut i: usize = 0;
        proof {
            reveal(Seq::filter);
        }
        assert(pending_views(taken@, conn) =~= Seq::<DropView>::empty());
        assert(drop_views(rest@) =~= Seq::<DropView>::empty());
        assert(views.take(0) =~= Seq::<DropView>::empty());
        while i < self.drops.len()
            invariant
                *self == *old(self),
                i <= self.drops.len(),
                views == drop_views(self.drops@),
                mine == (|d: DropView| d.conn == conn),
                others == (|d: DropView| d.conn != conn),
                pending_views(taken@, conn) == views.take(i as int).filter(mine),
                drop_views(rest@) == views.take(i as int).filter(others),
            decreases self.drops.len() - i,
        {
            proof {
                reveal(Seq::filter);
                assert(views.take(i + 1).drop_last() =~= views.take(i as int));
                assert(views.take(i + 1).last() == self.drops@[i as int]@);
            }
            let d = &self.drops[i];
            if d.conn == conn {
                let entry = (d.msg_type.clone(), d.count);
                assert(pending_views(taken@.push(entry), conn) =~= pending_views(taken@, conn).push(
                    d@,
                ));
                taken.push(entry);
            } else {
                let entry = DropCount {
                    conn: d.conn,
                    msg_type: d.msg_type.clone(),
                    count: d.count,
                };
                assert(drop_views(rest@.push(entry)) =~= drop_views(rest@).push(d@));
                rest.push(entry);
            }
            i += 1;
        }
        assert(views.take(i as int) =~= views);
        proof {
            lemma_filter_distinct(views, others);
        }
        self.drops = rest;
        assert(self@ =~= old(self)@.drops_taken(conn));
        taken
    }

    /// Fan `msg` out to all current subscribers of its type, tail-dropping on
    /// any full outbound queue. Returns the outcomes, for the proof.
    fn fan_out(&mut self, msg: &Arc<Message>) -> (outs: Ghost<Seq<SendOutcome>>)
        requires
            old(self).wf(),
        ensures
            final(self).wf(),
            outs@.len() == old(self)@.listeners(msg@.msg_type).len(),
            final(self)@ == old(self)@.fanned(msg@, outs@),
    {
        let msg_type = msg.msg_type.as_str();
        let ghost mut outs: Seq<SendOutcome> = Seq::empty();
        match self.subs.remove(msg_type) {
            None => {
                // No listeners: the message evaporates.
                assert(self@ =~= old(self)@.fanned(msg@, outs));
            },
            Some(handles) => {
                let mut handles = handles;
                let ghost before = handle_views(handles@);
                let ghost start = self@;
                assert(start.subs =~= old(self)@.subs.remove(msg_type@));
                let mut i: usize = 0;
                while i < handles.len()
                    invariant
                        i <= handles.len(),
                        handles@.len() == before.len(),
                        outs.len() == i,
                        msg_type@ == msg@.msg_type,
                        self.wf(),
                        !self@.subs.contains_key(msg_type@),
                        self@ == (RegistryView {
                            drops: fanned_drops(start.drops, before, msg_type@, outs),
                            ..start
                        }),
                        forall|j: int|
                            0 <= j < i ==> #[trigger] handle_views(handles@)[j]
                                == before[j].fanned(OutboundView::Deliver(msg@), outs[j]),
                        forall|j: int|
                            i <= j < before.len() ==> #[trigger] handle_views(handles@)[j]
                                == before[j],
                    decreases handles.len() - i,
                {
                    let ghost here = handle_views(handles@);
                    assert(here[i as int] == before[i as int]);
                    let handle = &mut handles[i];
                    let outcome = handle.offer(msg);
                    let conn = handle.id;
                    if outcome == SendOutcome::Full {
                        handle.wake();
                    }
                    self.settle(conn, msg_type, outcome);
                    proof {
                        let ghost more = outs.push(outcome);
                        assert(more.drop_last() =~= outs);
                        assert(handle_views(handles@) =~= here.update(
                            i as int,
                            before[i as int].fanned(OutboundView::Deliver(msg@), outcome),
                        ));
                        outs = more;
                    }
                    i += 1;
                }
                assert(handle_views(handles@) =~= fanned_handles(before, msg@, outs));
                let ghost after = handle_views(handles@);
                self.subs.insert(msg_type, handles);
                assert(self@.subs =~= old(self)@.subs.insert(msg_type@, after));
                assert(self@ =~= old(self)@.fanned(msg@, outs));
                assert(distinct_conns(after)) by {
                    assert forall|i: int, j: int| 0 <= i < j < after.len() implies (
                    #[trigger] after[i]).id != (#[trigger] after[j]).id by {
                        assert(before[i].id != before[j].id);
                    }
                }
            },
        }
        Ghost(outs)
    }

    /// Validate a local `PUBLISH <type> <key>` and, on success, build the
    /// [`Message`] (assigning a fresh id and this daemon as origin), record it in
    /// the seen-set, and fan it out to local subscribers.
    ///
    /// Returns the message so the caller can forward it to peers. Fan-out uses
    /// the tail-drop policy and never blocks on a slow subscriber.
    pub fn publish_local(&mut self, msg_type: &str, key: &str, body: Vec<String>) -> (r: Result<
        Arc<Message>,
        PublishError,
    >)
        requires
            old(self).wf(),
        ensures
            final(self).wf(),
            publishes(
                old(self)@,
                msg_type@,
                key@,
                text::views(body@),
                final(self)@,
                publish_view(r),
            ),
            r matches Ok(m) ==> m@.msg_type == msg_type@ && m@.body == text::views(body@)
                && m@.origin == old(self)@.daemon_id,
    {
        if let Some(e) = self.publish_precheck(msg_type, key) {
            assert(old(self)@.published(msg_type@, key@, text::views(body@), Seq::empty()) == (
                self@,
                Err::<MessageView, RefusalView>(e@),
            ));
            return Err(e);
        }
        let id = self.next_msg_id();
        let msg = Arc::new(Message::new(msg_type, id.as_str(), self.daemon_id.as_str(), body));
        self.seen.insert(id.as_str());
        proof {
            self.seen.lemma_wf();
        }
        let Ghost(outs) = self.fan_out(&msg);
        assert(old(self)@.published(msg_type@, key@, text::views(body@), outs) == (
            self@,
            Ok::<MessageView, RefusalView>(msg@),
        ));
        Ok(msg)
    }

    /// Ingest a message received from a peer. Returns `true` if it was new
    /// (delivered to local subscribers; caller should re-forward to other
    /// peers) or `false` if it was a duplicate and dropped.
    pub fn ingest_remote(&mut self, msg: &Arc<Message>) -> (fresh: bool)
        requires
            old(self).wf(),
        ensures
            final(self).wf(),
            ingests(old(self)@, msg@, final(self)@, fresh),
    {
        if !self.seen.insert(msg.msg_id.as_str()) {
            // Already seen: loop prevention.
            assert(old(self)@.ingested(msg@, Seq::empty()) == (self@, false));
            return false;
        }
        proof {
            self.seen.lemma_wf();
            assert(self@.subs == old(self)@.subs);
        }
        let Ghost(outs) = self.fan_out(msg);
        assert(old(self)@.ingested(msg@, outs) == (self@, true));
        true
    }

    /// Number of subscribers currently listening to `msg_type`.
    pub fn subscriber_count(&self, msg_type: &str) -> (n: usize)
        requires
            self.wf(),
        ensures
            n == self@.listeners(msg_type@).len(),
    {
        match self.subs.get(msg_type) {
            None => 0,
            Some(handles) => handles.len(),
        }
    }
}

/// The outcome of a publish, by its view.
pub open spec fn publish_view(r: Result<Arc<Message>, PublishError>) -> Result<
    MessageView,
    RefusalView,
> {
    match r {
        Ok(m) => Ok(m@),
        Err(e) => Err(e@),
    }
}

/// Whether a publish can lead from one registry to another with this answer:
/// it does for some outcomes of the offers to the subscribers, one each.
pub open spec fn publishes(
    before: RegistryView,
    msg_type: Seq<char>,
    key: Seq<char>,
    body: Seq<Seq<char>>,
    after: RegistryView,
    answer: Result<MessageView, RefusalView>,
) -> bool {
    exists|outs: Seq<SendOutcome>|
        (answer is Ok ==> outs.len() == before.listeners(msg_type).len())
            && #[trigger] before.published(msg_type, key, body, outs) == (after, answer)
}

/// Whether taking in a peer's message can lead from one registry to another
/// with this answer: it does for some outcomes of the offers to the
/// subscribers, one each.
pub open spec fn ingests(
    before: RegistryView,
    msg: MessageView,
    after: RegistryView,
    fresh: bool,
) -> bool {
    exists|outs: Seq<SendOutcome>|
        (fresh ==> outs.len() == before.listeners(msg.msg_type).len())
            && #[trigger] before.ingested(msg, outs) == (after, fresh)
}

/// A snapshot of the type table, by views.
pub open spec fn snapshot_views(list: Seq<(String, TypeReg)>) -> Seq<(Seq<char>, TypeRegView)> {
    list.map_values(|e: (String, TypeReg)| (e.0@, e.1@))
}

/// Whether `names` lists a set of names: each once, ascending.
pub open spec fn lists_names(names: Seq<Seq<char>>, set: Set<Seq<char>>) -> bool {
    &&& table::ascending(names)
    &&& forall|k: Seq<char>| names.contains(k) <==> #[trigger] set.contains(k)
}

/// Taken drop counts of a connection, by views.
pub open spec fn pending_views(list: Seq<(String, u64)>, conn: u64) -> Seq<DropView> {
    list.map_values(|e: (String, u64)| DropView { conn, msg_type: e.0@, count: e.1 })
}

pub proof fn lemma_with_handle(handles: Seq<HandleView>, handle: HandleView)
    requires
        distinct_conns(handles),
    ensures
        distinct_conns(with_handle(handles, handle)),
        with_handle(handles, handle).len() > 0,
        listens(with_handle(handles, handle), handle.id),
{
    let after = with_handle(handles, handle);
    let k = handle_place(handles, handle.id) as int;
    lemma_handle_place(handles, handle.id);
    assert(after[k].id == handle.id);
    assert forall|i: int, j: int| 0 <= i < j < after.len() implies (#[trigger] after[i]).id != (
    #[trigger] after[j]).id by {
        if i != k {
            assert(after[i] == handles[i]);
        }
        if j != k {
            assert(after[j] == handles[j]);
            if i == k {
                assert(handles[k].id != handles[j].id);
            }
        }
    }
    lemma_handle_place(after, handle.id);
}

pub proof fn lemma_without_handle(handles: Seq<HandleView>, id: u64)
    requires
        distinct_conns(handles),
    ensures
        distinct_conns(without_handle(handles, id)),
        !listens(without_handle(handles, id), id),
{
    let after = without_handle(handles, id);
    let k = handle_place(handles, id) as int;
    lemma_handle_place(handles, id);
    lemma_handle_place(after, id);
    assert forall|i: int, j: int| 0 <= i < j < after.len() implies (#[trigger] after[i]).id != (
    #[trigger] after[j]).id by {
        let oi = if i >= k && k < handles.len() { i + 1 } else { i };
        let oj = if j >= k && k < handles.len() { j + 1 } else { j };
        assert(after[i] == handles[oi] && after[j] == handles[oj]);
    }
    if listens(after, id) {
        let p = handle_place(after, id) as int;
        let op = if p >= k && k < handles.len() { p + 1 } else { p };
        assert(after[p] == handles[op]);
        if op > k {
            assert(handles[k].id != handles[op].id);
        }
    }
}

} // verus!
