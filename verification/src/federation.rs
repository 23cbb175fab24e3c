//! Cluster federation (server-to-server).
//!
//! A daemon sends application frames only over links it dialed, and receives
//! only over links it accepted. [`Cluster`] is the sending side: which peers are
//! up, and what is to be written to each. [`PeerLink`] is the receiving side of
//! one accepted link. Neither does input or output of its own.
use std::sync::Arc;

use vstd::prelude::*;

use crate::body::Body;
use crate::body::BodyView;
use crate::body::Received;
use crate::client;
use crate::client::DEFAULT_MAX_LINE;
use crate::config::Limits;
use crate::config::PeerConfig;
use crate::conn::ForwardView;
use crate::conn::Forwarder;
use crate::frame;
use crate::message::Message;
use crate::message::MessageView;
use crate::number;
use crate::queue::SendOutcome;
use crate::registry;
use crate::registry::Registry;
use crate::registry::RegistryView;
use crate::registry::TypeReg;
use crate::registry::TypeRegView;
use crate::status;
use crate::table;
use crate::text;
use crate::validate;
use crate::wire;
use crate::wire::LineTake;
use crate::wire::LineTakeView;
use crate::PROTOCOL_ID;

verus! {

broadcast use vstd::string::group_string_axioms;

// --- frames -------------------------------------------------------------------------

/// The `RREG` line that propagates a registration.
pub open spec fn rreg_line(msg_type: Seq<char>, reg: TypeRegView) -> Seq<char> {
    "RREG "@ + msg_type + " "@ + reg.key + " "@ + reg.origin_daemon + " "@ + number::decimal(
        reg.ts as nat,
    )
}

/// What is written to a peer for something that happened here.
pub open spec fn frame_text(f: ForwardView) -> Seq<char> {
    match f {
        ForwardView::Message(m) => m.feed(),
        ForwardView::Registration(msg_type, reg) => rreg_line(msg_type, reg) + frame::CRLF@,
    }
}

/// Write the `RREG` line that propagates a registration, with its terminator.
pub fn encode_rreg(msg_type: &str, reg: &TypeReg) -> (s: String)
    ensures
        s@ == frame_text(ForwardView::Registration(msg_type@, reg@)),
{
    let mut out = "RREG ".to_string();
    out.append(msg_type);
    out.append(" ");
    out.append(reg.key.as_str());
    out.append(" ");
    out.append(reg.origin_daemon.as_str());
    out.append(" ");
    out.append(number::to_decimal(reg.ts).as_str());
    out.append(frame::CRLF);
    out
}

/// What a peer sends on a line.
pub enum PeerLine {
    /// `FEED <type> <msg-id> <origin-daemon-id>`: a message, whose body follows.
    Feed {
        /// The message type.
        msg_type: String,
        /// The message id.
        msg_id: String,
        /// The daemon on which the message was first published.
        origin: String,
    },
    /// `RREG <type> <key> <origin-daemon-id> <timestamp>`: a registration.
    Rreg {
        /// The message type.
        msg_type: String,
        /// The ownership record.
        reg: TypeReg,
    },
}

/// The model of a [`PeerLine`].
pub enum PeerLineView {
    Feed { msg_type: Seq<char>, msg_id: Seq<char>, origin: Seq<char> },
    Rreg { msg_type: Seq<char>, reg: TypeRegView },
}

impl View for PeerLine {
    type V = PeerLineView;

    open spec fn view(&self) -> PeerLineView {
        match self {
            PeerLine::Feed { msg_type, msg_id, origin } => PeerLineView::Feed {
                msg_type: msg_type@,
                msg_id: msg_id@,
                origin: origin@,
            },
            PeerLine::Rreg { msg_type, reg } => PeerLineView::Rreg {
                msg_type: msg_type@,
                reg: reg@,
            },
        }
    }
}

/// What the pieces of a peer's line stand for.
pub open spec fn peer_pieces(p: Seq<Seq<char>>) -> Option<PeerLineView> {
    if p.len() == 4 && p[0] == "FEED"@ {
        if validate::valid_type(p[1]) && p[2].len() > 0 && p[3].len() > 0 {
            Some(PeerLineView::Feed { msg_type: p[1], msg_id: p[2], origin: p[3] })
        } else {
            None
        }
    } else if p.len() == 5 && p[0] == "RREG"@ {
        if validate::valid_type(p[1]) && validate::valid_key(p[2]) && p[3].len() > 0 {
            match number::parse_digits(p[4], u64::MAX as nat) {
                Some(ts) => Some(
                    PeerLineView::Rreg {
                        msg_type: p[1],
                        reg: TypeRegView { key: p[2], origin_daemon: p[3], ts: ts as u64 },
                    },
                ),
                None => None,
            }
        } else {
            None
        }
    } else {
        None
    }
}

/// What a peer's line stands for, if it is well-formed.
pub open spec fn peer_line(line: Seq<char>) -> Option<PeerLineView> {
    peer_pieces(text::split(line, ' '))
}

/// Parse a line from a peer.
pub fn parse_peer_line(line: &str) -> (r: Option<PeerLine>)
    ensures
        match r {
            Some(l) => peer_line(line@) == Some(l@),
            None => peer_line(line@) is None,
        },
{
    let p = text::split_on(line, ' ');
    let ghost pieces = text::views(p@);
    assert(pieces == text::split(line@, ' '));
    if p.len() == 4 && text::str_eq(p[0].as_str(), "FEED") {
        assert(pieces[1] == p@[1]@ && pieces[2] == p@[2]@ && pieces[3] == p@[3]@);
        if validate::is_valid_type(p[1].as_str()) && !p[2].as_str().is_empty()
            && !p[3].as_str().is_empty() {
            return Some(
                PeerLine::Feed {
                    msg_type: p[1].clone(),
                    msg_id: p[2].clone(),
                    origin: p[3].clone(),
                },
            );
        }
        return None;
    }
    if p.len() == 5 && text::str_eq(p[0].as_str(), "RREG") {
        assert(pieces[1] == p@[1]@ && pieces[2] == p@[2]@ && pieces[3] == p@[3]@ && pieces[4]
            == p@[4]@);
        if validate::is_valid_type(p[1].as_str()) && validate::is_valid_key(p[2].as_str())
            && !p[3].as_str().is_empty() {
            return match number::read_digits(p[4].as_str(), u64::MAX) {
                Some(ts) => Some(
                    PeerLine::Rreg {
                        msg_type: p[1].clone(),
                        reg: TypeReg { key: p[2].clone(), origin_daemon: p[3].clone(), ts },
                    },
                ),
                None => None,
            };
        }
        return None;
    }
    None
}

/// The daemon id in the greeting of a peer link, if it is one.
pub open spec fn greeting_id(line: Seq<char>) -> Option<Seq<char>> {
    match client::status_of(line) {
        Ok((code, words)) => {
            let p = text::split(words, ' ');
            if code == status::SERVICE_READY && p.len() == 4 && p[0].len() > 0 && p[1]
                == "macro-bus-peer"@ && p[2] == PROTOCOL_ID@ && p[3] == "ready"@ {
                Some(p[0])
            } else {
                None
            }
        },
        Err(_) => None,
    }
}

/// Parse the greeting of a peer link.
pub fn parse_peer_greeting(line: &str) -> (id: Option<String>)
    ensures
        match id {
            Some(s) => greeting_id(line@) == Some(s@),
            None => greeting_id(line@) is None,
        },
{
    let (code, words) = match client::split_status(line) {
        Ok(parts) => parts,
        Err(_) => return None,
    };
    let p = text::split_on(words.as_str(), ' ');
    let ghost pieces = text::views(p@);
    if code == status::SERVICE_READY && p.len() == 4 {
        assert(pieces[0] == p@[0]@ && pieces[1] == p@[1]@ && pieces[2] == p@[2]@ && pieces[3]
            == p@[3]@);
        if !p[0].as_str().is_empty() && text::str_eq(p[1].as_str(), "macro-bus-peer")
            && text::str_eq(p[2].as_str(), PROTOCOL_ID) && text::str_eq(p[3].as_str(), "ready") {
            return Some(p[0].clone());
        }
    }
    None
}

/// The most octets of a greeting, without its terminator, that a dialer reads.
pub const MAX_GREETING: usize = 4096;

/// What the greeting of a daemon that was dialed leads to: an error, in words,
/// unless it is the daemon that was expected.
pub open spec fn peer_fault(expected: Seq<char>, line: Seq<char>) -> Option<Seq<char>> {
    match greeting_id(line) {
        Some(id) => if id == expected {
            None
        } else {
            Some("expected "@ + expected + ", but "@ + id + " answered"@)
        },
        None => Some("unexpected greeting: "@ + line),
    }
}

/// Check that a daemon that was dialed is the expected one, by its greeting.
pub fn check_peer(expected: &str, line: &str) -> (r: Result<(), String>)
    ensures
        r is Ok <==> greeting_id(line@) == Some(expected@),
        match r {
            Ok(_) => peer_fault(expected@, line@) is None,
            Err(e) => peer_fault(expected@, line@) == Some(e@),
        },
{
    match parse_peer_greeting(line) {
        Some(id) => {
            if text::str_eq(id.as_str(), expected) {
                Ok(())
            } else {
                Err(
                    "expected ".to_string().concat(expected).concat(", but ").concat(
                        id.as_str(),
                    ).concat(" answered"),
                )
            }
        },
        None => Err("unexpected greeting: ".to_string().concat(line)),
    }
}

// --- the sending side --------------------------------------------------------------------

/// A peer that this daemon dials.
pub struct Peer {
    id: String,
    up: bool,
}

/// The model of a [`Peer`].
#[verifier::ext_equal]
pub struct PeerView {
    /// The peer's daemon id.
    pub id: Seq<char>,
    /// Whether the link to it is up.
    pub up: bool,
}

impl View for Peer {
    type V = PeerView;

    closed spec fn view(&self) -> PeerView {
        PeerView { id: self.id@, up: self.up }
    }
}

/// Something to write to a peer.
#[derive(Debug, PartialEq, Eq)]
pub struct PeerSend {
    /// The index of the peer, in the order of the configuration.
    pub peer: usize,
    /// What to write.
    pub text: String,
}

/// The model of a [`PeerSend`].
#[verifier::ext_equal]
pub struct PeerSendView {
    pub peer: nat,
    pub text: Seq<char>,
}

impl View for PeerSend {
    type V = PeerSendView;

    open spec fn view(&self) -> PeerSendView {
        PeerSendView { peer: self.peer as nat, text: self.text@ }
    }
}

/// The views of a list of frames.
pub open spec fn send_views(list: Seq<PeerSend>) -> Seq<PeerSendView> {
    list.map_values(|s: PeerSend| s@)
}

/// The frames that carry a text to every peer whose link is up, but for the one
/// it came from.
pub open spec fn frames_for(
    peers: Seq<PeerView>,
    text: Seq<char>,
    source: Option<Seq<char>>,
) -> Seq<PeerSendView>
    decreases peers.len(),
{
    if peers.len() == 0 {
        Seq::empty()
    } else {
        let before = frames_for(peers.drop_last(), text, source);
        let last = peers.last();
        if last.up && source != Some(last.id) {
            before.push(PeerSendView { peer: (peers.len() - 1) as nat, text })
        } else {
            before
        }
    }
}

/// The model of a [`Cluster`].
#[verifier::ext_equal]
pub struct ClusterView {
    /// The peers that are dialed.
    pub peers: Seq<PeerView>,
    /// What is to be written, oldest first.
    pub outbox: Seq<PeerSendView>,
}

/// The registrations of a registry, ascending by type.
pub open spec fn snapshot(r: RegistryView) -> Seq<(Seq<char>, TypeRegView)> {
    choose|list: Seq<(Seq<char>, TypeRegView)>| table::lists(list, r.types)
}

/// The frames that carry registrations to one peer.
pub open spec fn snapshot_frames(peer: nat, list: Seq<(Seq<char>, TypeRegView)>) -> Seq<
    PeerSendView,
> {
    list.map_values(
        |e: (Seq<char>, TypeRegView)|
            PeerSendView { peer, text: frame_text(ForwardView::Registration(e.0, e.1)) },
    )
}

impl ClusterView {
    /// The cluster after a text was queued for every peer whose link is up, but
    /// for the one it came from.
    pub open spec fn sent(self, text: Seq<char>, source: Option<Seq<char>>) -> ClusterView {
        ClusterView { outbox: self.outbox + frames_for(self.peers, text, source), ..self }
    }

    /// The cluster after a dialed link came up: all registrations are queued for
    /// the peer.
    pub open spec fn linked(self, peer: int, r: RegistryView) -> ClusterView {
        ClusterView {
            peers: self.peers.update(peer, PeerView { up: true, ..self.peers[peer] }),
            outbox: self.outbox + snapshot_frames(peer as nat, snapshot(r)),
        }
    }

    /// The cluster after a dialed link went down: what was queued for the peer is
    /// dropped.
    pub open spec fn unlinked(self, peer: int) -> ClusterView {
        ClusterView {
            peers: self.peers.update(peer, PeerView { up: false, ..self.peers[peer] }),
            outbox: self.outbox.filter(|s: PeerSendView| s.peer != peer),
        }
    }
}

/// The sending side of the cluster: the peers that this daemon dials.
pub struct Cluster {
    peers: Vec<Peer>,
    outbox: Vec<PeerSend>,
}

/// The views of a list of peers.
pub open spec fn peer_views(peers: Seq<Peer>) -> Seq<PeerView> {
    peers.map_values(|p: Peer| p@)
}

impl View for Cluster {
    type V = ClusterView;

    closed spec fn view(&self) -> ClusterView {
        ClusterView { peers: peer_views(self.peers@), outbox: send_views(self.outbox@) }
    }
}

impl Cluster {
    /// A cluster with the configured peers, none of which is linked yet.
    pub fn new(peers: &Vec<PeerConfig>) -> (c: Self)
        ensures
            c@.peers == peers@.map_values(
                |p: PeerConfig| (PeerView { id: p.id@, up: false }),
            ),
            c@.outbox == Seq::<PeerSendView>::empty(),
    {
        let mut list: Vec<Peer> = Vec::new();
        let mut i: usize = 0;
        let ghost all = peers@.map_values(|p: PeerConfig| (PeerView { id: p.id@, up: false }));
        while i < peers.len()
            invariant
                i <= peers.len(),
                all == peers@.map_values(|p: PeerConfig| (PeerView { id: p.id@, up: false })),
                peer_views(list@) =~= all.take(i as int),
            decreases peers.len() - i,
        {
            let ghost before = list@;
            list.push(Peer { id: peers[i].id.clone(), up: false });
            assert(peer_views(list@) =~= peer_views(before).push(all[i as int]));
            assert(all.take(i + 1) =~= all.take(i as int).push(all[i as int]));
            i += 1;
        }
        assert(all.take(i as int) =~= all);
        let c = Cluster { peers: list, outbox: Vec::new() };
        assert(c@.outbox =~= Seq::<PeerSendView>::empty());
        c
    }

    /// The number of peers.
    pub fn len(&self) -> (n: usize)
        ensures
            n == self@.peers.len(),
    {
        self.peers.len()
    }

    /// Queue a text for every peer whose link is up, but for the one it came from.
    pub fn send_except(&mut self, frame: &str, source: Option<&str>)
        ensures
            final(self)@ == old(self)@.sent(
                frame@,
                match source {
                    Some(s) => Some(s@),
                    None => None,
                },
            ),
    {
        let ghost from = match source {
            Some(s) => Some(s@),
            None => None,
        };
        let ghost peers = peer_views(self.peers@);
        let ghost start = send_views(self.outbox@);
        let mut i: usize = 0;
        assert(peers.take(0) =~= Seq::<PeerView>::empty());
        assert(start + frames_for(peers.take(0), frame@, from) =~= start);
        while i < self.peers.len()
            invariant
                i <= self.peers.len(),
                self.peers == old(self).peers,
                peers == peer_views(self.peers@),
                from == (match source {
                    Some(s) => Some(s@),
                    None => None,
                }),
                send_views(self.outbox@) == start + frames_for(
                    peers.take(i as int),
                    frame@,
                    from,
                ),
            decreases self.peers.len() - i,
        {
            proof {
                assert(peers.take(i + 1).drop_last() =~= peers.take(i as int));
                assert(peers.take(i + 1).last() == self.peers@[i as int]@);
            }
            let away = match source {
                Some(s) => !text::str_eq(self.peers[i].id.as_str(), s),
                None => true,
            };
            if self.peers[i].up && away {
                let ghost before = self.outbox@;
                let item = PeerSend { peer: i, text: frame.to_string() };
                self.outbox.push(item);
                assert(send_views(self.outbox@) =~= send_views(before).push(item@));
                assert(send_views(self.outbox@) =~= start + frames_for(
                    peers.take(i + 1),
                    frame@,
                    from,
                ));
            }
            i += 1;
        }
        assert(peers.take(i as int) =~= peers);
        assert(self@ =~= old(self)@.sent(frame@, from));
    }

    /// A dialed link came up: the peer gets all registrations, and from now on
    /// what happens here.
    pub fn link_up(&mut self, peer: usize, registry: &Registry)
        requires
            peer < old(self)@.peers.len(),
            registry.wf(),
        ensures
            final(self)@ == old(self)@.linked(peer as int, registry@),
    {
        let list = registry.all_registrations();
        let ghost regs = registry::snapshot_views(list@);
        let ghost start = send_views(self.outbox@);
        proof {
            table::listing_is_unique(regs, snapshot(registry@), registry@.types);
        }
        let ghost frames = snapshot_frames(peer as nat, regs);
        let entry = Peer { id: self.peers[peer].id.clone(), up: true };
        self.peers.set(peer, entry);
        let mut i: usize = 0;
        while i < list.len()
            invariant
                i <= list.len(),
                regs == registry::snapshot_views(list@),
                frames == snapshot_frames(peer as nat, regs),
                peer_views(self.peers@) =~= old(self)@.peers.update(
                    peer as int,
                    PeerView { up: true, ..old(self)@.peers[peer as int] },
                ),
                send_views(self.outbox@) =~= start + frames.take(i as int),
            decreases list.len() - i,
        {
            let ghost before = self.outbox@;
            let item = PeerSend { peer, text: encode_rreg(list[i].0.as_str(), &list[i].1) };
            self.outbox.push(item);
            assert(regs[i as int] == (list@[i as int].0@, list@[i as int].1@));
            assert(item@ == frames[i as int]);
            assert(send_views(self.outbox@) =~= send_views(before).push(item@));
            assert(frames.take(i + 1) =~= frames.take(i as int).push(frames[i as int]));
            i += 1;
        }
        assert(frames.take(i as int) =~= frames);
        assert(self@ =~= old(self)@.linked(peer as int, registry@));
    }

    /// A dialed link went down: what is queued for the peer is dropped.
    pub fn link_down(&mut self, peer: usize)
        requires
            peer < old(self)@.peers.len(),
        ensures
            final(self)@ == old(self)@.unlinked(peer as int),
    {
        let entry = Peer { id: self.peers[peer].id.clone(), up: false };
        self.peers.set(peer, entry);
        let mut rest: Vec<PeerSend> = Vec::new();
        let ghost all = send_views(self.outbox@);
        let ghost keep = |s: PeerSendView| s.peer != peer;
        let mut i: usize = 0;
        proof {
            reveal(Seq::filter);
        }
        assert(all.take(0) =~= Seq::<PeerSendView>::empty());
        assert(send_views(rest@) =~= Seq::<PeerSendView>::empty());
        while i < self.outbox.len()
            invariant
                i <= self.outbox.len(),
                all == send_views(self.outbox@),
                keep == (|s: PeerSendView| s.peer != peer),
                send_views(rest@) == all.take(i as int).filter(keep),
                self.outbox == old(self).outbox,
                peer_views(self.peers@) =~= old(self)@.peers.update(
                    peer as int,
                    PeerView { up: false, ..old(self)@.peers[peer as int] },
                ),
            decreases self.outbox.len() - i,
        {
            proof {
                reveal(Seq::filter);
                assert(all.take(i + 1).drop_last() =~= all.take(i as int));
                assert(all.take(i + 1).last() == self.outbox@[i as int]@);
            }
            if self.outbox[i].peer != peer {
                let item = PeerSend {
                    peer: self.outbox[i].peer,
                    text: self.outbox[i].text.clone(),
                };
                assert(send_views(rest@.push(item)) =~= send_views(rest@).push(item@));
                rest.push(item);
            }
            i += 1;
        }
        assert(all.take(i as int) =~= all);
        self.outbox = rest;
        assert(self@ =~= old(self)@.unlinked(peer as int));
    }

    /// Take what is to be written, oldest first.
    pub fn take_outgoing(&mut self) -> (list: Vec<PeerSend>)
        ensures
            send_views(list@) == old(self)@.outbox,
            final(self)@ == (ClusterView { outbox: Seq::empty(), ..old(self)@ }),
    {
        let mut list: Vec<PeerSend> = Vec::new();
        std::mem::swap(&mut self.outbox, &mut list);
        assert(self@ =~= (ClusterView { outbox: Seq::empty(), ..old(self)@ }));
        list
    }
}

impl Forwarder for Cluster {
    open spec fn hands_over(self, f: ForwardView, after: Self) -> bool {
        after@ == self@.sent(frame_text(f), None)
    }

    fn forward_local(&mut self, msg: Arc<Message>) {
        self.send_except(msg.encode_feed().as_str(), None);
    }

    fn propagate_registration(&mut self, msg_type: String, reg: TypeReg) {
        self.send_except(encode_rreg(msg_type.as_str(), &reg).as_str(), None);
    }
}

// --- redialing ------------------------------------------------------------------------------

/// The delay before the next attempt to dial a peer: it doubles from a base up to
/// a ceiling, and starts over once a link was up.
pub struct Backoff {
    base: u64,
    max: u64,
    delay: u64,
}

/// The model of a [`Backoff`].
#[verifier::ext_equal]
pub struct BackoffView {
    pub base: u64,
    pub max: u64,
    pub delay: u64,
}

/// The lower of two numbers.
pub open spec fn lower(a: nat, b: nat) -> nat {
    if a <= b {
        a
    } else {
        b
    }
}

impl BackoffView {
    /// The delays start at the base, which the ceiling bounds too.
    pub open spec fn fresh(base: u64, max: u64) -> BackoffView {
        BackoffView { base, max, delay: lower(base as nat, max as nat) as u64 }
    }

    /// The delays once one of them has passed.
    pub open spec fn next(self) -> BackoffView {
        BackoffView { delay: lower(2 * self.delay as nat, self.max as nat) as u64, ..self }
    }

    /// The delays after a number of failed attempts.
    pub open spec fn after(self, n: nat) -> BackoffView
        decreases n,
    {
        if n == 0 {
            self
        } else {
            self.after((n - 1) as nat).next()
        }
    }
}

impl View for Backoff {
    type V = BackoffView;

    closed spec fn view(&self) -> BackoffView {
        BackoffView { base: self.base, max: self.max, delay: self.delay }
    }
}

impl Backoff {
    /// Delays from `base` up to `max`, in milliseconds.
    pub fn new(base: u64, max: u64) -> (b: Self)
        ensures
            b@ == BackoffView::fresh(base, max),
    {
        Backoff {
            base,
            max,
            delay: if base <= max {
                base
            } else {
                max
            },
        }
    }

    /// The delay before the next attempt.
    pub fn next_delay(&mut self) -> (ms: u64)
        ensures
            ms == old(self)@.delay,
            final(self)@ == old(self)@.next(),
    {
        let ms = self.delay;
        self.delay = if ms <= self.max / 2 {
            ms * 2
        } else {
            self.max
        };
        ms
    }

    /// Start over: a link was up.
    pub fn reset(&mut self)
        ensures
            final(self)@ == BackoffView::fresh(old(self)@.base, old(self)@.max),
    {
        self.delay = if self.base <= self.max {
            self.base
        } else {
            self.max
        };
    }
}

// --- the receiving side ------------------------------------------------------------------------

/// What an accepted link expects next.
pub enum LinkPhaseView {
    /// The peer's greeting.
    Greeting,
    /// A `FEED` or `RREG` line.
    Line,
    /// A line of a forwarded message's body.
    Feed { msg_type: Seq<char>, msg_id: Seq<char>, origin: Seq<char>, body: BodyView },
}

/// The model of a [`PeerLink`].
#[verifier::ext_equal]
pub struct LinkView {
    /// The bounds that hold for it.
    pub limits: Limits,
    /// The bytes that arrived and are not handled yet.
    pub rbuf: Seq<u8>,
    /// The daemon at the other end, once it has greeted.
    pub source: Seq<char>,
    /// What it expects next.
    pub phase: LinkPhaseView,
}

/// What the owner of an accepted link does after a step.
#[derive(Debug, Clone, Copy, PartialEq, Eq, Structural)]
pub enum LinkFlow {
    /// Step again: more input may be buffered.
    Continue,
    /// Wait for input.
    Read,
    /// Close the link.
    Close,
}

impl LinkView {
    /// A link on which nothing has arrived.
    pub open spec fn fresh(limits: Limits) -> LinkView {
        LinkView {
            limits,
            rbuf: Seq::empty(),
            source: Seq::empty(),
            phase: LinkPhaseView::Greeting,
        }
    }

    /// What a line leads to: the link, the registry and the cluster after it.
    pub open spec fn handled(self, r: RegistryView, k: ClusterView, line: Seq<char>) -> (
        LinkView,
        RegistryView,
        ClusterView,
        LinkFlow,
    ) {
        match self.phase {
            LinkPhaseView::Greeting => match greeting_id(line) {
                Some(id) => (
                    LinkView { source: id, phase: LinkPhaseView::Line, ..self },
                    r,
                    k,
                    LinkFlow::Continue,
                ),
                None => (self, r, k, LinkFlow::Close),
            },
            _ => match peer_line(line) {
                Some(PeerLineView::Feed { msg_type, msg_id, origin }) => (
                    LinkView {
                        phase: LinkPhaseView::Feed {
                            msg_type,
                            msg_id,
                            origin,
                            body: BodyView::empty(),
                        },
                        ..self
                    },
                    r,
                    k,
                    LinkFlow::Continue,
                ),
                Some(PeerLineView::Rreg { msg_type, reg }) => {
                    let (after, passed) = r.remotely_registered(msg_type, reg);
                    (
                        self,
                        after,
                        match passed {
                            Some(p) => k.sent(
                                frame_text(ForwardView::Registration(msg_type, p)),
                                Some(self.source),
                            ),
                            None => k,
                        },
                        LinkFlow::Continue,
                    )
                },
                None => (self, r, k, LinkFlow::Close),
            },
        }
    }

    /// What a complete message leads to: a new one is fanned out and passed on,
    /// a duplicate or one that is too large is dropped.
    pub open spec fn completed(
        self,
        r: RegistryView,
        k: ClusterView,
        msg: MessageView,
        too_large: bool,
        outs: Seq<SendOutcome>,
    ) -> (LinkView, RegistryView, ClusterView, LinkFlow) {
        let idle = LinkView { phase: LinkPhaseView::Line, ..self };
        let (after, fresh) = r.ingested(msg, outs);
        if too_large {
            (idle, r, k, LinkFlow::Continue)
        } else {
            (
                idle,
                after,
                if fresh {
                    k.sent(frame_text(ForwardView::Message(msg)), Some(self.source))
                } else {
                    k
                },
                LinkFlow::Continue,
            )
        }
    }

    /// One step, with the outcomes of the offers that a new message makes.
    pub open spec fn stepped(self, r: RegistryView, k: ClusterView, outs: Seq<SendOutcome>) -> (
        LinkView,
        RegistryView,
        ClusterView,
        LinkFlow,
    ) {
        match self.phase {
            LinkPhaseView::Feed { msg_type, msg_id, origin, body } => {
                let (more, rest, got) = body.received(self.rbuf, self.limits);
                let left = LinkView {
                    rbuf: rest,
                    phase: LinkPhaseView::Feed { msg_type, msg_id, origin, body: more },
                    ..self
                };
                match got {
                    Received::End => left.completed(
                        r,
                        k,
                        MessageView { msg_type, msg_id, origin, body: more.lines },
                        more.too_large,
                        outs,
                    ),
                    Received::More => (left, r, k, LinkFlow::Continue),
                    Received::Wait => (left, r, k, LinkFlow::Read),
                }
            },
            _ => {
                let (take, rest) = wire::taken(self.rbuf, DEFAULT_MAX_LINE as nat);
                let left = LinkView { rbuf: rest, ..self };
                match take {
                    LineTakeView::Line(line) => left.handled(r, k, text::lossy(line)),
                    LineTakeView::TooLong => (left, r, k, LinkFlow::Close),
                    LineTakeView::Need => (left, r, k, LinkFlow::Read),
                }
            },
        }
    }
}

/// Whether one step can lead from a link, a registry and a cluster to others: it
/// does for some outcomes of the offers to the subscribers, one each.
pub open spec fn link_steps(
    l: LinkView,
    r: RegistryView,
    k: ClusterView,
    l2: LinkView,
    r2: RegistryView,
    k2: ClusterView,
    flow: LinkFlow,
) -> bool {
    exists|outs: Seq<SendOutcome>|
        (l.phase is Feed ==> outs.len() == r.listeners(l.phase->msg_type).len())
            && #[trigger] l.stepped(r, k, outs) == (l2, r2, k2, flow)
}

/// A forwarded message whose body is being received.
struct Feed {
    msg_type: String,
    msg_id: String,
    origin: String,
    body: Body,
}

enum LinkPhase {
    Greeting,
    Line,
    Feed(Feed),
}

impl View for LinkPhase {
    type V = LinkPhaseView;

    closed spec fn view(&self) -> LinkPhaseView {
        match self {
            LinkPhase::Greeting => LinkPhaseView::Greeting,
            LinkPhase::Line => LinkPhaseView::Line,
            LinkPhase::Feed(f) => LinkPhaseView::Feed {
                msg_type: f.msg_type@,
                msg_id: f.msg_id@,
                origin: f.origin@,
                body: f.body@,
            },
        }
    }
}

/// The receiving side of a link that a peer dialed.
pub struct PeerLink {
    limits: Limits,
    rbuf: Vec<u8>,
    source: String,
    phase: LinkPhase,
}

impl View for PeerLink {
    type V = LinkView;

    closed spec fn view(&self) -> LinkView {
        LinkView {
            limits: self.limits,
            rbuf: self.rbuf@,
            source: self.source@,
            phase: self.phase@,
        }
    }
}

impl PeerLink {
    /// A link that was just accepted.
    pub fn new(limits: Limits) -> (l: Self)
        ensures
            l@ == LinkView::fresh(limits),
    {
        let l = PeerLink {
            limits,
            rbuf: Vec::new(),
            source: String::new(),
            phase: LinkPhase::Greeting,
        };
        assert(l@ =~= LinkView::fresh(limits));
        l
    }

    /// The daemon at the other end, once it has greeted.
    pub fn source(&self) -> (id: &str)
        ensures
            id@ == self@.source,
    {
        self.source.as_str()
    }

    /// Take in bytes that arrived.
    pub fn feed(&mut self, bytes: &[u8])
        ensures
            final(self)@ == (LinkView { rbuf: old(self)@.rbuf + bytes@, ..old(self)@ }),
    {
        self.rbuf.extend_from_slice(bytes);
        assert(self@ =~= (LinkView { rbuf: old(self)@.rbuf + bytes@, ..old(self)@ }));
    }

    fn handle_line(&mut self, registry: &mut Registry, cluster: &mut Cluster, line: &str) -> (flow:
        LinkFlow)
        requires
            old(registry).wf(),
            !(old(self)@.phase is Feed),
        ensures
            final(registry).wf(),
            old(self)@.handled(old(registry)@, old(cluster)@, line@) == (
                final(self)@,
                final(registry)@,
                final(cluster)@,
                flow,
            ),
    {
        if let LinkPhase::Greeting = self.phase {
            return match parse_peer_greeting(line) {
                Some(id) => {
                    self.source = id;
                    self.phase = LinkPhase::Line;
                    LinkFlow::Continue
                },
                None => LinkFlow::Close,
            };
        }
        match parse_peer_line(line) {
            Some(PeerLine::Feed { msg_type, msg_id, origin }) => {
                self.phase = LinkPhase::Feed(Feed { msg_type, msg_id, origin, body: Body::new() });
                LinkFlow::Continue
            },
            Some(PeerLine::Rreg { msg_type, reg }) => {
                if let Some(p) = registry.apply_remote_registration(msg_type.as_str(), reg) {
                    let text = encode_rreg(msg_type.as_str(), &p);
                    cluster.send_except(text.as_str(), Some(self.source.as_str()));
                }
                LinkFlow::Continue
            },
            None => LinkFlow::Close,
        }
    }

    fn step_feed(&mut self, registry: &mut Registry, cluster: &mut Cluster, feed: Feed) -> (r: (
        LinkFlow,
        Ghost<Seq<SendOutcome>>,
    ))
        requires
            old(registry).wf(),
        ensures
            final(registry).wf(),
            r.1@.len() == old(registry)@.listeners(feed.msg_type@).len(),
            (LinkView { phase: LinkPhase::Feed(feed)@, ..old(self)@ }).stepped(
                old(registry)@,
                old(cluster)@,
                r.1@,
            ) == (final(self)@, final(registry)@, final(cluster)@, r.0),
    {
        let ghost none = Seq::new(
            registry@.listeners(feed.msg_type@).len(),
            |i: int| SendOutcome::Sent,
        );
        let mut feed = feed;
        match feed.body.receive(&mut self.rbuf, &self.limits) {
            Received::End => {
                self.phase = LinkPhase::Line;
                let lines = match feed.body.into_lines() {
                    Some(lines) => lines,
                    None => return (LinkFlow::Continue, Ghost(none)),
                };
                let msg = Arc::new(
                    Message::new(
                        feed.msg_type.as_str(),
                        feed.msg_id.as_str(),
                        feed.origin.as_str(),
                        lines,
                    ),
                );
                let ghost before = registry@;
                if registry.ingest_remote(&msg) {
                    let ghost outs = choose|outs: Seq<SendOutcome>|
                        outs.len() == before.listeners(msg@.msg_type).len()
                            && #[trigger] before.ingested(msg@, outs) == (registry@, true);
                    cluster.send_except(
                        msg.encode_feed().as_str(),
                        Some(self.source.as_str()),
                    );
                    (LinkFlow::Continue, Ghost(outs))
                } else {
                    assert(before.ingested(msg@, none) == (registry@, false));
                    (LinkFlow::Continue, Ghost(none))
                }
            },
            Received::More => {
                self.phase = LinkPhase::Feed(feed);
                (LinkFlow::Continue, Ghost(none))
            },
            Received::Wait => {
                self.phase = LinkPhase::Feed(feed);
                (LinkFlow::Read, Ghost(none))
            },
        }
    }

    /// Take one line off the read buffer and act on it, or find that there is
    /// none. What is to be passed on to other peers is queued in the cluster.
    pub fn step(&mut self, registry: &mut Registry, cluster: &mut Cluster) -> (flow: LinkFlow)
        requires
            old(registry).wf(),
        ensures
            final(registry).wf(),
            link_steps(
                old(self)@,
                old(registry)@,
                old(cluster)@,
                final(self)@,
                final(registry)@,
                final(cluster)@,
                flow,
            ),
    {
        let mut phase = LinkPhase::Line;
        std::mem::swap(&mut self.phase, &mut phase);
        match phase {
            LinkPhase::Feed(feed) => {
                assert((LinkView { phase: LinkPhase::Feed(feed)@, ..self@ }) == old(self)@);
                let (flow, Ghost(outs)) = self.step_feed(registry, cluster, feed);
                assert(old(self)@.stepped(old(registry)@, old(cluster)@, outs) == (
                    self@,
                    registry@,
                    cluster@,
                    flow,
                ));
                flow
            },
            other => {
                self.phase = other;
                assert(self@ == old(self)@);
                let flow = match wire::take_line(&mut self.rbuf, DEFAULT_MAX_LINE) {
                    LineTake::Line(line) => {
                        let text = text::utf8_lossy(line.as_slice());
                        self.handle_line(registry, cluster, text.as_str())
                    },
                    LineTake::TooLong => LinkFlow::Close,
                    LineTake::Need => LinkFlow::Read,
                };
                assert(old(self)@.stepped(old(registry)@, old(cluster)@, Seq::empty()) == (
                    self@,
                    registry@,
                    cluster@,
                    flow,
                ));
                flow
            },
        }
    }
}

} // verus!
