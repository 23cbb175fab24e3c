//! What holds between the daemons of a cluster.
use vstd::arithmetic::power::pow;
use vstd::prelude::*;
use vstd::utf8::*;

use crate::body;
use crate::body::BodyView;
use crate::client::DEFAULT_MAX_LINE;
use crate::conn::ConnView;
use crate::conn::ForwardView;
use crate::exchange_laws;
use crate::federation;
use crate::federation::BackoffView;
use crate::federation::ClusterView;
use crate::federation::LinkFlow;
use crate::federation::LinkPhaseView;
use crate::federation::LinkView;
use crate::federation::PeerLineView;
use crate::federation::PeerSendView;
use crate::federation::PeerView;
use crate::frame;
use crate::message::MessageView;
use crate::number;
use crate::protocol_laws;
use crate::queue::SendOutcome;
use crate::registry::RegistryView;
use crate::registry::TypeRegView;
use crate::registry_laws;
use crate::reply;
use crate::session_laws;
use crate::status;
use crate::table;
use crate::text;
use crate::validate;
use crate::wire;

verus! {

broadcast use vstd::string::group_string_axioms;

// --- frames -------------------------------------------------------------------------

/// A peer reads the header of a forwarded message.
pub proof fn feed_header_round_trip(m: MessageView)
    requires
        validate::valid_type(m.msg_type),
        protocol_laws::is_word(m.msg_id),
        protocol_laws::is_word(m.origin),
    ensures
        federation::peer_line(m.feed_header()) == Some(
            PeerLineView::Feed { msg_type: m.msg_type, msg_id: m.msg_id, origin: m.origin },
        ),
        !m.feed_header().contains('\n'),
{
    reveal_strlit("FEED");
    protocol_laws::lemma_type_is_word(m.msg_type);
    protocol_laws::lemma_header_pieces("FEED"@, m);
    let p = text::split(m.feed_header(), ' ');
    assert(p[0] == "FEED"@ && p[1] == m.msg_type && p[2] == m.msg_id && p[3] == m.origin);
}

/// A peer reads the registration that was propagated.
pub proof fn rreg_round_trip(msg_type: Seq<char>, reg: TypeRegView)
    requires
        validate::valid_type(msg_type),
        validate::valid_key(reg.key),
        protocol_laws::is_word(reg.origin_daemon),
    ensures
        federation::peer_line(federation::rreg_line(msg_type, reg)) == Some(
            PeerLineView::Rreg { msg_type, reg },
        ),
        !federation::rreg_line(msg_type, reg).contains('\n'),
{
    reveal_strlit("RREG");
    reveal_strlit("RREG ");
    reveal_strlit("FEED");
    protocol_laws::lemma_space();
    protocol_laws::lemma_type_is_word(msg_type);
    protocol_laws::lemma_key_is_word(reg.key);
    let sp = seq![' '];
    let ts = number::decimal(reg.ts as nat);
    number::lemma_decimal(reg.ts as nat);
    number::decimal_round_trip(reg.ts as nat, u64::MAX as nat);
    assert(!ts.contains(' ') && !ts.contains('\n')) by {
        assert(forall|i: int| 0 <= i < ts.len() ==> number::is_digit(#[trigger] ts[i]));
    }
    let c = reg.origin_daemon + sp + ts;
    let b = reg.key + sp + c;
    let a = msg_type + sp + b;
    let line = federation::rreg_line(msg_type, reg);
    assert(line =~= "RREG"@ + sp + a) by {
        assert("RREG "@ =~= "RREG"@ + sp);
    }
    protocol_laws::lemma_split_none(ts, ' ');
    protocol_laws::lemma_split_first(reg.origin_daemon, ' ', ts);
    protocol_laws::lemma_split_first(reg.key, ' ', c);
    protocol_laws::lemma_split_first(msg_type, ' ', b);
    protocol_laws::lemma_split_first("RREG"@, ' ', a);
    let p = text::split(line, ' ');
    assert(p =~= seq!["RREG"@, msg_type, reg.key, reg.origin_daemon, ts]);
    assert(!sp.contains('\n'));
    protocol_laws::lemma_contains_concat(reg.origin_daemon, sp, '\n');
    protocol_laws::lemma_contains_concat(reg.origin_daemon + sp, ts, '\n');
    protocol_laws::lemma_contains_concat(reg.key, sp, '\n');
    protocol_laws::lemma_contains_concat(reg.key + sp, c, '\n');
    protocol_laws::lemma_contains_concat(msg_type, sp, '\n');
    protocol_laws::lemma_contains_concat(msg_type + sp, b, '\n');
    protocol_laws::lemma_contains_concat("RREG"@, sp, '\n');
    protocol_laws::lemma_contains_concat("RREG"@ + sp, a, '\n');
    assert(p[0] == "RREG"@ && p[1] == msg_type && p[2] == reg.key && p[3] == reg.origin_daemon
        && p[4] == ts);
}

/// A daemon learns who dialed it from the greeting.
pub proof fn peer_greeting_round_trip(daemon_id: Seq<char>)
    requires
        protocol_laws::is_word(daemon_id),
    ensures
        federation::greeting_id(crate::greeting_text(daemon_id, "macro-bus-peer"@)) == Some(
            daemon_id,
        ),
{
    reveal_strlit("macro-bus-peer");
    reveal_strlit("MBP/1.0");
    reveal_strlit("ready");
    reveal_strlit(" ready");
    protocol_laws::lemma_space();
    let sp = seq![' '];
    let c = "ready"@;
    let b = crate::PROTOCOL_ID@ + sp + c;
    let a = "macro-bus-peer"@ + sp + b;
    let words = daemon_id + sp + a;
    assert(" ready"@ =~= sp + c);
    assert(crate::greeting_text(daemon_id, "macro-bus-peer"@) =~= reply::status_text(
        status::SERVICE_READY,
        words,
    ));
    protocol_laws::status_line_round_trip(status::SERVICE_READY, words);
    protocol_laws::lemma_split_none(c, ' ');
    protocol_laws::lemma_split_first(crate::PROTOCOL_ID@, ' ', c);
    protocol_laws::lemma_split_first("macro-bus-peer"@, ' ', b);
    protocol_laws::lemma_split_first(daemon_id, ' ', a);
    let p = text::split(words, ' ');
    assert(p =~= seq![daemon_id, "macro-bus-peer"@, crate::PROTOCOL_ID@, c]);
}

// --- flooding -----------------------------------------------------------------------

/// Nothing goes back to where it came from, and nothing to a peer that is down:
/// every frame is for another peer whose link is up, and carries the text.
pub proof fn frames_avoid_the_source(
    peers: Seq<PeerView>,
    text: Seq<char>,
    source: Option<Seq<char>>,
    i: int,
)
    requires
        0 <= i < federation::frames_for(peers, text, source).len(),
    ensures
        ({
            let frame = federation::frames_for(peers, text, source)[i];
            &&& frame.peer < peers.len()
            &&& peers[frame.peer as int].up
            &&& source != Some(peers[frame.peer as int].id)
            &&& frame.text == text
        }),
    decreases peers.len(),
{
    let before = federation::frames_for(peers.drop_last(), text, source);
    if i < before.len() {
        frames_avoid_the_source(peers.drop_last(), text, source, i);
    }
}

/// Every other peer whose link is up gets the text, once.
pub proof fn frames_reach_the_others(
    peers: Seq<PeerView>,
    text: Seq<char>,
    source: Option<Seq<char>>,
    n: int,
)
    requires
        0 <= n < peers.len(),
        peers[n].up,
        source != Some(peers[n].id),
    ensures
        exists|i: int|
            0 <= i < federation::frames_for(peers, text, source).len()
                && #[trigger] federation::frames_for(peers, text, source)[i] == (PeerSendView {
                peer: n as nat,
                text,
            }),
        forall|i: int, j: int|
            0 <= i < j < federation::frames_for(peers, text, source).len() ==> (
            #[trigger] federation::frames_for(peers, text, source)[i]).peer < (
            #[trigger] federation::frames_for(peers, text, source)[j]).peer,
    decreases peers.len(),
{
    let all = federation::frames_for(peers, text, source);
    let head = peers.drop_last();
    let before = federation::frames_for(head, text, source);
    lemma_frames_ascend(peers, text, source);
    if n == peers.len() - 1 {
        assert(all[all.len() - 1] == (PeerSendView { peer: n as nat, text }));
    } else {
        frames_reach_the_others(head, text, source, n);
        let i = choose|i: int|
            0 <= i < before.len() && #[trigger] before[i] == (PeerSendView {
                peer: n as nat,
                text,
            });
        assert(all[i] == before[i]);
    }
}

pub proof fn lemma_frames_ascend(peers: Seq<PeerView>, text: Seq<char>, source: Option<Seq<char>>)
    ensures
        ({
            let all = federation::frames_for(peers, text, source);
            &&& forall|i: int| 0 <= i < all.len() ==> (#[trigger] all[i]).peer < peers.len()
            &&& forall|i: int, j: int|
                0 <= i < j < all.len() ==> (#[trigger] all[i]).peer < (#[trigger] all[j]).peer
        }),
    decreases peers.len(),
{
    if peers.len() > 0 {
        lemma_frames_ascend(peers.drop_last(), text, source);
        let all = federation::frames_for(peers, text, source);
        let before = federation::frames_for(peers.drop_last(), text, source);
        assert forall|i: int, j: int| 0 <= i < j < all.len() implies (#[trigger] all[i]).peer < (
        #[trigger] all[j]).peer by {
            assert(all[i] == before[i]);
            if j < before.len() {
                assert(all[j] == before[j]);
            }
        }
        assert forall|i: int| 0 <= i < all.len() implies (#[trigger] all[i]).peer
            < peers.len() by {
            if i < before.len() {
                assert(all[i] == before[i]);
            }
        }
    }
}

/// A duplicate stops here: it changes nothing and is passed on to nobody.
pub proof fn duplicate_is_not_passed_on(
    l: LinkView,
    r: RegistryView,
    k: ClusterView,
    msg: MessageView,
    outs: Seq<SendOutcome>,
)
    requires
        r.seen.has(msg.msg_id),
    ensures
        ({
            let (l2, r2, k2, flow) = l.completed(r, k, msg, false, outs);
            r2 == r && k2 == k && flow == LinkFlow::Continue
        }),
{
}

// --- from one daemon to the next -------------------------------------------------------

/// A number of steps of a link, one after the other.
pub open spec fn link_run(
    l: LinkView,
    r: RegistryView,
    k: ClusterView,
    outs: Seq<SendOutcome>,
    n: nat,
) -> (LinkView, RegistryView, ClusterView)
    decreases n,
{
    if n == 0 {
        (l, r, k)
    } else {
        let (l1, r1, k1, _) = l.stepped(r, k, outs);
        link_run(l1, r1, k1, outs, (n - 1) as nat)
    }
}

proof fn lemma_link_body(
    l: LinkView,
    r: RegistryView,
    k: ClusterView,
    m: MessageView,
    b: BodyView,
    lines: Seq<Seq<char>>,
    rest: Seq<char>,
    outs: Seq<SendOutcome>,
)
    requires
        l.phase == (LinkPhaseView::Feed {
            msg_type: m.msg_type,
            msg_id: m.msg_id,
            origin: m.origin,
            body: b,
        }),
        !b.skipping,
        l.limits.max_body_line_bytes >= 1,
        l.rbuf == encode_utf8(frame::block(lines) + rest),
        body::single_lines(lines),
        !body::collected(b, lines, l.limits).skipping,
    ensures
        ({
            let all = body::collected(b, lines, l.limits);
            let msg = MessageView { body: all.lines, ..m };
            let done = (LinkView { rbuf: encode_utf8(rest), ..l }).completed(
                r,
                k,
                msg,
                all.too_large,
                outs,
            );
            link_run(l, r, k, outs, lines.len() + 1) == (done.0, done.1, done.2)
        }),
    decreases lines.len(),
{
    if lines.len() == 0 {
        assert(frame::block(lines) + rest =~= frame::TERMINATOR@ + frame::CRLF@ + rest);
        body::terminator_is_received(b, rest, l.limits);
        let (l1, r1, k1, _) = l.stepped(r, k, outs);
        assert(link_run(l1, r1, k1, outs, 0) == (l1, r1, k1));
    } else {
        let tail = lines.drop_first();
        let first = frame::stuffed(lines[0]);
        let more = frame::block(tail) + rest;
        frame::lemma_stuffed_lines(lines);
        assert(frame::block(lines) + rest =~= first + frame::CRLF@ + more);
        body::body_line_is_received(b, lines[0], more, l.limits);
        body::lemma_collected_first(b, lines, l.limits);
        let b1 = body::collected(b, seq![lines[0]], l.limits);
        let l1 = LinkView {
            rbuf: encode_utf8(more),
            phase: LinkPhaseView::Feed {
                msg_type: m.msg_type,
                msg_id: m.msg_id,
                origin: m.origin,
                body: b1,
            },
            ..l
        };
        assert(l.stepped(r, k, outs) == (l1, r, k, LinkFlow::Continue));
        assert forall|i: int| 0 <= i < tail.len() implies !frame::stuffed(
            #[trigger] tail[i],
        ).contains('\n') by {
            assert(tail[i] == lines[i + 1]);
        }
        lemma_link_body(l1, r, k, m, b1, tail, rest, outs);
        assert(tail.len() + 1 == lines.len());
    }
}

/// What one daemon forwards is what the next one takes in: from the bytes of a
/// FEED frame, within the limits, the receiver takes in the same message, type,
/// id, origin and body, and passes it on to its peers but the sender.
pub proof fn fed_message_is_taken_in(
    l: LinkView,
    r: RegistryView,
    k: ClusterView,
    m: MessageView,
    rest: Seq<char>,
    outs: Seq<SendOutcome>,
)
    requires
        l.phase is Line,
        validate::valid_type(m.msg_type),
        protocol_laws::is_word(m.msg_id),
        protocol_laws::is_word(m.origin),
        encode_utf8(m.feed_header()).len() <= DEFAULT_MAX_LINE,
        l.limits.max_body_line_bytes >= 1,
        body::single_lines(m.body),
        body::within(m.body, l.limits),
        l.rbuf == encode_utf8(federation::frame_text(ForwardView::Message(m)) + rest),
    ensures
        link_run(l, r, k, outs, m.body.len() + 2) == (
            LinkView { rbuf: encode_utf8(rest), ..l },
            r.ingested(m, outs).0,
            if r.ingested(m, outs).1 {
                k.sent(federation::frame_text(ForwardView::Message(m)), Some(l.source))
            } else {
                k
            },
        ),
{
    feed_header_round_trip(m);
    let more = frame::block(m.body) + rest;
    assert(m.feed() + rest =~= m.feed_header() + frame::CRLF@ + more);
    wire::sent_line_is_first_line(m.feed_header(), more);
    let l1 = LinkView {
        rbuf: encode_utf8(more),
        phase: LinkPhaseView::Feed {
            msg_type: m.msg_type,
            msg_id: m.msg_id,
            origin: m.origin,
            body: BodyView::empty(),
        },
        ..l
    };
    assert(l.stepped(r, k, outs) == (l1, r, k, LinkFlow::Continue));
    body::too_large_is_over_a_limit(BodyView::empty(), m.body, l.limits);
    assert(BodyView::empty().lines + m.body =~= m.body);
    lemma_link_body(l1, r, k, m, BodyView::empty(), m.body, rest, outs);
    let all = body::collected(BodyView::empty(), m.body, l.limits);
    assert((MessageView { body: all.lines, ..m }) == m);
    assert((m.body.len() + 2 - 1) as nat == m.body.len() + 1);
}

/// A registration that one daemon propagates is the one that the next applies,
/// and it is passed on, but to the sender, where it changed something.
pub proof fn propagated_registration_is_applied(
    l: LinkView,
    r: RegistryView,
    k: ClusterView,
    msg_type: Seq<char>,
    reg: TypeRegView,
    rest: Seq<char>,
    outs: Seq<SendOutcome>,
)
    requires
        l.phase is Line,
        validate::valid_type(msg_type),
        validate::valid_key(reg.key),
        protocol_laws::is_word(reg.origin_daemon),
        encode_utf8(federation::rreg_line(msg_type, reg)).len() <= DEFAULT_MAX_LINE,
        l.rbuf == encode_utf8(
            federation::frame_text(ForwardView::Registration(msg_type, reg)) + rest,
        ),
    ensures
        l.stepped(r, k, outs) == (
            LinkView { rbuf: encode_utf8(rest), ..l },
            r.remotely_registered(msg_type, reg).0,
            if r.remotely_registered(msg_type, reg).1 is Some {
                k.sent(
                    federation::frame_text(ForwardView::Registration(msg_type, reg)),
                    Some(l.source),
                )
            } else {
                k
            },
            LinkFlow::Continue,
        ),
{
    rreg_round_trip(msg_type, reg);
    wire::sent_line_is_first_line(federation::rreg_line(msg_type, reg), rest);
}

// --- reconciliation --------------------------------------------------------------------

/// A registry after a list of registrations was learned.
pub open spec fn reconciled(r: RegistryView, list: Seq<(Seq<char>, TypeRegView)>) -> RegistryView
    decreases list.len(),
{
    if list.len() == 0 {
        r
    } else {
        reconciled(r, list.drop_last()).remotely_registered(list.last().0, list.last().1).0
    }
}

/// A peer that gets a daemon's snapshot knows every type of that daemon, and
/// holds no record that would lose against the daemon's.
pub proof fn snapshot_reconciles(
    sender: RegistryView,
    receiver: RegistryView,
    list: Seq<(Seq<char>, TypeRegView)>,
    msg_type: Seq<char>,
)
    requires
        table::lists(list, sender.types),
        sender.types.contains_key(msg_type),
    ensures
        ({
            let after = reconciled(receiver, list);
            &&& after.types.contains_key(msg_type)
            &&& !sender.types[msg_type].before(after.types[msg_type])
        }),
{
    let i = choose|i: int| 0 <= i < list.len() && #[trigger] list[i].0 == msg_type;
    assert(sender.types[msg_type] == list[i].1);
    lemma_reconciled(receiver, list, i);
}

proof fn lemma_reconciled(r: RegistryView, list: Seq<(Seq<char>, TypeRegView)>, i: int)
    requires
        0 <= i < list.len(),
    ensures
        ({
            let after = reconciled(r, list);
            &&& after.types.contains_key(list[i].0)
            &&& !list[i].1.before(after.types[list[i].0])
        }),
    decreases list.len(),
{
    let head = list.drop_last();
    let last = list.last();
    let prior = reconciled(r, head);
    registry_laws::lemma_before_irreflexive(last.1);
    if i < head.len() {
        lemma_reconciled(r, head, i);
        assert(head[i] == list[i]);
        if last.0 == list[i].0 {
            let old = prior.types[last.0];
            if last.1.before(old) && list[i].1.before(last.1) {
                registry_laws::lemma_before_transitive(list[i].1, last.1, old);
            }
        }
    }
}

// --- names --------------------------------------------------------------------------

/// Whether the message that a link is in the middle of, if it is, has a valid
/// type.
pub open spec fn well_fed(l: LinkView) -> bool {
    l.phase matches LinkPhaseView::Feed { msg_type, .. } ==> validate::valid_type(msg_type)
}

/// Every step of a peer link keeps the names that a daemon holds valid.
pub proof fn link_steps_keep_names_valid(
    l: LinkView,
    r: RegistryView,
    k: ClusterView,
    outs: Seq<SendOutcome>,
)
    requires
        exchange_laws::well_named(r),
        well_fed(l),
    ensures
        ({
            let (l2, r2, _, _) = l.stepped(r, k, outs);
            well_fed(l2) && exchange_laws::well_named(r2)
        }),
{
    if let LinkPhaseView::Feed { msg_type, msg_id, origin, body } = l.phase {
        let (more, _, _) = body.received(l.rbuf, l.limits);
        let msg = MessageView { msg_type, msg_id, origin, body: more.lines };
        let noted = RegistryView { seen: r.seen.with(msg_id), ..r };
        exchange_laws::lemma_fanned_well_named(noted, msg, outs);
    }
}

/// No step of a peer link diverts the subscriptions of a connection.
pub proof fn link_steps_keep_reach(
    l: LinkView,
    r: RegistryView,
    k: ClusterView,
    outs: Seq<SendOutcome>,
    c: ConnView,
)
    requires
        session_laws::reached(c, r),
    ensures
        session_laws::reached(c, l.stepped(r, k, outs).1),
{
    if let LinkPhaseView::Feed { msg_type, msg_id, origin, body } = l.phase {
        let (more, _, _) = body.received(l.rbuf, l.limits);
        let msg = MessageView { msg_type, msg_id, origin, body: more.lines };
        let noted = RegistryView { seen: r.seen.with(msg_id), ..r };
        assert forall|t: Seq<char>| session_laws::leads(
            #[trigger] noted.listeners(t),
            c.id,
            c.path,
        ) by {
            assert(noted.listeners(t) == r.listeners(t));
        }
        session_laws::lemma_fanned_leads(noted, msg, outs, c.id, c.path);
    } else {
        let after = l.stepped(r, k, outs).1;
        assert forall|t: Seq<char>| session_laws::leads(
            #[trigger] after.listeners(t),
            c.id,
            c.path,
        ) by {
            assert(after.listeners(t) == r.listeners(t));
        }
    }
}

// --- input in pieces -------------------------------------------------------------------

/// The link once more input has come.
pub open spec fn with_input(l: LinkView, more: Seq<u8>) -> LinkView {
    LinkView { rbuf: l.rbuf + more, ..l }
}

/// A peer link does not depend on how its input was split: a step that goes on is
/// the same whatever follows, one that closes the link closes it whatever follows,
/// and after one that needs more input the link goes on as if all of it had been
/// there at once.
pub proof fn link_does_not_depend_on_pieces(
    l: LinkView,
    r: RegistryView,
    k: ClusterView,
    outs: Seq<SendOutcome>,
    more: Seq<u8>,
)
    ensures
        ({
            let (l1, r1, k1, flow) = l.stepped(r, k, outs);
            let (l2, r2, k2, flow2) = with_input(l, more).stepped(r, k, outs);
            match flow {
                LinkFlow::Continue => (l2, r2, k2, flow2) == (with_input(l1, more), r1, k1, flow),
                LinkFlow::Close => r2 == r1 && k2 == k1 && flow2 == flow,
                LinkFlow::Read => (l2, r2, k2, flow2) == with_input(l1, more).stepped(
                    r1,
                    k1,
                    outs,
                ),
            }
        }),
{
    let whole = with_input(l, more);
    match l.phase {
        LinkPhaseView::Feed { msg_type, msg_id, origin, body } => {
            body::body_line_does_not_depend_on_pieces(body, l.rbuf, more, l.limits);
        },
        _ => {
            let max = DEFAULT_MAX_LINE as nat;
            wire::lines_do_not_depend_on_pieces(l.rbuf, more, max);
            wire::lemma_find_lf(l.rbuf);
            let (take, rest) = wire::taken(l.rbuf, max);
            if let wire::LineTakeView::Line(line) = take {
                let left = LinkView { rbuf: rest, ..l };
                assert(LinkView { rbuf: rest + more, ..whole } == with_input(left, more));
            }
        },
    }
}

// --- redialing -------------------------------------------------------------------------

/// After a number of failed attempts the delay is the base doubled as often,
/// bounded by the ceiling.
pub proof fn delays_double_up_to_the_ceiling(base: u64, max: u64, n: nat)
    ensures
        BackoffView::fresh(base, max).after(n).delay == federation::lower(
            (base * pow(2, n)) as nat,
            max as nat,
        ),
        BackoffView::fresh(base, max).after(n).max == max,
        BackoffView::fresh(base, max).after(n).base == base,
    decreases n,
{
    vstd::arithmetic::power::lemma_pow_positive(2, n);
    assert(base * pow(2, n) >= 0) by (nonlinear_arith)
        requires
            base >= 0,
            pow(2, n) > 0,
    ;
    if n == 0 {
        vstd::arithmetic::power::lemma_pow0(2);
        assert(base * 1 == base);
    } else {
        let m = (n - 1) as nat;
        delays_double_up_to_the_ceiling(base, max, m);
        reveal(pow);
        let p = pow(2, m);
        assert(pow(2, n) == 2 * p);
        vstd::arithmetic::power::lemma_pow_positive(2, m);
        assert(base * (2 * p) == 2 * (base * p)) by (nonlinear_arith);
        assert(base * p >= 0) by (nonlinear_arith)
            requires
                base >= 0,
                p > 0,
        ;
    }
}

} // verus!
