//! What goes to the peers, and what comes of what they send.
use vstd::prelude::*;

use crate::body::Received;
use crate::client;
use crate::config::Limits;
use crate::conn::ForwardView;
use crate::conn::Forwarder;
use crate::delivery_laws;
use crate::federation;
use crate::federation::BackoffView;
use crate::federation::Cluster;
use crate::federation::ClusterView;
use crate::federation::LinkFlow;
use crate::federation::LinkView;
use crate::federation::PeerLineView;
use crate::federation::PeerSendView;
use crate::federation_laws;
use crate::frame;
use crate::message::MessageView;
use crate::number;
use crate::ownership_laws;
use crate::protocol_laws;
use crate::queue::SendOutcome;
use crate::registry;
use crate::registry::RegistryView;
use crate::registry::TypeRegView;
use crate::table;
use crate::text;
use crate::validate;
use crate::wire;

verus! {

broadcast use vstd::string::group_string_axioms;

// --- what goes to the peers -----------------------------------------------------------------

/// Whether a text was queued once for each peer whose link is up, but for one, behind
/// what was queued before, and nothing else happened.
pub open spec fn handed_to(
    k: ClusterView,
    after: ClusterView,
    text: Seq<char>,
    but: Option<Seq<char>>,
) -> bool {
    let n = k.outbox.len() as int;
    &&& after.peers == k.peers
    &&& after.outbox.len() >= n
    &&& forall|i: int| 0 <= i < n ==> after.outbox[i] == #[trigger] k.outbox[i]
    &&& forall|i: int|
        n <= i < after.outbox.len() ==> {
            let s = #[trigger] after.outbox[i];
            &&& s.text == text
            &&& s.peer < k.peers.len()
            &&& k.peers[s.peer as int].up
            &&& but != Some(k.peers[s.peer as int].id)
        }
    &&& forall|p: int|
        0 <= p < k.peers.len() && (#[trigger] k.peers[p]).up && but != Some(k.peers[p].id)
            ==> exists|i: int|
            n <= i < after.outbox.len() && (#[trigger] after.outbox[i]).peer == p
    &&& forall|i: int, j: int|
        n <= i < j < after.outbox.len() ==> (#[trigger] after.outbox[i]).peer < (
        #[trigger] after.outbox[j]).peer
}

/// A text that is sent is queued once for every peer whose link is up, but for the one
/// it came from.
pub proof fn sent_text_reaches_the_others(
    k: ClusterView,
    text: Seq<char>,
    source: Option<Seq<char>>,
)
    ensures
        handed_to(k, k.sent(text, source), text, source),
{
    let frames = federation::frames_for(k.peers, text, source);
    let after = k.sent(text, source);
    let n = k.outbox.len() as int;
    federation_laws::lemma_frames_ascend(k.peers, text, source);
    assert forall|i: int| n <= i < after.outbox.len() implies {
        let s = #[trigger] after.outbox[i];
        &&& s.text == text
        &&& s.peer < k.peers.len()
        &&& k.peers[s.peer as int].up
        &&& source != Some(k.peers[s.peer as int].id)
    } by {
        assert(after.outbox[i] == frames[i - n]);
        federation_laws::frames_avoid_the_source(k.peers, text, source, i - n);
    }
    assert forall|p: int|
        0 <= p < k.peers.len() && (#[trigger] k.peers[p]).up && source != Some(
            k.peers[p].id,
        ) implies exists|i: int|
        n <= i < after.outbox.len() && (#[trigger] after.outbox[i]).peer == p by {
        federation_laws::frames_reach_the_others(k.peers, text, source, p);
        let i = choose|i: int|
            0 <= i < frames.len() && #[trigger] frames[i] == (PeerSendView {
                peer: p as nat,
                text,
            });
        assert(after.outbox[n + i] == frames[i]);
    }
    assert forall|i: int, j: int| n <= i < j < after.outbox.len() implies (
    #[trigger] after.outbox[i]).peer < (#[trigger] after.outbox[j]).peer by {
        assert(after.outbox[i] == frames[i - n]);
        assert(after.outbox[j] == frames[j - n]);
    }
}

/// The frame for a message is `FEED` with its type, id and origin, and its body; the
/// frame for a registration is `RREG` with its type, key, origin and time.
pub proof fn frames_on_the_wire(m: MessageView, msg_type: Seq<char>, reg: TypeRegView)
    ensures
        federation::frame_text(ForwardView::Message(m)) == "FEED "@ + m.msg_type + " "@ + m.msg_id
            + " "@ + m.origin + "\r\n"@ + frame::block(m.body),
        federation::frame_text(ForwardView::Registration(msg_type, reg)) == "RREG "@ + msg_type
            + " "@ + reg.key + " "@ + reg.origin_daemon + " "@ + number::decimal(reg.ts as nat)
            + "\r\n"@,
{
    reveal_strlit("FEED ");
    reveal_strlit("FEED");
    reveal_strlit(" ");
    assert("FEED "@ =~= "FEED"@ + " "@);
    assert(federation::frame_text(ForwardView::Message(m)) =~= "FEED "@ + m.msg_type + " "@
        + m.msg_id + " "@ + m.origin + "\r\n"@ + frame::block(m.body));
}

/// What happens here goes to every peer whose link is up: a message as its `FEED`
/// frame, a registration as its `RREG` frame.
pub proof fn local_happenings_reach_the_peers(c: Cluster, f: ForwardView, after: Cluster)
    requires
        c.hands_over(f, after),
    ensures
        f matches ForwardView::Message(m) ==> handed_to(
            c@,
            after@,
            "FEED "@ + m.msg_type + " "@ + m.msg_id + " "@ + m.origin + "\r\n"@ + frame::block(
                m.body,
            ),
            None,
        ),
        f matches ForwardView::Registration(t, reg) ==> handed_to(
            c@,
            after@,
            "RREG "@ + t + " "@ + reg.key + " "@ + reg.origin_daemon + " "@ + number::decimal(
                reg.ts as nat,
            ) + "\r\n"@,
            None,
        ),
{
    match f {
        ForwardView::Message(m) => {
            frames_on_the_wire(m, m.msg_type, TypeRegView {
                key: m.msg_type,
                origin_daemon: m.origin,
                ts: 0,
            });
        },
        ForwardView::Registration(t, reg) => {
            frames_on_the_wire(
                MessageView { msg_type: t, msg_id: t, origin: t, body: Seq::empty() },
                t,
                reg,
            );
        },
    }
    sent_text_reaches_the_others(c@, federation::frame_text(f), None);
}

/// There is a snapshot of finitely many records.
proof fn lemma_snapshot_lists(r: RegistryView)
    requires
        r.types.dom().finite(),
    ensures
        table::lists(federation::snapshot(r), r.types),
{
    let names = table::lemma_listable(r.types.dom());
    let list = Seq::new(names.len(), |i: int| (names[i], r.types[names[i]]));
    assert(table::names_of(list) =~= names);
    assert forall|i: int| 0 <= i < list.len() implies r.types.contains_key(#[trigger] list[i].0)
        && r.types[list[i].0] == list[i].1 by {
        assert(names.contains(names[i]));
        assert(r.types.dom().contains(names[i]));
    }
    assert forall|k: Seq<char>| #[trigger] r.types.contains_key(k) implies exists|i: int|
        0 <= i < list.len() && #[trigger] list[i].0 == k by {
        assert(r.types.dom().contains(k));
        let i = choose|i: int| 0 <= i < names.len() && names[i] == k;
        assert(list[i].0 == k);
    }
    assert(table::lists(list, r.types));
}

/// A peer whose link comes up is up from then on, and is sent the record of every
/// registered type, each once, in ascending order of the types, behind what was
/// queued before. No other peer is concerned.
pub proof fn new_link_gets_every_record(k: ClusterView, peer: int, r: RegistryView)
    requires
        0 <= peer < k.peers.len(),
        r.types.dom().finite(),
    ensures
        ({
            let after = k.linked(peer, r);
            let n = k.outbox.len() as int;
            let list = federation::snapshot(r);
            &&& after.peers.len() == k.peers.len()
            &&& after.peers[peer].up && after.peers[peer].id == k.peers[peer].id
            &&& forall|p: int|
                0 <= p < k.peers.len() && p != peer ==> after.peers[p] == #[trigger] k.peers[p]
            &&& after.outbox.len() == n + list.len()
            &&& forall|i: int| 0 <= i < n ==> after.outbox[i] == #[trigger] k.outbox[i]
            &&& forall|i: int|
                0 <= i < list.len() ==> (#[trigger] after.outbox[n + i]).peer == peer
                    && after.outbox[n + i].text == "RREG "@ + list[i].0 + " "@ + list[i].1.key
                    + " "@ + list[i].1.origin_daemon + " "@ + number::decimal(list[i].1.ts as nat)
                    + "\r\n"@
            &&& forall|i: int|
                0 <= i < list.len() ==> r.types.contains_key((#[trigger] list[i]).0)
                    && r.types[list[i].0] == list[i].1
            &&& forall|t: Seq<char>| #[trigger]
                r.types.contains_key(t) ==> exists|i: int|
                    0 <= i < list.len() && #[trigger] list[i] == (t, r.types[t])
            &&& forall|i: int, j: int|
                0 <= i < j < list.len() ==> text::text_lt(
                    (#[trigger] list[i]).0,
                    (#[trigger] list[j]).0,
                )
        }),
{
    let list = federation::snapshot(r);
    lemma_snapshot_lists(r);
    ownership_laws::snapshot_is_the_records(list, r.types);
    let after = k.linked(peer, r);
    let n = k.outbox.len() as int;
    let frames = federation::snapshot_frames(peer as nat, list);
    assert forall|i: int| 0 <= i < list.len() implies (#[trigger] after.outbox[n + i]).peer == peer
        && after.outbox[n + i].text == "RREG "@ + list[i].0 + " "@ + list[i].1.key + " "@
        + list[i].1.origin_daemon + " "@ + number::decimal(list[i].1.ts as nat) + "\r\n"@ by {
        assert(after.outbox[n + i] == frames[i]);
    }
}

/// A peer whose link goes down is down from then on, and what was queued for it is
/// dropped; what was queued for the others stays, in its order.
pub proof fn lost_link_drops_its_frames(k: ClusterView, peer: int, s: PeerSendView)
    requires
        0 <= peer < k.peers.len(),
    ensures
        ({
            let after = k.unlinked(peer);
            &&& after.peers.len() == k.peers.len()
            &&& !after.peers[peer].up && after.peers[peer].id == k.peers[peer].id
            &&& forall|p: int|
                0 <= p < k.peers.len() && p != peer ==> after.peers[p] == #[trigger] k.peers[p]
            &&& after.outbox.contains(s) <==> k.outbox.contains(s) && s.peer != peer
            &&& after.outbox == k.outbox.filter(|s: PeerSendView| s.peer != peer)
        }),
{
    let keep = |s: PeerSendView| s.peer != peer;
    let after = k.unlinked(peer);
    assert(after.outbox == k.outbox.filter(keep));
    if after.outbox.contains(s) {
        let i = choose|i: int| 0 <= i < after.outbox.len() && after.outbox[i] == s;
        k.outbox.lemma_filter_pred(keep, i);
        k.outbox.lemma_filter_contains_rev(keep, s);
    }
    if k.outbox.contains(s) && s.peer != peer {
        let i = choose|i: int| 0 <= i < k.outbox.len() && k.outbox[i] == s;
        k.outbox.lemma_filter_contains(keep, i);
    }
}

// --- lines from a peer -----------------------------------------------------------------------

/// The pieces of a text, and the text they make.
proof fn lemma_pieces(s: Seq<char>)
    ensures
        ({
            let p = text::split(s, ' ');
            let sp = seq![' '];
            &&& p.len() > 0
            &&& !p[0].contains(' ')
            &&& p.len() == 1 ==> s == p[0]
            &&& p.len() > 1 ==> s == p[0] + sp + s.skip(p[0].len() as int + 1) && text::split(
                s.skip(p[0].len() as int + 1),
                ' ',
            ) == p.skip(1)
        }),
{
    text::lemma_find(s, ' ');
    let p = text::split(s, ' ');
    let k = text::find(s, ' ') as int;
    if k < s.len() {
        let head = s.take(k);
        let tail = s.skip(k + 1);
        assert(!head.contains(' '));
        assert(s =~= head + seq![' '] + tail);
        assert(p == seq![head] + text::split(tail, ' '));
        assert(p[0] == head);
        assert(p.skip(1) =~= text::split(tail, ' '));
        lemma_split_some(tail);
    }
}

proof fn lemma_split_some(s: Seq<char>)
    ensures
        text::split(s, ' ').len() > 0,
{
}

/// A text of four pieces is those pieces, with a space between each two.
proof fn lemma_four(s: Seq<char>)
    requires
        text::split(s, ' ').len() == 4,
    ensures
        ({
            let p = text::split(s, ' ');
            s == p[0] + " "@ + p[1] + " "@ + p[2] + " "@ + p[3] && !p[0].contains(' ')
                && !p[1].contains(' ') && !p[2].contains(' ') && !p[3].contains(' ')
        }),
{
    protocol_laws::lemma_space();
    let p = text::split(s, ' ');
    lemma_pieces(s);
    let a = s.skip(p[0].len() as int + 1);
    lemma_pieces(a);
    let b = a.skip(p[1].len() as int + 1);
    assert(p.skip(1)[0] == p[1]);
    lemma_pieces(b);
    assert(p.skip(1).skip(1)[0] == p[2]);
    let c = b.skip(p[2].len() as int + 1);
    lemma_pieces(c);
    assert(p.skip(1).skip(1).skip(1)[0] == p[3]);
    assert(p.skip(1).skip(1).skip(1).len() == 1);
    assert(s =~= p[0] + " "@ + p[1] + " "@ + p[2] + " "@ + p[3]);
}

/// A text of five pieces is those pieces, with a space between each two.
proof fn lemma_five(s: Seq<char>)
    requires
        text::split(s, ' ').len() == 5,
    ensures
        ({
            let p = text::split(s, ' ');
            s == p[0] + " "@ + p[1] + " "@ + p[2] + " "@ + p[3] + " "@ + p[4] && !p[0].contains(' ')
                && !p[1].contains(' ') && !p[2].contains(' ') && !p[3].contains(' ')
                && !p[4].contains(' ')
        }),
{
    protocol_laws::lemma_space();
    let p = text::split(s, ' ');
    lemma_pieces(s);
    let rest = s.skip(p[0].len() as int + 1);
    lemma_four(rest);
    assert(p.skip(1)[0] == p[1] && p.skip(1)[1] == p[2] && p.skip(1)[2] == p[3] && p.skip(1)[3]
        == p[4]);
    assert(s =~= p[0] + " "@ + p[1] + " "@ + p[2] + " "@ + p[3] + " "@ + p[4]);
}

/// A line from a peer is a `FEED` with a type, an id and an origin exactly where it
/// says so, with a single space between each two and a type that is a token.
pub proof fn feed_lines(line: Seq<char>, msg_type: Seq<char>, msg_id: Seq<char>, origin: Seq<char>)
    ensures
        federation::peer_line(line) == Some(PeerLineView::Feed { msg_type, msg_id, origin })
            <==> line == "FEED "@ + msg_type + " "@ + msg_id + " "@ + origin
            && validate::valid_type(msg_type) && msg_id.len() > 0 && origin.len() > 0
            && !msg_id.contains(' ') && !origin.contains(' '),
{
    protocol_laws::lemma_space();
    reveal_strlit("FEED ");
    reveal_strlit("FEED");
    let sp = seq![' '];
    assert("FEED "@ =~= "FEED"@ + sp);
    if federation::peer_line(line) == Some(PeerLineView::Feed { msg_type, msg_id, origin }) {
        lemma_four(line);
        assert(line =~= "FEED "@ + msg_type + " "@ + msg_id + " "@ + origin);
    }
    if line == "FEED "@ + msg_type + " "@ + msg_id + " "@ + origin && validate::valid_type(
        msg_type,
    ) && !msg_id.contains(' ') && !origin.contains(' ') {
        protocol_laws::lemma_type_is_word(msg_type);
        protocol_laws::lemma_split_none(origin, ' ');
        protocol_laws::lemma_split_first(msg_id, ' ', origin);
        let b = msg_id + sp + origin;
        protocol_laws::lemma_split_first(msg_type, ' ', b);
        let a = msg_type + sp + b;
        protocol_laws::lemma_split_first("FEED"@, ' ', a);
        assert(line =~= "FEED"@ + sp + a);
        assert(text::split(line, ' ') =~= seq!["FEED"@, msg_type, msg_id, origin]);
    }
}

/// A line from a peer is an `RREG` with a type and a record exactly where it says so,
/// with a single space between each two, a type that is a token, a key of visible
/// characters and a time in digits.
pub proof fn rreg_lines(line: Seq<char>, msg_type: Seq<char>, reg: TypeRegView, ts: Seq<char>)
    ensures
        federation::peer_line(line) == Some(PeerLineView::Rreg { msg_type, reg }) ==> exists|
            digits: Seq<char>,
        |
            #[trigger] number::parse_digits(digits, u64::MAX as nat) == Some(reg.ts as nat) && line
                == "RREG "@ + msg_type + " "@ + reg.key + " "@ + reg.origin_daemon + " "@ + digits
                && validate::valid_type(msg_type) && validate::valid_key(reg.key)
                && reg.origin_daemon.len() > 0 && !reg.origin_daemon.contains(' '),
        line == "RREG "@ + msg_type + " "@ + reg.key + " "@ + reg.origin_daemon + " "@ + ts
            && validate::valid_type(msg_type) && validate::valid_key(reg.key)
            && reg.origin_daemon.len() > 0 && !reg.origin_daemon.contains(' ')
            && number::parse_digits(ts, u64::MAX as nat) == Some(reg.ts as nat)
            ==> federation::peer_line(line) == Some(PeerLineView::Rreg { msg_type, reg }),
{
    protocol_laws::lemma_space();
    reveal_strlit("RREG ");
    reveal_strlit("RREG");
    reveal_strlit("FEED");
    let sp = seq![' '];
    assert("RREG "@ =~= "RREG"@ + sp);
    assert("RREG"@[0] != "FEED"@[0]);
    if federation::peer_line(line) == Some(PeerLineView::Rreg { msg_type, reg }) {
        lemma_five(line);
        let p = text::split(line, ' ');
        assert(number::parse_digits(p[4], u64::MAX as nat) == Some(reg.ts as nat));
        assert(line =~= "RREG "@ + msg_type + " "@ + reg.key + " "@ + reg.origin_daemon + " "@
            + p[4]);
    }
    if line == "RREG "@ + msg_type + " "@ + reg.key + " "@ + reg.origin_daemon + " "@ + ts
        && validate::valid_type(msg_type) && validate::valid_key(reg.key)
        && !reg.origin_daemon.contains(' ') && number::parse_digits(ts, u64::MAX as nat) == Some(
        reg.ts as nat,
    ) {
        protocol_laws::lemma_type_is_word(msg_type);
        protocol_laws::lemma_key_is_word(reg.key);
        assert(!ts.contains(' ')) by {
            assert(forall|i: int| 0 <= i < ts.len() ==> number::is_digit(#[trigger] ts[i]));
        }
        protocol_laws::lemma_split_none(ts, ' ');
        protocol_laws::lemma_split_first(reg.origin_daemon, ' ', ts);
        let c = reg.origin_daemon + sp + ts;
        protocol_laws::lemma_split_first(reg.key, ' ', c);
        let b = reg.key + sp + c;
        protocol_laws::lemma_split_first(msg_type, ' ', b);
        let a = msg_type + sp + b;
        protocol_laws::lemma_split_first("RREG"@, ' ', a);
        assert(line =~= "RREG"@ + sp + a);
        assert(text::split(line, ' ') =~= seq!["RREG"@, msg_type, reg.key, reg.origin_daemon, ts]);
    }
}

/// A greeting is a peer's exactly where it is 200 with an id, the role and the
/// protocol, and says that it is ready; the id is the one it names.
pub proof fn peer_greetings(line: Seq<char>, id: Seq<char>, sep: char)
    requires
        sep <= '\u{7f}',
    ensures
        federation::greeting_id(line) == Some(id) ==> {
            &&& line.len() > 4
            &&& line.take(3) == "200"@
            &&& line.skip(4) == id + " macro-bus-peer MBP/1.0 ready"@
            &&& id.len() > 0
            &&& !id.contains(' ')
        },
        id.len() > 0 && !id.contains(' ') ==> federation::greeting_id(
            "200"@ + seq![sep] + id + " macro-bus-peer MBP/1.0 ready"@,
        ) == Some(id),
{
    protocol_laws::lemma_space();
    let sp = seq![' '];
    reveal_strlit(" macro-bus-peer MBP/1.0 ready");
    reveal_strlit("macro-bus-peer");
    reveal_strlit("MBP/1.0");
    reveal_strlit("ready");
    reveal_strlit("200");
    let tail = "macro-bus-peer"@ + sp + ("MBP/1.0"@ + sp + "ready"@);
    assert(" macro-bus-peer MBP/1.0 ready"@ =~= sp + tail);
    if federation::greeting_id(line) == Some(id) {
        if let Ok((code, words)) = client::status_of(line) {
            lemma_four(words);
            assert(words =~= id + " macro-bus-peer MBP/1.0 ready"@);
            assert(words.len() > 0);
            assert(line.skip(4) == words);
            let three = line.take(3);
            assert(number::value(three) == 200);
            lemma_three(three);
            assert(three =~= "200"@);
        }
    }
    if id.len() > 0 && !id.contains(' ') {
        let greeting = "200"@ + seq![sep] + id + " macro-bus-peer MBP/1.0 ready"@;
        let words = id + sp + tail;
        assert(greeting =~= seq!['2', '0', '0', sep] + words);
        crate::event_laws::status_line_is_code_and_text('2', '0', '0', sep, words, words);
        protocol_laws::lemma_split_none("ready"@, ' ');
        protocol_laws::lemma_split_first("MBP/1.0"@, ' ', "ready"@);
        protocol_laws::lemma_split_first("macro-bus-peer"@, ' ', "MBP/1.0"@ + sp + "ready"@);
        protocol_laws::lemma_split_first(id, ' ', tail);
        assert(text::split(words, ' ') =~= seq![id, "macro-bus-peer"@, "MBP/1.0"@, "ready"@]);
    }
}

/// Three digits are told by their value.
proof fn lemma_three(s: Seq<char>)
    requires
        s.len() == 3,
        number::all_digits(s),
        number::value(s) == 200,
    ensures
        s == seq!['2', '0', '0'],
{
    let a = s[0] as int - 48;
    let b = s[1] as int - 48;
    let c = s[2] as int - 48;
    assert(number::is_digit(s[0]) && number::is_digit(s[1]) && number::is_digit(s[2]));
    let two = s.drop_last();
    let one = two.drop_last();
    assert(one.drop_last() =~= Seq::<char>::empty());
    assert(number::value(one.drop_last()) == 0);
    assert(number::value(one) == a);
    assert(number::value(two) == a * 10 + b);
    assert(number::value(s) == (a * 10 + b) * 10 + c);
    assert(a == 2 && b == 0 && c == 0);
    assert(s =~= seq!['2', '0', '0']);
}

/// A daemon that was dialed is taken for the one that was expected exactly where its
/// greeting names that one; otherwise the fault says who answered, or what did.
pub proof fn dialed_daemon_is_told_by_its_greeting(expected: Seq<char>, line: Seq<char>)
    ensures
        federation::peer_fault(expected, line) is None <==> federation::greeting_id(line) == Some(
            expected,
        ),
        federation::greeting_id(line) is None ==> federation::peer_fault(expected, line) == Some(
            "unexpected greeting: "@ + line,
        ),
        federation::greeting_id(line) is Some && federation::greeting_id(line)->0 != expected
            ==> federation::peer_fault(expected, line) == Some(
            "expected "@ + expected + ", but "@ + federation::greeting_id(line)->0 + " answered"@,
        ),
{
}

// --- steps of a link ---------------------------------------------------------------------------

/// A link that was just accepted has its limits, no input and no source, and awaits
/// the greeting.
pub proof fn fresh_link_awaits_the_greeting(limits: Limits)
    ensures
        LinkView::fresh(limits).limits == limits,
        LinkView::fresh(limits).rbuf.len() == 0,
        LinkView::fresh(limits).source.len() == 0,
        LinkView::fresh(limits).phase is Greeting,
{
}

/// What a step between frames comes to. Without a complete line nothing happens. A
/// line beyond the limit, a greeting that is none and a line that is no frame close
/// the link, and change nothing here. The greeting tells the source. `RREG` is
/// learned; a record that is adopted is passed on to the other peers, and no other.
/// `FEED` announces a message, and its body is awaited.
pub proof fn link_takes_a_line(
    l: LinkView,
    r: RegistryView,
    k: ClusterView,
    l2: LinkView,
    r2: RegistryView,
    k2: ClusterView,
    flow: LinkFlow,
)
    requires
        !(l.phase is Feed),
        federation::link_steps(l, r, k, l2, r2, k2, flow),
    ensures
        ({
            let n = wire::find_lf(l.rbuf);
            let bytes = wire::strip_cr(l.rbuf.take(n as int));
            let line = text::lossy(bytes);
            let whole = n < l.rbuf.len() && bytes.len() <= 131072;
            let said = federation::peer_line(line);
            let id = federation::greeting_id(line);
            &&& l2.limits == l.limits
            &&& n == l.rbuf.len() && wire::strip_cr(l.rbuf).len() <= 131072 ==> l2 == l && r2 == r
                && k2 == k && flow == LinkFlow::Read
            &&& n == l.rbuf.len() && wire::strip_cr(l.rbuf).len() > 131072 || n < l.rbuf.len()
                && bytes.len() > 131072 ==> r2 == r && k2 == k && flow == LinkFlow::Close
            &&& whole ==> l2.rbuf == l.rbuf.skip(n as int + 1)
            &&& whole && l.phase is Greeting ==> {
                &&& r2 == r && k2 == k
                &&& id is None ==> flow == LinkFlow::Close && l2.phase == l.phase && l2.source
                    == l.source
                &&& id is Some ==> flow == LinkFlow::Continue && l2.source == id->0
                    && l2.phase is Line
            }
            &&& whole && l.phase is Line ==> {
                &&& l2.source == l.source
                &&& flow == LinkFlow::Close <==> said is None
                &&& flow == LinkFlow::Continue <==> said is Some
                &&& said is None ==> r2 == r && k2 == k && l2.phase is Line
                &&& said matches Some(PeerLineView::Feed { msg_type, msg_id, origin }) ==> {
                    &&& r2 == r && k2 == k
                    &&& l2.phase is Feed
                    &&& l2.phase->msg_type == msg_type
                    &&& l2.phase->msg_id == msg_id
                    &&& l2.phase->origin == origin
                    &&& l2.phase->body.lines.len() == 0
                    &&& l2.phase->body.total == 0
                    &&& !l2.phase->body.too_large && !l2.phase->body.skipping
                }
                &&& said matches Some(PeerLineView::Rreg { msg_type, reg }) ==> {
                    let known = r.types.contains_key(msg_type);
                    let standing = r.types[msg_type];
                    let adopted = !known || reg.ts < standing.ts || (reg.ts == standing.ts
                        && text::text_lt(
                        reg.origin_daemon,
                        standing.origin_daemon,
                    ));
                    &&& l2.phase is Line
                    &&& ownership_laws::only_type_differs(r, r2, msg_type)
                    &&& adopted ==> r2.types.contains_key(msg_type) && r2.types[msg_type] == reg
                        && handed_to(
                        k,
                        k2,
                        "RREG "@ + msg_type + " "@ + reg.key + " "@ + reg.origin_daemon + " "@
                            + number::decimal(reg.ts as nat) + "\r\n"@,
                        Some(l.source),
                    )
                    &&& !adopted ==> r2 == r && k2 == k
                }
            }
        }),
{
    let outs = choose|outs: Seq<SendOutcome>|
        (l.phase is Feed ==> outs.len() == r.listeners(l.phase->msg_type).len())
            && #[trigger] l.stepped(r, k, outs) == (l2, r2, k2, flow);
    wire::lemma_find_lf(l.rbuf);
    let n = wire::find_lf(l.rbuf);
    let bytes = wire::strip_cr(l.rbuf.take(n as int));
    let line = text::lossy(bytes);
    if let Some(PeerLineView::Rreg { msg_type, reg }) = federation::peer_line(line) {
        if r.types.contains_key(msg_type) {
            ownership_laws::lower_record_is_kept(r, msg_type, reg);
        } else {
            ownership_laws::unknown_type_is_learned(r, msg_type, reg);
        }
        sent_text_reaches_the_others(
            k,
            federation::frame_text(ForwardView::Registration(msg_type, reg)),
            Some(l.source),
        );
        frames_on_the_wire(
            MessageView {
                msg_type: msg_type,
                msg_id: msg_type,
                origin: msg_type,
                body: Seq::empty(),
            },
            msg_type,
            reg,
        );
    }
}

/// What a step within a forwarded message comes to. Until its end has come, nothing
/// here changes. At its end the link awaits the next frame. A message that is too
/// large or whose id is remembered is dropped, and neither delivered nor passed on.
/// Any other is delivered to every subscriber of its type here, and passed on to
/// every peer but the one it came from, with the type, id, origin and lines that it
/// came with.
pub proof fn link_takes_a_message(
    l: LinkView,
    r: RegistryView,
    k: ClusterView,
    l2: LinkView,
    r2: RegistryView,
    k2: ClusterView,
    flow: LinkFlow,
)
    requires
        r.coherent(),
        l.phase is Feed,
        federation::link_steps(l, r, k, l2, r2, k2, flow),
    ensures
        ({
            let (body, rest, got) = l.phase->body.received(l.rbuf, l.limits);
            &&& l2.limits == l.limits && l2.source == l.source && l2.rbuf == rest
            &&& flow == if got == Received::Wait {
                LinkFlow::Read
            } else {
                LinkFlow::Continue
            }
            &&& got != Received::End ==> {
                &&& r2 == r && k2 == k
                &&& l2.phase is Feed
                &&& l2.phase->msg_type == l.phase->msg_type
                &&& l2.phase->msg_id == l.phase->msg_id
                &&& l2.phase->origin == l.phase->origin
                &&& l2.phase->body == body
            }
            &&& got == Received::End ==> l2.phase is Line
            &&& got == Received::End && (body.too_large || r.seen.has(l.phase->msg_id)) ==> r2 == r
                && k2 == k
            &&& got == Received::End && !body.too_large && !r.seen.has(l.phase->msg_id) ==> {
                let m = MessageView {
                    msg_type: l.phase->msg_type,
                    msg_id: l.phase->msg_id,
                    origin: l.phase->origin,
                    body: body.lines,
                };
                &&& delivery_laws::delivered(r, r2, m)
                &&& r2.seen.has(m.msg_id)
                &&& r2.seq == r.seq
                &&& handed_to(
                    k,
                    k2,
                    "FEED "@ + m.msg_type + " "@ + m.msg_id + " "@ + m.origin + "\r\n"@
                        + frame::block(m.body),
                    Some(l.source),
                )
            }
        }),
{
    let outs = choose|outs: Seq<SendOutcome>|
        (l.phase is Feed ==> outs.len() == r.listeners(l.phase->msg_type).len())
            && #[trigger] l.stepped(r, k, outs) == (l2, r2, k2, flow);
    let (body, rest, got) = l.phase->body.received(l.rbuf, l.limits);
    if got == Received::End && !body.too_large {
        let m = MessageView {
            msg_type: l.phase->msg_type,
            msg_id: l.phase->msg_id,
            origin: l.phase->origin,
            body: body.lines,
        };
        let (after, fresh) = r.ingested(m, outs);
        assert(registry::ingests(r, m, after, fresh));
        delivery_laws::ingested_message_is_delivered(r, m, after, fresh);
        let reg = TypeRegView { key: m.msg_type, origin_daemon: m.origin, ts: 0 };
        frames_on_the_wire(m, m.msg_type, reg);
        sent_text_reaches_the_others(
            k,
            federation::frame_text(ForwardView::Message(m)),
            Some(l.source),
        );
    }
}

/// A step of a link always has an outcome.
pub proof fn link_steps_exist(l: LinkView, r: RegistryView, k: ClusterView)
    ensures
        exists|l2: LinkView, r2: RegistryView, k2: ClusterView, flow: LinkFlow|
            #[trigger] federation::link_steps(l, r, k, l2, r2, k2, flow),
{
    let n = if l.phase is Feed {
        r.listeners(l.phase->msg_type).len()
    } else {
        0
    };
    let outs = Seq::new(n, |i: int| SendOutcome::Sent);
    let (l2, r2, k2, flow) = l.stepped(r, k, outs);
    assert(federation::link_steps(l, r, k, l2, r2, k2, flow));
}

// --- redialing ----------------------------------------------------------------------------------

/// The delay starts at the base and doubles at each attempt, and is never above the
/// ceiling.
pub proof fn delays_start_at_the_base(base: u64, max: u64, b: BackoffView)
    ensures
        base <= max ==> BackoffView::fresh(base, max).delay == base,
        base > max ==> BackoffView::fresh(base, max).delay == max,
        BackoffView::fresh(base, max).base == base,
        BackoffView::fresh(base, max).max == max,
        b.next().base == b.base,
        b.next().max == b.max,
        2 * b.delay <= b.max ==> b.next().delay == 2 * b.delay,
        2 * b.delay > b.max ==> b.next().delay == b.max,
{
}

} // verus!
