//! What a client is answered, command by command and step by step.
use vstd::prelude::*;

use crate::body::Received;
use crate::command;
use crate::command::CommandView;
use crate::config::Limits;
use crate::conn;
use crate::conn::Conn;
use crate::conn::ConnView;
use crate::conn::DraftView;
use crate::conn::Flow;
use crate::conn::ForwardView;
use crate::conn::PhaseView;
use crate::conn::StepView;
use crate::delivery_laws;
use crate::drop_laws;
use crate::message::MessageView;
use crate::number;
use crate::ownership_laws;
use crate::queue::OutboundView;
use crate::queue::SendOutcome;
use crate::registry;
use crate::registry::DropView;
use crate::registry::RefusalView;
use crate::registry::Registry;
use crate::registry::RegistryView;
use crate::reply;
use crate::reply::ReplyView;
use crate::table;
use crate::text;
use crate::wire;

verus! {

broadcast use vstd::string::group_string_axioms;

// --- replies on the wire ------------------------------------------------------------------

/// A status line is the code, a space, the text and CRLF; and a reply is its status
/// line, and behind it the block that it has.
pub proof fn reply_is_a_status_line(code: u16, text: Seq<char>, lines: Seq<Seq<char>>)
    ensures
        reply::status_line(code, text) == number::decimal(code as nat) + " "@ + text + "\r\n"@,
        (ReplyView { code, text, block: None }).encoded() == number::decimal(code as nat) + " "@
            + text + "\r\n"@,
        (ReplyView { code, text, block: Some(lines) }).encoded() == number::decimal(code as nat)
            + " "@ + text + "\r\n"@ + crate::frame::block(lines),
{
}

/// The notice of drops names the type and how many there were; several of them stand
/// one after the other.
pub proof fn drop_notices_are_lines(drops: Seq<DropView>)
    ensures
        conn::drop_notices(drops) == drops.map_values(
            |d: DropView|
                "102 DROP "@ + d.msg_type + " "@ + number::decimal(d.count as nat) + "\r\n"@,
        ).flatten(),
    decreases drops.len(),
{
    let line = |d: DropView|
        "102 DROP "@ + d.msg_type + " "@ + number::decimal(d.count as nat) + "\r\n"@;
    let lines = drops.map_values(line);
    if drops.len() > 0 {
        let head = drops.drop_last();
        drop_notices_are_lines(head);
        assert(lines.drop_last() =~= head.map_values(line));
        lemma_code_text(102);
        reveal_strlit("102 DROP ");
        reveal_strlit("DROP ");
        reveal_strlit("102");
        reveal_strlit(" ");
        let last = drops.last();
        assert("102 DROP "@ =~= number::decimal(102) + " "@ + "DROP "@);
        assert(conn::drop_notice(last) =~= line(last));
        assert(lines =~= lines.drop_last() + seq![line(last)]);
        vstd::seq_lib::lemma_flatten_concat(lines.drop_last(), seq![line(last)]);
        seq![line(last)].lemma_flatten_one_element();
    } else {
        assert(lines =~= Seq::<Seq<char>>::empty());
    }
}

/// The digits of the codes that are written out.
proof fn lemma_code_text(code: u16)
    requires
        code == 101 || code == 102 || code == 190,
    ensures
        code == 101 ==> number::decimal(101) == "101"@,
        code == 102 ==> number::decimal(102) == "102"@,
        code == 190 ==> number::decimal(190) == "190"@,
{
    reveal_strlit("101");
    reveal_strlit("102");
    reveal_strlit("190");
    reveal_with_fuel(number::digits, 4);
    assert(number::decimal(101) =~= "101"@);
    assert(number::decimal(102) =~= "102"@);
    assert(number::decimal(190) =~= "190"@);
}

/// What goes out for an item of the queue: a message with its type, id, origin and
/// body behind `101 MSG`, or a note behind `190`.
pub proof fn outbound_items_are_pushes(m: MessageView, note: Seq<char>)
    ensures
        conn::outbound_text(OutboundView::Deliver(m)) == "101 MSG "@ + m.msg_type + " "@ + m.msg_id
            + " "@ + m.origin + "\r\n"@ + crate::frame::block(m.body),
        conn::outbound_text(OutboundView::Note(note)) == "190 "@ + note + "\r\n"@,
{
    lemma_code_text(101);
    lemma_code_text(190);
    reveal_strlit("101 MSG ");
    reveal_strlit("101");
    reveal_strlit(" MSG");
    reveal_strlit(" ");
    reveal_strlit("190 ");
    reveal_strlit("190");
    assert("101 MSG "@ =~= "101"@ + " MSG"@ + " "@);
    assert(conn::outbound_text(OutboundView::Deliver(m)) =~= "101 MSG "@ + m.msg_type + " "@
        + m.msg_id + " "@ + m.origin + "\r\n"@ + crate::frame::block(m.body));
    assert("190 "@ =~= "190"@ + " "@);
}

// --- command by command ---------------------------------------------------------------------

/// Nothing but what a connection subscribes to differs.
pub open spec fn only_conn_subs_differ(a: ConnView, b: ConnView) -> bool {
    &&& a.id == b.id
    &&& a.limits == b.limits
    &&& a.rbuf == b.rbuf
    &&& a.phase == b.phase
    &&& a.path == b.path
    &&& a.inbox == b.inbox
}

/// `SUBSCRIBE` is answered 211 and `UNSUBSCRIBE` 212 to any connection, whatever is
/// registered or subscribed to and at any time; neither is passed on or closes the
/// connection.
pub proof fn subscriptions_are_always_granted(
    c: ConnView,
    r: RegistryView,
    msg_type: Seq<char>,
    now_ms: u64,
)
    ensures
        ({
            let h = c.commanded(r, CommandView::Subscribe { msg_type }, now_ms);
            let u = c.commanded(r, CommandView::Unsubscribe { msg_type }, now_ms);
            &&& h.reply.code == 211 && h.reply.text == "subscribed "@ + msg_type
            &&& u.reply.code == 212 && u.reply.text == "unsubscribed "@ + msg_type
            &&& h.reply.block is None && u.reply.block is None
            &&& h.forward is None && u.forward is None
            &&& h.flow == Flow::Continue && u.flow == Flow::Continue
        }),
{
}

/// `SUBSCRIBE` is answered 211 whatever the type is, registered or not, subscribed
/// to or not; the connection is among its subscribers from then on, and what else it
/// subscribes to stays.
pub proof fn subscribe_is_answered(
    c: ConnView,
    r: RegistryView,
    msg_type: Seq<char>,
    now_ms: u64,
    other: Seq<char>,
)
    requires
        r.coherent(),
    ensures
        ({
            let h = c.commanded(r, CommandView::Subscribe { msg_type }, now_ms);
            &&& h.reply.code == 211
            &&& h.reply.text == "subscribed "@ + msg_type
            &&& h.reply.block is None
            &&& h.forward is None
            &&& h.flow == Flow::Continue
            &&& only_conn_subs_differ(c, h.conn)
            &&& h.conn.subs.contains(other) <==> other == msg_type || c.subs.contains(other)
            &&& delivery_laws::subscribes(h.registry, msg_type, c.handle())
            &&& delivery_laws::only_subs_differ(r, h.registry)
            &&& c.handle().id == c.id && c.handle().path == c.path && c.handle().offers.len() == 0
            &&& c.handle().wakes == 0
        }),
{
    let h = c.commanded(r, CommandView::Subscribe { msg_type }, now_ms);
    delivery_laws::subscribing_adds_the_handle(r, msg_type, c.handle(), msg_type, c.handle());
    lemma_with_name(c.subs, msg_type, other);
}

/// `UNSUBSCRIBE` is answered 212 whatever the type is, subscribed to or not; the
/// connection is not among its subscribers from then on, and what else it subscribes
/// to stays.
pub proof fn unsubscribe_is_answered(
    c: ConnView,
    r: RegistryView,
    msg_type: Seq<char>,
    now_ms: u64,
    other: Seq<char>,
    handle: crate::queue::HandleView,
)
    requires
        r.coherent(),
        c.subs.no_duplicates(),
    ensures
        ({
            let h = c.commanded(r, CommandView::Unsubscribe { msg_type }, now_ms);
            &&& h.reply.code == 212
            &&& h.reply.text == "unsubscribed "@ + msg_type
            &&& h.reply.block is None
            &&& h.forward is None
            &&& h.flow == Flow::Continue
            &&& only_conn_subs_differ(c, h.conn)
            &&& h.conn.subs.contains(other) <==> other != msg_type && c.subs.contains(other)
            &&& delivery_laws::subscribes(h.registry, other, handle)
                <==> delivery_laws::subscribes(r, other, handle) && !(other == msg_type
                && handle.id == c.id)
            &&& delivery_laws::only_subs_differ(r, h.registry)
        }),
{
    delivery_laws::unsubscribing_removes_the_conn(r, msg_type, c.id, other, handle);
    lemma_without_name(c.subs, msg_type, other);
}

proof fn lemma_with_name(list: Seq<Seq<char>>, name: Seq<char>, t: Seq<char>)
    ensures
        text::with_name(list, name).contains(t) <==> t == name || list.contains(t),
{
    text::lemma_place(list, name);
    let k = text::place(list, name) as int;
    let more = text::with_name(list, name);
    if k >= list.len() {
        assert(more[list.len() as int] == name);
        if list.contains(t) {
            let i = choose|i: int| 0 <= i < list.len() && list[i] == t;
            assert(more[i] == t);
        }
        if more.contains(t) && t != name {
            let i = choose|i: int| 0 <= i < more.len() && more[i] == t;
            assert(list[i] == t);
        }
    }
}

proof fn lemma_without_name(list: Seq<Seq<char>>, name: Seq<char>, t: Seq<char>)
    requires
        list.no_duplicates(),
    ensures
        text::without_name(list, name).contains(t) <==> t != name && list.contains(t),
{
    text::lemma_place(list, name);
    let k = text::place(list, name) as int;
    let less = text::without_name(list, name);
    if k < list.len() {
        if list.contains(t) && t != name {
            let i = choose|i: int| 0 <= i < list.len() && list[i] == t;
            let n = if i > k { i - 1 } else { i };
            assert(less[n] == t);
        }
        if less.contains(t) {
            let i = choose|i: int| 0 <= i < less.len() && less[i] == t;
            let n = if i >= k { i + 1 } else { i };
            assert(list[n] == t);
            assert(list[k] == name);
        }
    }
}

/// `REGISTER` is answered 210 to whoever claims the type or presents its key, and
/// 433 to anybody else. Only a claim goes to the peers, with the record that now
/// stands here. The connection itself does not change.
pub proof fn register_is_answered(
    c: ConnView,
    r: RegistryView,
    msg_type: Seq<char>,
    key: Seq<char>,
    now_ms: u64,
)
    ensures
        ({
            let h = c.commanded(r, CommandView::Register { msg_type, key }, now_ms);
            let known = r.types.contains_key(msg_type);
            let refused = known && r.types[msg_type].key != key;
            &&& h.conn == c
            &&& h.flow == Flow::Continue
            &&& h.reply.block is None
            &&& refused ==> h.reply.code == 433 && h.reply.text == msg_type
                + " already registered"@
            &&& !refused ==> h.reply.code == 210 && h.reply.text == msg_type + " registered"@
            &&& known ==> h.registry == r && h.forward is None
            &&& !known ==> {
                &&& ownership_laws::only_type_differs(r, h.registry, msg_type)
                &&& h.registry.types.contains_key(msg_type)
                &&& h.registry.types[msg_type].key == key
                &&& h.registry.types[msg_type].origin_daemon == r.daemon_id
                &&& h.registry.types[msg_type].ts == now_ms
                &&& h.forward == Some(
                    ForwardView::Registration(msg_type, h.registry.types[msg_type]),
                )
            }
        }),
{
}

/// `PUBLISH` is answered 354, and the body of that publish is awaited, exactly where
/// the key of a registered type is presented; otherwise it is answered 430 or 441,
/// and no body is awaited. Nothing is published yet, and nothing goes to the peers.
pub proof fn publish_is_answered(
    c: ConnView,
    r: RegistryView,
    msg_type: Seq<char>,
    key: Seq<char>,
    now_ms: u64,
)
    requires
        c.phase is Command,
    ensures
        ({
            let h = c.commanded(r, CommandView::Publish { msg_type, key }, now_ms);
            let known = r.types.contains_key(msg_type);
            let invited = known && r.types[msg_type].key == key;
            &&& h.registry == r
            &&& h.forward is None
            &&& h.flow == Flow::Continue
            &&& h.reply.block is None
            &&& invited ==> h.reply.code == 354 && h.reply.text
                == "enter message body; end with <CRLF>.<CRLF>"@
            &&& !known ==> h.reply.code == 430 && h.reply.text == msg_type + " not registered"@
            &&& known && !invited ==> h.reply.code == 441 && h.reply.text
                == "authorization key mismatch"@
            &&& !invited ==> h.conn == c
            &&& invited ==> {
                &&& h.conn.id == c.id && h.conn.limits == c.limits && h.conn.rbuf == c.rbuf
                &&& h.conn.subs == c.subs && h.conn.path == c.path && h.conn.inbox == c.inbox
                &&& h.conn.phase is Body
                &&& h.conn.phase->0.msg_type == msg_type
                &&& h.conn.phase->0.key == key
                &&& h.conn.phase->0.body.lines.len() == 0
                &&& h.conn.phase->0.body.total == 0
                &&& !h.conn.phase->0.body.too_large
                &&& !h.conn.phase->0.body.skipping
            }
        }),
{
}

/// `LIST TYPES` is answered 215 with the names of the registered types, all of them,
/// each once, in ascending order, and nothing else.
pub proof fn list_is_answered(c: ConnView, r: RegistryView, now_ms: u64)
    requires
        r.types.dom().finite(),
    ensures
        ({
            let h = c.commanded(r, CommandView::ListTypes, now_ms);
            &&& h.conn == c
            &&& h.registry == r
            &&& h.forward is None
            &&& h.flow == Flow::Continue
            &&& h.reply.code == 215
            &&& h.reply.text == "type list follows"@
            &&& h.reply.block is Some
            &&& forall|i: int|
                0 <= i < h.reply.block->0.len() ==> r.types.contains_key(
                    #[trigger] h.reply.block->0[i],
                )
            &&& forall|t: Seq<char>| #[trigger]
                r.types.contains_key(t) ==> h.reply.block->0.contains(t)
            &&& forall|i: int, j: int|
                0 <= i < j < h.reply.block->0.len() ==> text::text_lt(
                    #[trigger] h.reply.block->0[i],
                    #[trigger] h.reply.block->0[j],
                )
        }),
{
    let some = table::lemma_listable(r.types.dom());
    assert(registry::lists_names(some, r.types.dom()));
    let names = conn::type_names(r);
    ownership_laws::listed_names_are_the_names(names, r.types.dom());
    let h = c.commanded(r, CommandView::ListTypes, now_ms);
    assert(h.reply.block->0 == names);
    assert forall|i: int| 0 <= i < names.len() implies r.types.contains_key(#[trigger] names[i]) by {
        assert(r.types.dom().contains(names[i]));
    }
    assert forall|t: Seq<char>| #[trigger] r.types.contains_key(t) implies names.contains(t) by {
        assert(r.types.dom().contains(t));
    }
}

/// `CAPABILITIES` is answered 231 with what the server can do, its limits among it.
pub proof fn capabilities_are_answered(c: ConnView, r: RegistryView, now_ms: u64)
    ensures
        ({
            let h = c.commanded(r, CommandView::Capabilities, now_ms);
            &&& h.conn == c
            &&& h.registry == r
            &&& h.forward is None
            &&& h.flow == Flow::Continue
            &&& h.reply.code == 231
            &&& h.reply.text == "capabilities follow"@
            &&& h.reply.block is Some
            &&& h.reply.block->0.len() == 6
            &&& h.reply.block->0[0] == "VERSION "@ + "MBP/1.0"@
            &&& h.reply.block->0[1] == "MAXMSG "@ + number::decimal(
                c.limits.max_message_bytes as nat,
            )
            &&& h.reply.block->0[2] == "QUEUE "@ + number::decimal(c.limits.queue_depth as nat)
            &&& h.reply.block->0[3] == "DROP-POLICY tail-drop"@
            &&& h.reply.block->0[4] == "PAYLOAD text"@
            &&& h.reply.block->0[5] == "TLS federation"@
        }),
{
}

/// `HELP` is answered 231 with a line for each command.
pub proof fn help_is_answered(c: ConnView, r: RegistryView, now_ms: u64)
    ensures
        ({
            let h = c.commanded(r, CommandView::Help, now_ms);
            &&& h.conn == c
            &&& h.registry == r
            &&& h.forward is None
            &&& h.flow == Flow::Continue
            &&& h.reply.code == 231
            &&& h.reply.text == "help follows"@
            &&& h.reply.block is Some
            &&& h.reply.block->0.len() == 8
            &&& h.reply.block->0[0]
                == "REGISTER <type> <key>    claim a type (first-registrant wins)"@
            &&& h.reply.block->0[1] == "SUBSCRIBE <type>         start receiving a type (no key)"@
            &&& h.reply.block->0[2] == "UNSUBSCRIBE <type>       stop receiving a type"@
            &&& h.reply.block->0[3]
                == "PUBLISH <type> <key>     publish; then send body, end with '.'"@
            &&& h.reply.block->0[4] == "LIST TYPES               list known types"@
            &&& h.reply.block->0[5] == "CAPABILITIES             list capabilities"@
            &&& h.reply.block->0[6] == "HELP                     this help"@
            &&& h.reply.block->0[7] == "QUIT                     close the connection"@
        }),
{
}

/// `QUIT` is answered 221, and closes the connection; no other command does.
pub proof fn quit_closes(c: ConnView, r: RegistryView, cmd: CommandView, now_ms: u64)
    ensures
        ({
            let h = c.commanded(r, cmd, now_ms);
            &&& h.flow == Flow::Close <==> cmd is Quit
            &&& h.flow == Flow::Close || h.flow == Flow::Continue
            &&& cmd is Quit ==> h.conn == c && h.registry == r && h.forward is None && h.reply.code
                == 221 && h.reply.text == "closing connection"@ && h.reply.block is None
        }),
{
}

/// A line that is no command is answered with the code and the reason of its error,
/// and has no effect; one that is leads to what its command leads to.
pub proof fn lines_are_commands(c: ConnView, r: RegistryView, line: Seq<char>, now_ms: u64)
    ensures
        match command::parsed(line) {
            Err(e) => {
                let h = c.handled(r, line, now_ms);
                &&& h.conn == c
                &&& h.registry == r
                &&& h.forward is None
                &&& h.flow == Flow::Continue
                &&& h.reply.code == e.code
                &&& h.reply.text == e.reason
                &&& h.reply.block is None
            },
            Ok(cmd) => c.handled(r, line, now_ms) == c.commanded(r, cmd, now_ms),
        },
{
}

// --- one command after another -----------------------------------------------------------------

/// Whoever subscribed to a type is offered every message that is then published to it,
/// whole and once, on its own queue.
pub proof fn subscriber_is_offered_what_is_published(
    c: ConnView,
    r: RegistryView,
    msg_type: Seq<char>,
    now_ms: u64,
    key: Seq<char>,
    body: Seq<Seq<char>>,
    after: RegistryView,
    answer: Result<MessageView, RefusalView>,
)
    requires
        r.coherent(),
        registry::publishes(
            c.commanded(r, CommandView::Subscribe { msg_type }, now_ms).registry,
            msg_type,
            key,
            body,
            after,
            answer,
        ),
        answer is Ok,
    ensures
        answer->Ok_0.body == body,
        after.subs.contains_key(msg_type),
        exists|i: int|
            0 <= i < after.subs[msg_type].len() && ({
                let h = #[trigger] after.subs[msg_type][i];
                &&& h.id == c.id
                &&& h.path == c.path
                &&& h.offers.len() == 1
                &&& h.offers[0].0 == OutboundView::Deliver(answer->Ok_0)
            }),
{
    let told = c.commanded(r, CommandView::Subscribe { msg_type }, now_ms).registry;
    subscribe_is_answered(c, r, msg_type, now_ms, msg_type);
    drop_laws::lemma_command_coherent(c, r, CommandView::Subscribe { msg_type }, now_ms);
    delivery_laws::published_message_is_delivered(told, msg_type, key, body, after, answer);
    assert(answer->Ok_0.body =~= body);
    let was = told.subs[msg_type];
    let now = after.subs[msg_type];
    assert(after.subs.contains_key(msg_type));
    let i = choose|i: int| 0 <= i < was.len() && was[i] == c.handle();
    assert(delivery_laws::was_offered(was[i], now[i], answer->Ok_0));
}

/// Whoever unsubscribed from a type is offered nothing that is then published to it.
pub proof fn unsubscribed_conn_is_offered_nothing(
    c: ConnView,
    r: RegistryView,
    msg_type: Seq<char>,
    now_ms: u64,
    key: Seq<char>,
    body: Seq<Seq<char>>,
    after: RegistryView,
    answer: Result<MessageView, RefusalView>,
    i: int,
)
    requires
        r.coherent(),
        registry::publishes(
            c.commanded(r, CommandView::Unsubscribe { msg_type }, now_ms).registry,
            msg_type,
            key,
            body,
            after,
            answer,
        ),
        after.subs.contains_key(msg_type),
        0 <= i < after.subs[msg_type].len(),
    ensures
        after.subs[msg_type][i].id != c.id,
{
    let told = c.commanded(r, CommandView::Unsubscribe { msg_type }, now_ms).registry;
    drop_laws::lemma_command_coherent(c, r, CommandView::Unsubscribe { msg_type }, now_ms);
    delivery_laws::published_message_is_delivered(told, msg_type, key, body, after, answer);
    let now = after.subs[msg_type];
    assert(told.subs.contains_key(msg_type));
    let was = told.subs[msg_type];
    if answer is Ok {
        assert(delivery_laws::was_offered(was[i], now[i], answer->Ok_0));
    }
    assert(was.contains(was[i]));
    assert(delivery_laws::subscribes(told, msg_type, was[i]));
    delivery_laws::unsubscribing_removes_the_conn(r, msg_type, c.id, msg_type, was[i]);
}

/// Whoever registered a type publishes to it with the key it was registered with, and
/// with no other key; registering it again with that key is granted, and with
/// another it is not, to anybody and at any time.
pub proof fn registered_key_publishes(
    c: ConnView,
    r: RegistryView,
    msg_type: Seq<char>,
    key: Seq<char>,
    now_ms: u64,
    other: ConnView,
    other_key: Seq<char>,
    later: u64,
)
    requires
        c.commanded(r, CommandView::Register { msg_type, key }, now_ms).reply.code == 210,
    ensures
        ({
            let told = c.commanded(r, CommandView::Register { msg_type, key }, now_ms).registry;
            let publish = CommandView::Publish { msg_type, key: other_key };
            let again = CommandView::Register { msg_type, key: other_key };
            &&& other.commanded(told, publish, later).reply.code == if other_key == key {
                354u16
            } else {
                441u16
            }
            &&& other.commanded(told, again, later).reply.code == if other_key == key {
                210u16
            } else {
                433u16
            }
            &&& other.commanded(told, again, later).registry == told
            &&& other.commanded(told, again, later).forward is None
        }),
{
    register_is_answered(c, r, msg_type, key, now_ms);
}

// --- step by step ---------------------------------------------------------------------------

/// Nothing but the drop counts of a connection differs, which are gone.
pub open spec fn only_drops_taken(a: RegistryView, b: RegistryView, conn: u64) -> bool {
    &&& b.daemon_id == a.daemon_id
    &&& b.seq == a.seq
    &&& b.types == a.types
    &&& b.subs == a.subs
    &&& b.seen == a.seen
    &&& b.drops == a.drops.filter(|d: DropView| d.conn != conn)
}

/// What a step between exchanges comes to. The drops that are due are told first.
/// With a complete line in the buffer, that line is taken off, without its
/// terminator, and acted on, and its reply is written; what follows it stays. A line
/// that is too long is answered 500, and closes the connection. Without a line
/// nothing else happens, and deliveries are in order.
pub proof fn command_step_takes_a_line(
    c: ConnView,
    r: RegistryView,
    now_ms: u64,
    c2: ConnView,
    r2: RegistryView,
    s: StepView,
)
    requires
        c.phase is Command,
        conn::steps(c, r, now_ms, c2, r2, s),
    ensures
        ({
            let due = conn::drop_notices(r.drops.filter(|d: DropView| d.conn == c.id));
            let told = r.drops_taken(c.id);
            let k = wire::find_lf(c.rbuf);
            let max = c.limits.max_command_line_bytes;
            &&& only_drops_taken(r, told, c.id)
            &&& k == c.rbuf.len() && wire::strip_cr(c.rbuf).len() <= max ==> {
                &&& c2 == c
                &&& r2 == told
                &&& s.output == due
                &&& s.forward is None
                &&& s.flow == Flow::Select
            }
            &&& k == c.rbuf.len() && wire::strip_cr(c.rbuf).len() > max || k < c.rbuf.len()
                && wire::strip_cr(c.rbuf.take(k as int)).len() > max ==> {
                &&& r2 == told
                &&& s.output == due + reply::status_line(500, "command line too long"@)
                &&& s.forward is None
                &&& s.flow == Flow::Close
            }
            &&& k < c.rbuf.len() && wire::strip_cr(c.rbuf.take(k as int)).len() <= max ==> {
                let left = ConnView { rbuf: c.rbuf.skip(k as int + 1), ..c };
                let line = text::lossy(wire::strip_cr(c.rbuf.take(k as int)));
                let h = left.handled(told, line, now_ms);
                &&& c2 == h.conn
                &&& r2 == h.registry
                &&& s.output == due + h.reply.encoded()
                &&& s.forward == h.forward
                &&& s.flow == h.flow
            }
        }),
{
    wire::lemma_find_lf(c.rbuf);
}

/// What a step within a message body comes to. Until its end has come, nothing is
/// written, published or passed on. At its end the connection awaits commands again.
/// A body that is too large is answered 452, one that is refused 430 or 441, and
/// neither is published or passed on. Any other is published: it is answered 250,
/// delivered to every subscriber of its type here, and passed on to the peers, as
/// one and the same message, whose lines are those of the body, all of them and
/// whatever they are.
pub proof fn body_step_publishes_and_passes_on(
    c: ConnView,
    r: RegistryView,
    now_ms: u64,
    c2: ConnView,
    r2: RegistryView,
    s: StepView,
    d: DraftView,
)
    requires
        r.coherent(),
        c.phase == PhaseView::Body(d),
        conn::steps(c, r, now_ms, c2, r2, s),
    ensures
        ({
            let (body, rest, got) = d.body.received(c.rbuf, c.limits);
            let known = r.types.contains_key(d.msg_type);
            let owned = known && r.types[d.msg_type].key == d.key;
            &&& c2.rbuf == rest
            &&& c2.id == c.id && c2.limits == c.limits && c2.subs == c.subs
            &&& c2.path == c.path && c2.inbox == c.inbox
            &&& got != Received::End ==> {
                &&& r2 == r
                &&& s.output.len() == 0
                &&& s.forward is None
                &&& s.flow == if got == Received::More {
                    Flow::Continue
                } else {
                    Flow::Read
                }
                &&& c2.phase is Body
                &&& c2.phase->0.msg_type == d.msg_type
                &&& c2.phase->0.key == d.key
                &&& c2.phase->0.body == body
            }
            &&& got == Received::End ==> c2.phase is Command && s.flow == Flow::Continue
            &&& got == Received::End && body.too_large ==> {
                &&& r2 == r
                &&& s.forward is None
                &&& s.output == reply::status_line(452, "message too large"@)
            }
            &&& got == Received::End && !body.too_large && !known ==> {
                &&& r2 == r
                &&& s.forward is None
                &&& s.output == reply::status_line(430, d.msg_type + " not registered"@)
            }
            &&& got == Received::End && !body.too_large && known && !owned ==> {
                &&& r2 == r
                &&& s.forward is None
                &&& s.output == reply::status_line(441, "authorization key mismatch"@)
            }
            &&& got == Received::End && !body.too_large && owned ==> {
                &&& s.output == reply::status_line(250, "message accepted"@)
                &&& s.forward is Some
                &&& s.forward->0 is Message
                &&& ({
                    let m = s.forward->0->Message_0;
                    &&& m.msg_type == d.msg_type
                    &&& m.body.len() == body.lines.len()
                    &&& forall|i: int|
                        0 <= i < body.lines.len() ==> m.body[i] == #[trigger] body.lines[i]
                    &&& m.origin == r.daemon_id
                    &&& m.msg_id == r.daemon_id + "-"@ + number::hex(r.seq as nat)
                    &&& r2.seq == (r.seq + 1) % 0x1_0000_0000_0000_0000
                    &&& r2.seen.has(m.msg_id)
                    &&& delivery_laws::delivered(r, r2, m)
                })
            }
        }),
{
    let outs = choose|outs: Seq<SendOutcome>|
        (c.phase matches PhaseView::Body(d) ==> outs.len() == r.listeners(d.msg_type).len())
            && #[trigger] c.stepped(r, now_ms, outs) == (c2, r2, s);
    let (body, rest, got) = d.body.received(c.rbuf, c.limits);
    let none = Seq::<char>::empty();
    if got == Received::End {
        assert(none + reply::status_line(452, "message too large"@) =~= reply::status_line(
            452,
            "message too large"@,
        ));
        assert(none + reply::status_line(430, d.msg_type + " not registered"@)
            =~= reply::status_line(430, d.msg_type + " not registered"@));
        assert(none + reply::status_line(441, "authorization key mismatch"@)
            =~= reply::status_line(441, "authorization key mismatch"@));
        assert(none + reply::status_line(250, "message accepted"@) =~= reply::status_line(
            250,
            "message accepted"@,
        ));
        if !body.too_large {
            let (after, answer) = r.published(d.msg_type, d.key, body.lines, outs);
            assert(registry::publishes(r, d.msg_type, d.key, body.lines, after, answer));
            delivery_laws::published_message_is_delivered(
                r,
                d.msg_type,
                d.key,
                body.lines,
                after,
                answer,
            );
        }
    }
}

/// A step within a message body passes a message on exactly where it ends a body that
/// is not too large and is published with the key of its registered type. It is then
/// the message that each subscriber here is offered: of the type of the publish, from
/// this daemon, and with the lines of the body, however many there are and whatever
/// they hold.
pub proof fn published_body_is_passed_on(
    c: ConnView,
    r: RegistryView,
    now_ms: u64,
    c2: ConnView,
    r2: RegistryView,
    s: StepView,
    d: DraftView,
)
    requires
        c.phase == PhaseView::Body(d),
        conn::steps(c, r, now_ms, c2, r2, s),
    ensures
        ({
            let (body, _, got) = d.body.received(c.rbuf, c.limits);
            &&& s.forward is Some <==> got == Received::End && !body.too_large
                && r.types.contains_key(d.msg_type) && r.types[d.msg_type].key == d.key
            &&& s.forward matches Some(f) ==> {
                &&& f is Message
                &&& f->Message_0.msg_type == d.msg_type
                &&& f->Message_0.origin == r.daemon_id
                &&& f->Message_0.body.len() == body.lines.len()
                &&& forall|i: int|
                    0 <= i < body.lines.len() ==> f->Message_0.body[i] == #[trigger] body.lines[i]
                &&& r2.listeners(d.msg_type).len() == r.listeners(d.msg_type).len()
                &&& forall|i: int|
                    0 <= i < r.listeners(d.msg_type).len() ==> delivery_laws::was_offered(
                        #[trigger] r.listeners(d.msg_type)[i],
                        r2.listeners(d.msg_type)[i],
                        f->Message_0,
                    )
            }
        }),
{
    let outs = choose|outs: Seq<SendOutcome>|
        (c.phase matches PhaseView::Body(d) ==> outs.len() == r.listeners(d.msg_type).len())
            && #[trigger] c.stepped(r, now_ms, outs) == (c2, r2, s);
    let (body, rest, got) = d.body.received(c.rbuf, c.limits);
    if got == Received::End && !body.too_large {
        let (after, answer) = r.published(d.msg_type, d.key, body.lines, outs);
        assert(registry::publishes(r, d.msg_type, d.key, body.lines, after, answer));
        if r.types.contains_key(d.msg_type) && r.types[d.msg_type].key == d.key {
            delivery_laws::published_lines_are_offered(
                r,
                d.msg_type,
                d.key,
                body.lines,
                after,
                answer,
            );
        }
    }
}

/// A step always has an outcome.
pub proof fn steps_exist(c: ConnView, r: RegistryView, now_ms: u64)
    ensures
        exists|c2: ConnView, r2: RegistryView, s: StepView|
            #[trigger] conn::steps(c, r, now_ms, c2, r2, s),
{
    let n = match c.phase {
        PhaseView::Command => 0nat,
        PhaseView::Body(d) => r.listeners(d.msg_type).len(),
    };
    let outs = Seq::new(n, |i: int| SendOutcome::Sent);
    let (c2, r2, s) = c.stepped(r, now_ms, outs);
    assert(conn::steps(c, r, now_ms, c2, r2, s));
}

// --- the beginning of a session ----------------------------------------------------------------

/// The greetings say who the daemon is, in what role, and what it speaks.
pub proof fn greeting_introduces_the_daemon(daemon_id: Seq<char>, role: Seq<char>)
    ensures
        crate::greeting_text(daemon_id, role) == "200 "@ + daemon_id + " "@ + role
            + " MBP/1.0 ready"@,
{
    reveal_strlit("200 ");
    reveal_strlit(" ");
    reveal_strlit("MBP/1.0");
    reveal_strlit(" ready");
    reveal_strlit(" MBP/1.0 ready");
    reveal_with_fuel(number::digits, 4);
    assert("200 "@ =~= number::decimal(200) + " "@);
    assert(" MBP/1.0 ready"@ =~= " "@ + "MBP/1.0"@ + " ready"@);
    assert(crate::greeting_text(daemon_id, role) =~= "200 "@ + daemon_id + " "@ + role
        + " MBP/1.0 ready"@);
}

/// A client is greeted by `macro-bus`, a peer by `macro-bus-peer`.
pub proof fn greetings_name_the_role(
    daemon_id: &str,
    to_client: String,
    to_peer: String,
    registry: &Registry,
    banner: String,
)
    requires
        call_ensures(crate::greeting, (daemon_id,), to_client),
        call_ensures(crate::peer_greeting, (daemon_id,), to_peer),
        call_ensures(Conn::banner, (registry,), banner),
    ensures
        to_client@ == "200 "@ + daemon_id@ + " "@ + "macro-bus"@ + " MBP/1.0 ready"@,
        to_peer@ == "200 "@ + daemon_id@ + " "@ + "macro-bus-peer"@ + " MBP/1.0 ready"@,
        banner@ == "200 "@ + registry@.daemon_id + " "@ + "macro-bus"@ + " MBP/1.0 ready"@
            + "\r\n"@,
{
    greeting_introduces_the_daemon(daemon_id@, "macro-bus"@);
    greeting_introduces_the_daemon(daemon_id@, "macro-bus-peer"@);
    greeting_introduces_the_daemon(registry@.daemon_id, "macro-bus"@);
}

/// Input that ends within a message body is an error; between exchanges it is not.
pub proof fn input_ends_between_exchanges(c: &Conn, e: Option<String>)
    requires
        call_ensures(Conn::end_of_input, (c,), e),
    ensures
        e is None <==> c@.phase is Command,
        e matches Some(why) ==> why@ == "eof during DATA body"@,
{
}

/// A connection that was just made has its id and its limits, no input, no
/// subscription, and awaits a command; its queue is the one that is delivered from,
/// and has the configured depth.
pub proof fn fresh_conn_awaits_a_command(id: u64, limits: Limits, queue: int, waker: int)
    ensures
        ({
            let c = ConnView::fresh(id, limits, queue, waker);
            &&& c.id == id
            &&& c.limits == limits
            &&& c.rbuf.len() == 0
            &&& c.subs.len() == 0
            &&& c.phase is Command
            &&& c.inbox == queue
            &&& c.path.queue == queue
            &&& c.path.depth == limits.queue_depth
            &&& c.path.waker == waker
        }),
{
}

/// Timestamps are the milliseconds since the epoch that have passed in full, of which
/// the low 64 bits count, and zero before the epoch.
pub proof fn timestamp_counts_milliseconds(secs: u64, nanos: u32)
    ensures
        conn::millis(Some((secs, nanos))) == ((secs * 1_000_000_000 + nanos) / 1_000_000)
            % 0x1_0000_0000_0000_0000,
        conn::millis(None) == 0,
{
    assert((secs * 1_000_000_000 + nanos) / 1_000_000 == secs * 1000 + nanos as int / 1_000_000);
}

/// Connection ids count up from one, and start over past the largest.
pub proof fn conn_ids_count_up(first: u64, n: nat)
    ensures
        conn::FIRST_CONN_ID == 1,
        conn::counted(first, 0) == first,
        conn::counted(first, n + 1) == (conn::counted(first, n) + 1) % 0x1_0000_0000_0000_0000,
{
    assert((n + 1 - 1) as nat == n);
}

} // verus!
