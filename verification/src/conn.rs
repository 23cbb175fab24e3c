//! Per-connection handling for the local client protocol.
//!
//! ## The session and the 1xx ordering guarantee
//!
//! A [`Conn`] is the state of one client connection. It does no input or output
//! of its own: its owner hands it the bytes that arrive ([`Conn::feed`]) and
//! calls [`Conn::step`], which takes one line off the read buffer, acts on it,
//! and says what to write and what to wait for next.
//!
//! Crucially, from the line of a command up to its final response, the body of
//! a `PUBLISH` included, a step never asks its owner to deliver from the
//! outbound queue. Asynchronous `1xx` pushes are therefore only ever written
//! *between* command/response exchanges, never in the middle of one.
use std::sync::Arc;

use tokio::sync::mpsc;
use tokio::sync::Notify;
use vstd::prelude::*;

use crate::body::Body;
use crate::body::BodyView;
use crate::body::Received;
use crate::command;
use crate::command::Command;
use crate::command::CommandView;
use crate::config::Limits;
use crate::frame;
use crate::message::Message;
use crate::message::MessageView;
use crate::number;
use crate::queue;
use crate::queue::ConnHandle;
use crate::queue::HandleView;
use crate::queue::Outbound;
use crate::queue::OutboundView;
use crate::queue::PathView;
use crate::queue::SendOutcome;
use crate::registry;
use crate::registry::DropView;
use crate::registry::Registry;
use crate::registry::RegistryView;
use crate::registry::TypeReg;
use crate::registry::TypeRegView;
use crate::registry_laws;
use crate::reply;
use crate::reply::Reply;
use crate::reply::ReplyView;
use crate::status;
use crate::text;
use crate::wire;
use crate::wire::LineTake;
use crate::wire::LineTakeView;
use crate::PROTOCOL_ID;

verus! {

broadcast use vstd::string::group_string_axioms;

// --- what goes to the cluster -------------------------------------------------------

/// Something that happened on this daemon and that its peers have to learn.
pub enum Forward {
    /// A message was published here.
    Message(Arc<Message>),
    /// A type registration was created or changed here.
    Registration(String, TypeReg),
}

/// The model of a [`Forward`].
pub enum ForwardView {
    Message(MessageView),
    Registration(Seq<char>, TypeRegView),
}

impl View for Forward {
    type V = ForwardView;

    open spec fn view(&self) -> ForwardView {
        match self {
            Forward::Message(m) => ForwardView::Message(m@),
            Forward::Registration(t, reg) => ForwardView::Registration(t@, reg@),
        }
    }
}

/// The view of an optional [`Forward`].
pub open spec fn forward_view(f: Option<Forward>) -> Option<ForwardView> {
    match f {
        Some(x) => Some(x@),
        None => None,
    }
}

/// The daemon's link to the cluster. In a standalone daemon this is absent.
pub trait Forwarder: Sized {
    /// Whether handing `f` over leads from this link to `after`.
    spec fn hands_over(self, f: ForwardView, after: Self) -> bool;

    /// Forward a message that was just published on this daemon to all peers.
    fn forward_local(&mut self, msg: Arc<Message>)
        ensures
            old(self).hands_over(ForwardView::Message(msg@), *final(self)),
    ;

    /// Propagate a newly-created or changed type registration to all peers.
    fn propagate_registration(&mut self, msg_type: String, reg: TypeReg)
        ensures
            old(self).hands_over(ForwardView::Registration(msg_type@, reg@), *final(self)),
    ;
}

/// Hand over to the cluster what a step leaves to be passed on.
pub fn pass_on<F: Forwarder>(link: &mut F, forward: Forward)
    ensures
        old(link).hands_over(forward@, *final(link)),
{
    match forward {
        Forward::Message(msg) => link.forward_local(msg),
        Forward::Registration(msg_type, reg) => link.propagate_registration(msg_type, reg),
    }
}

// --- the session's model --------------------------------------------------------------

/// A publish whose body is being received.
#[verifier::ext_equal]
pub struct DraftView {
    /// The type to publish to.
    pub msg_type: Seq<char>,
    /// The key that was presented.
    pub key: Seq<char>,
    /// The body so far.
    pub body: BodyView,
}

/// What a connection expects next.
pub enum PhaseView {
    /// A command line.
    Command,
    /// A line of a message body.
    Body(DraftView),
}

/// The model of a [`Conn`].
#[verifier::ext_equal]
pub struct ConnView {
    /// The connection's id.
    pub id: u64,
    /// The bounds that hold for it.
    pub limits: Limits,
    /// The bytes that arrived and are not handled yet.
    pub rbuf: Seq<u8>,
    /// The types it subscribed to.
    pub subs: Seq<Seq<char>>,
    /// What it expects next.
    pub phase: PhaseView,
    /// Where its subscriptions lead.
    pub path: PathView,
    /// The queue that its owner delivers from.
    pub inbox: int,
}

/// What the owner of a connection does after a step.
#[derive(Debug, Clone, Copy, PartialEq, Eq, Structural)]
pub enum Flow {
    /// Step again: more input may be buffered.
    Continue,
    /// Wait for input, for an outbound item or for a drop notice.
    Select,
    /// Wait for input, and for nothing else: an exchange is under way.
    Read,
    /// Close the connection.
    Close,
}

/// The model of a [`Step`].
#[verifier::ext_equal]
pub struct StepView {
    /// What to write to the client.
    pub output: Seq<char>,
    /// What to pass on to the cluster.
    pub forward: Option<ForwardView>,
    /// What to do next.
    pub flow: Flow,
}

/// A `102 DROP` notice.
pub open spec fn drop_notice(d: DropView) -> Seq<char> {
    reply::status_line(
        status::DROP,
        "DROP "@ + d.msg_type + " "@ + number::decimal(d.count as nat),
    )
}

/// A run of `102 DROP` notices.
pub open spec fn drop_notices(drops: Seq<DropView>) -> Seq<char>
    decreases drops.len(),
{
    if drops.len() == 0 {
        Seq::empty()
    } else {
        drop_notices(drops.drop_last()) + drop_notice(drops.last())
    }
}

/// The lines of the capability listing.
pub open spec fn capability_lines(limits: Limits) -> Seq<Seq<char>> {
    seq![
        "VERSION "@ + PROTOCOL_ID@,
        "MAXMSG "@ + number::decimal(limits.max_message_bytes as nat),
        "QUEUE "@ + number::decimal(limits.queue_depth as nat),
        "DROP-POLICY tail-drop"@,
        "PAYLOAD text"@,
        "TLS federation"@,
    ]
}

/// The lines of the help text.
pub open spec fn help_lines() -> Seq<Seq<char>> {
    seq![
        "REGISTER <type> <key>    claim a type (first-registrant wins)"@,
        "SUBSCRIBE <type>         start receiving a type (no key)"@,
        "UNSUBSCRIBE <type>       stop receiving a type"@,
        "PUBLISH <type> <key>     publish; then send body, end with '.'"@,
        "LIST TYPES               list known types"@,
        "CAPABILITIES             list capabilities"@,
        "HELP                     this help"@,
        "QUIT                     close the connection"@,
    ]
}

/// The names of the registered types, ascending.
pub open spec fn type_names(r: RegistryView) -> Seq<Seq<char>> {
    choose|names: Seq<Seq<char>>| registry::lists_names(names, r.types.dom())
}

impl DraftView {
    /// A publish of which no body line has arrived.
    pub open spec fn empty(msg_type: Seq<char>, key: Seq<char>) -> DraftView {
        DraftView { msg_type, key, body: BodyView::empty() }
    }
}

/// What a command line leads to.
#[verifier::ext_equal]
pub struct HandledView {
    pub conn: ConnView,
    pub registry: RegistryView,
    pub reply: ReplyView,
    pub forward: Option<ForwardView>,
    pub flow: Flow,
}

impl ConnView {
    /// A connection on which nothing happened yet: its subscriptions lead to the
    /// queue that its owner delivers from, which has the depth that is configured.
    pub open spec fn fresh(id: u64, limits: Limits, queue: int, waker: int) -> ConnView {
        ConnView {
            id,
            limits,
            rbuf: Seq::empty(),
            subs: Seq::empty(),
            phase: PhaseView::Command,
            path: PathView { queue, depth: limits.queue_depth as nat, waker },
            inbox: queue,
        }
    }

    /// A handle to the connection, through which nothing was offered yet, and no
    /// wake-up was made.
    pub open spec fn handle(self) -> HandleView {
        HandleView { id: self.id, path: self.path, offers: Seq::empty(), wakes: 0 }
    }

    /// The connection stays as it is and answers.
    pub open spec fn answers(self, r: RegistryView, reply: ReplyView) -> HandledView {
        HandledView { conn: self, registry: r, reply, forward: None, flow: Flow::Continue }
    }

    /// What a `REGISTER` leads to.
    pub open spec fn registers(
        self,
        r: RegistryView,
        msg_type: Seq<char>,
        key: Seq<char>,
        now_ms: u64,
    ) -> HandledView {
        let (after, outcome) = r.registered(msg_type, key, now_ms);
        match outcome {
            Ok(reg) => HandledView {
                forward: if reg.changed {
                    Some(ForwardView::Registration(msg_type, reg.reg))
                } else {
                    None
                },
                ..self.answers(
                    after,
                    ReplyView::line(status::REGISTERED, msg_type + " registered"@),
                )
            },
            Err(e) => self.answers(after, ReplyView::line(e.code, e.reason)),
        }
    }

    /// What a command leads to.
    pub open spec fn commanded(self, r: RegistryView, cmd: CommandView, now_ms: u64) -> HandledView {
        match cmd {
            CommandView::Quit => HandledView {
                flow: Flow::Close,
                ..self.answers(r, ReplyView::line(status::CLOSING, "closing connection"@))
            },
            CommandView::Capabilities => self.answers(
                r,
                ReplyView::listing(
                    status::INFO_FOLLOWS,
                    "capabilities follow"@,
                    capability_lines(self.limits),
                ),
            ),
            CommandView::Help => self.answers(
                r,
                ReplyView::listing(status::INFO_FOLLOWS, "help follows"@, help_lines()),
            ),
            CommandView::ListTypes => self.answers(
                r,
                ReplyView::listing(status::TYPE_LIST, "type list follows"@, type_names(r)),
            ),
            CommandView::Register { msg_type, key } => self.registers(r, msg_type, key, now_ms),
            CommandView::Subscribe { msg_type } => (ConnView {
                subs: text::with_name(self.subs, msg_type),
                ..self
            }).answers(
                r.subscribed(msg_type, self.handle()),
                ReplyView::line(status::SUBSCRIBED, "subscribed "@ + msg_type),
            ),
            CommandView::Unsubscribe { msg_type } => (ConnView {
                subs: text::without_name(self.subs, msg_type),
                ..self
            }).answers(
                r.unsubscribed(msg_type, self.id),
                ReplyView::line(status::UNSUBSCRIBED, "unsubscribed "@ + msg_type),
            ),
            CommandView::Publish { msg_type, key } => match r.refusal(msg_type, key) {
                Some(e) => self.answers(r, ReplyView::line(e.code, e.reason)),
                None => (ConnView {
                    phase: PhaseView::Body(DraftView::empty(msg_type, key)),
                    ..self
                }).answers(
                    r,
                    ReplyView::line(
                        status::START_BODY,
                        "enter message body; end with <CRLF>.<CRLF>"@,
                    ),
                ),
            },
        }
    }

    /// What a command line leads to.
    pub open spec fn handled(self, r: RegistryView, line: Seq<char>, now_ms: u64) -> HandledView {
        match command::parsed(line) {
            Err(e) => self.answers(r, ReplyView::line(e.code, e.reason)),
            Ok(cmd) => self.commanded(r, cmd, now_ms),
        }
    }

    /// What the end of a message body leads to.
    pub open spec fn finished(
        self,
        r: RegistryView,
        d: DraftView,
        outs: Seq<SendOutcome>,
    ) -> HandledView {
        let idle = ConnView { phase: PhaseView::Command, ..self };
        if d.body.too_large {
            idle.answers(r, ReplyView::line(status::TOO_LARGE, "message too large"@))
        } else {
            let (after, outcome) = r.published(d.msg_type, d.key, d.body.lines, outs);
            match outcome {
                Ok(msg) => HandledView {
                    forward: Some(ForwardView::Message(msg)),
                    ..idle.answers(after, ReplyView::line(status::ACCEPTED, "message accepted"@))
                },
                Err(e) => idle.answers(after, ReplyView::line(e.code, e.reason)),
            }
        }
    }

    /// A step that writes `before`, then the reply to a line.
    pub open spec fn replied(h: HandledView, before: Seq<char>) -> (
        ConnView,
        RegistryView,
        StepView,
    ) {
        (
            h.conn,
            h.registry,
            StepView { output: before + h.reply.encoded(), forward: h.forward, flow: h.flow },
        )
    }

    /// A step that writes nothing beyond `before`.
    pub open spec fn silent(self, r: RegistryView, before: Seq<char>, flow: Flow) -> (
        ConnView,
        RegistryView,
        StepView,
    ) {
        (self, r, StepView { output: before, forward: None, flow })
    }

    /// A step between exchanges: pending drop notices go out, and a buffered
    /// command line is handled.
    pub open spec fn stepped_command(self, r: RegistryView, now_ms: u64) -> (
        ConnView,
        RegistryView,
        StepView,
    ) {
        let notices = drop_notices(registry::drops_of(r.drops, self.id));
        let told = r.drops_taken(self.id);
        let (take, rest) = wire::taken(self.rbuf, self.limits.max_command_line_bytes as nat);
        let left = ConnView { rbuf: rest, ..self };
        match take {
            LineTakeView::Line(line) => Self::replied(
                left.handled(told, text::lossy(line), now_ms),
                notices,
            ),
            LineTakeView::TooLong => left.silent(
                told,
                notices + reply::status_line(status::SYNTAX, "command line too long"@),
                Flow::Close,
            ),
            LineTakeView::Need => left.silent(told, notices, Flow::Select),
        }
    }

    /// A step within a message body.
    pub open spec fn stepped_body(
        self,
        r: RegistryView,
        d: DraftView,
        outs: Seq<SendOutcome>,
    ) -> (ConnView, RegistryView, StepView) {
        let (body, rest, got) = d.body.received(self.rbuf, self.limits);
        let left = ConnView {
            rbuf: rest,
            phase: PhaseView::Body(DraftView { body, ..d }),
            ..self
        };
        match got {
            Received::End => Self::replied(
                left.finished(r, DraftView { body, ..d }, outs),
                Seq::empty(),
            ),
            Received::More => left.silent(r, Seq::empty(), Flow::Continue),
            Received::Wait => left.silent(r, Seq::empty(), Flow::Read),
        }
    }

    /// One step, with the outcomes of the offers that a publish makes.
    pub open spec fn stepped(self, r: RegistryView, now_ms: u64, outs: Seq<SendOutcome>) -> (
        ConnView,
        RegistryView,
        StepView,
    ) {
        match self.phase {
            PhaseView::Command => self.stepped_command(r, now_ms),
            PhaseView::Body(d) => self.stepped_body(r, d, outs),
        }
    }
}

/// Whether one step can lead from a connection and a registry to others: it
/// does for some outcomes of the offers to the subscribers, one each.
pub open spec fn steps(
    c: ConnView,
    r: RegistryView,
    now_ms: u64,
    c2: ConnView,
    r2: RegistryView,
    s: StepView,
) -> bool {
    exists|outs: Seq<SendOutcome>|
        (c.phase matches PhaseView::Body(d) ==> outs.len() == r.listeners(d.msg_type).len())
            && #[trigger] c.stepped(r, now_ms, outs) == (c2, r2, s)
}

// --- ids and the clock ------------------------------------------------------------------

/// Where the counter of connection ids starts.
pub const FIRST_CONN_ID: u64 = 1;

/// What a counter that starts at `first` stands at after `n` ids were allocated
/// from it, and so the id that is allocated then.
pub open spec fn counted(first: u64, n: nat) -> u64
    decreases n,
{
    if n == 0 {
        first
    } else {
        registry::next_seq(counted(first, (n - 1) as nat))
    }
}

/// Allocate a fresh connection id from a counter, which starts over past the
/// largest.
pub fn next_conn_id(counter: &mut u64) -> (id: u64)
    ensures
        id == *old(counter),
        *final(counter) == registry::next_seq(*old(counter)),
        forall|first: u64, n: nat| #[trigger]
            counted(first, n) == *old(counter) ==> *final(counter) == counted(first, n + 1),
{
    let id = *counter;
    *counter = id.wrapping_add(1);
    id
}

/// `std::time::SystemTime`, a reading of the system clock.
#[verifier::external_type_specification]
#[verifier::external_body]
pub struct ExSystemTime(std::time::SystemTime);

/// Read the clock with `std::time::SystemTime::now`. Nothing is stated of the
/// reading.
#[verifier::external_body]
fn system_time() -> (t: std::time::SystemTime) {
    std::time::SystemTime::now()
}

/// The time from the Unix epoch to a reading of the clock, in whole seconds and
/// the nanoseconds beyond them, with `std::time::SystemTime::duration_since`;
/// `None` where the reading lies before the epoch. The nanoseconds make up less
/// than a second. How long the time is, is not stated: it rests on the clock.
#[verifier::external_body]
fn since_epoch(t: std::time::SystemTime) -> (d: Option<(u64, u32)>)
    ensures
        d matches Some((_, nanos)) ==> nanos < 1_000_000_000,
{
    t.duration_since(std::time::UNIX_EPOCH).ok().map(|d| (d.as_secs(), d.subsec_nanos()))
}

/// The whole milliseconds of a time since the Unix epoch, of which a timestamp
/// holds the low 64 bits; zero before the epoch.
pub open spec fn millis(since: Option<(u64, u32)>) -> int {
    match since {
        Some((secs, nanos)) => (secs * 1000 + nanos as int / 1_000_000) % 0x1_0000_0000_0000_0000,
        None => 0,
    }
}

/// A time since the Unix epoch as a timestamp.
pub fn timestamp(since: Option<(u64, u32)>) -> (ms: u64)
    ensures
        ms == millis(since),
{
    match since {
        Some((secs, nanos)) => {
            let total: u128 = secs as u128 * 1000 + (nanos / 1_000_000) as u128;
            (total % 0x1_0000_0000_0000_0000) as u64
        },
        None => 0,
    }
}

/// Whether the system clock can be read as this long after the Unix epoch.
pub closed spec fn clock_reads(since: Option<(u64, u32)>) -> bool {
    exists|t: std::time::SystemTime| #[trigger]
        call_ensures(since_epoch, (t,), since) && call_ensures(system_time, (), t)
}

/// Wall-clock milliseconds since the Unix epoch: those of a reading of the system
/// clock. Which reading it is, is not stated: it rests on the clock.
pub fn now_ms() -> (ms: u64)
    ensures
        exists|since: Option<(u64, u32)>| #[trigger] clock_reads(since) && ms == millis(since),
{
    let t = system_time();
    let since = since_epoch(t);
    assert(clock_reads(since));
    timestamp(since)
}

// --- the session --------------------------------------------------------------------------

/// A publish whose body is being received.
struct Draft {
    msg_type: String,
    key: String,
    body: Body,
}

impl View for Draft {
    type V = DraftView;

    closed spec fn view(&self) -> DraftView {
        DraftView { msg_type: self.msg_type@, key: self.key@, body: self.body@ }
    }
}

/// What a connection expects next.
enum Phase {
    Command,
    Body(Draft),
}

impl View for Phase {
    type V = PhaseView;

    closed spec fn view(&self) -> PhaseView {
        match self {
            Phase::Command => PhaseView::Command,
            Phase::Body(d) => PhaseView::Body(d@),
        }
    }
}

/// A live client connection.
pub struct Conn {
    id: u64,
    limits: Limits,
    rbuf: Vec<u8>,
    subs: Vec<String>,
    phase: Phase,
    out_tx: mpsc::Sender<Outbound>,
    /// The outbound queue. Its owner takes an item out, and writes it as
    /// [`encode_outbound`] gives it, only where a step says [`Flow::Select`].
    pub out_rx: mpsc::Receiver<Outbound>,
    /// Woken when messages were dropped; waited for like [`Conn::out_rx`].
    pub drop_notify: Arc<Notify>,
}

impl View for Conn {
    type V = ConnView;

    closed spec fn view(&self) -> ConnView {
        ConnView {
            id: self.id,
            limits: self.limits,
            rbuf: self.rbuf@,
            subs: text::views(self.subs@),
            phase: self.phase@,
            path: PathView {
                queue: queue::fed_queue(self.out_tx),
                depth: queue::depth_of(self.out_tx),
                waker: queue::flag_of(self.drop_notify),
            },
            inbox: queue::read_queue(self.out_rx),
        }
    }
}

/// What the owner of a connection has to do after a step.
pub struct Step {
    /// What to write to the client.
    pub output: String,
    /// What to pass on to the cluster.
    pub forward: Option<Forward>,
    /// What to do next.
    pub flow: Flow,
}

impl View for Step {
    type V = StepView;

    open spec fn view(&self) -> StepView {
        StepView { output: self.output@, forward: forward_view(self.forward), flow: self.flow }
    }
}

/// A reply, with what else its command leads to.
struct Handled {
    reply: Reply,
    forward: Option<Forward>,
    flow: Flow,
}

impl Handled {
    fn reply(reply: Reply) -> (h: Self)
        ensures
            h.reply@ == reply@,
            h.forward is None,
            h.flow == Flow::Continue,
    {
        Handled { reply, forward: None, flow: Flow::Continue }
    }

    fn into_step(self, before: String) -> (s: Step)
        ensures
            s@ == (StepView {
                output: before@ + self.reply@.encoded(),
                forward: forward_view(self.forward),
                flow: self.flow,
            }),
    {
        let mut output = before;
        output.append(self.reply.encode().as_str());
        Step { output, forward: self.forward, flow: self.flow }
    }
}

fn silent(output: String, flow: Flow) -> (s: Step)
    ensures
        s@ == (StepView { output: output@, forward: None, flow }),
{
    Step { output, forward: None, flow }
}

/// What an outbound item is on the wire.
pub open spec fn outbound_text(out: OutboundView) -> Seq<char> {
    match out {
        OutboundView::Deliver(m) => m.delivery(),
        OutboundView::Note(s) => reply::status_line(status::NOTE, s),
    }
}

/// What to write to the client for an item of its outbound queue.
pub fn encode_outbound(out: &Outbound) -> (s: String)
    ensures
        s@ == outbound_text(out@),
{
    match out {
        Outbound::Deliver(msg) => msg.encode_delivery(),
        Outbound::Note(text) => reply::write_line(status::NOTE, text.as_str()),
    }
}

/// The lines of the capability listing.
fn write_capabilities(limits: &Limits) -> (lines: Vec<String>)
    ensures
        text::views(lines@) == capability_lines(*limits),
{
    let mut lines: Vec<String> = Vec::new();
    lines.push("VERSION ".to_string().concat(PROTOCOL_ID));
    lines.push(
        "MAXMSG ".to_string().concat(number::to_decimal(limits.max_message_bytes as u64).as_str()),
    );
    lines.push(
        "QUEUE ".to_string().concat(number::to_decimal(limits.queue_depth as u64).as_str()),
    );
    lines.push("DROP-POLICY tail-drop".to_string());
    lines.push("PAYLOAD text".to_string());
    lines.push("TLS federation".to_string());
    assert(text::views(lines@) =~= capability_lines(*limits));
    lines
}

/// The lines of the help text.
fn write_help() -> (lines: Vec<String>)
    ensures
        text::views(lines@) == help_lines(),
{
    let mut lines: Vec<String> = Vec::new();
    lines.push("REGISTER <type> <key>    claim a type (first-registrant wins)".to_string());
    lines.push("SUBSCRIBE <type>         start receiving a type (no key)".to_string());
    lines.push("UNSUBSCRIBE <type>       stop receiving a type".to_string());
    lines.push("PUBLISH <type> <key>     publish; then send body, end with '.'".to_string());
    lines.push("LIST TYPES               list known types".to_string());
    lines.push("CAPABILITIES             list capabilities".to_string());
    lines.push("HELP                     this help".to_string());
    lines.push("QUIT                     close the connection".to_string());
    assert(text::views(lines@) =~= help_lines());
    lines
}

/// The names of the registered types, ascending.
fn write_type_list(registry: &Registry) -> (lines: Vec<String>)
    requires
        registry.wf(),
    ensures
        text::views(lines@) == type_names(registry@),
{
    let lines = registry.list_types();
    proof {
        let r = registry@;
        registry_laws::listing_discloses_names_only(text::views(lines@), type_names(r), r, r);
    }
    lines
}

impl Conn {
    /// Create the session of an accepted connection. The queue depth has to be
    /// one that a queue can be made with.
    pub fn new(id: u64, limits: Limits) -> (c: Self)
        requires
            0 < limits.queue_depth <= usize::MAX / 8,
        ensures
            c@ == ConnView::fresh(id, limits, c@.inbox, c@.path.waker),
    {
        let (out_tx, out_rx) = queue::channel(limits.queue_depth);
        let c = Conn {
            id,
            limits,
            rbuf: Vec::new(),
            subs: Vec::new(),
            phase: Phase::Command,
            out_tx,
            out_rx,
            drop_notify: queue::new_flag(),
        };
        assert(c@ =~= ConnView::fresh(id, limits, c@.inbox, c@.path.waker));
        c
    }

    /// The connection's id.
    pub fn id(&self) -> (id: u64)
        ensures
            id == self@.id,
    {
        self.id
    }

    /// What the server writes first.
    pub fn banner(registry: &Registry) -> (s: String)
        ensures
            s@ == crate::greeting_text(registry@.daemon_id, "macro-bus"@) + frame::CRLF@,
    {
        crate::greeting(registry.daemon_id()).concat(frame::CRLF)
    }

    /// Take in bytes that arrived.
    pub fn feed(&mut self, bytes: &[u8])
        ensures
            final(self)@ == (ConnView { rbuf: old(self)@.rbuf + bytes@, ..old(self)@ }),
    {
        self.rbuf.extend_from_slice(bytes);
        assert(self@ =~= (ConnView { rbuf: old(self)@.rbuf + bytes@, ..old(self)@ }));
    }

    /// A handle to this connection's outbound path.
    pub fn conn_handle(&self) -> (h: ConnHandle)
        ensures
            h@ == self@.handle(),
    {
        ConnHandle {
            id: self.id,
            tx: queue::another_sender(&self.out_tx),
            drop_notify: queue::another_pointer(&self.drop_notify),
        }
    }

    /// The error that the end of the input is, if it is one: within a message
    /// body it is.
    pub fn end_of_input(&self) -> (e: Option<String>)
        ensures
            match self@.phase {
                PhaseView::Command => e is None,
                PhaseView::Body(_) => e is Some && e->0@ == "eof during DATA body"@,
            },
    {
        match &self.phase {
            Phase::Command => None,
            Phase::Body(_) => Some("eof during DATA body".to_string()),
        }
    }

    /// Clean up after the connection ended: it subscribes to nothing any more.
    pub fn finish(self, registry: &mut Registry)
        requires
            old(registry).wf(),
        ensures
            final(registry).wf(),
            final(registry)@ == old(registry)@.unsubscribed_all(
                self@.subs,
                self@.id,
            ).drops_taken(self@.id),
    {
        registry.remove_conn(self.id, &self.subs);
    }

    /// Emit any pending `102 DROP` notices for this connection.
    fn flush_drops(&self, registry: &mut Registry) -> (s: String)
        requires
            old(registry).wf(),
        ensures
            final(registry).wf(),
            final(registry)@ == old(registry)@.drops_taken(self@.id),
            s@ == drop_notices(registry::drops_of(old(registry)@.drops, self@.id)),
    {
        let pending = registry.take_drops(self.id);
        let ghost all = registry::pending_views(pending@, self.id);
        let mut out = String::new();
        let mut i: usize = 0;
        while i < pending.len()
            invariant
                i <= pending.len(),
                all == registry::pending_views(pending@, self.id),
                out@ == drop_notices(all.take(i as int)),
            decreases pending.len() - i,
        {
            let mut notice = "DROP ".to_string();
            notice.append(pending[i].0.as_str());
            notice.append(" ");
            notice.append(number::to_decimal(pending[i].1).as_str());
            out.append(reply::write_line(status::DROP, notice.as_str()).as_str());
            assert(all.take(i + 1).drop_last() =~= all.take(i as int));
            assert(all.take(i + 1).last() == all[i as int]);
            i += 1;
        }
        assert(all.take(i as int) =~= all);
        out
    }

    /// Handle one command line.
    fn handle_command(&mut self, registry: &mut Registry, line: &str, now_ms: u64) -> (h: Handled)
        requires
            old(registry).wf(),
            old(self)@.phase is Command,
        ensures
            final(registry).wf(),
            old(self)@.handled(old(registry)@, line@, now_ms) == (HandledView {
                conn: final(self)@,
                registry: final(registry)@,
                reply: h.reply@,
                forward: forward_view(h.forward),
                flow: h.flow,
            }),
    {
        let cmd = match command::parse(line) {
            Ok(c) => c,
            Err(e) => {
                return Handled::reply(Reply::line(e.code, e.reason.as_str()));
            },
        };
        match cmd {
            Command::Quit => Handled {
                reply: Reply::line(status::CLOSING, "closing connection"),
                forward: None,
                flow: Flow::Close,
            },
            Command::Capabilities => Handled::reply(
                Reply::listing(
                    status::INFO_FOLLOWS,
                    "capabilities follow",
                    write_capabilities(&self.limits),
                ),
            ),
            Command::Help => Handled::reply(
                Reply::listing(status::INFO_FOLLOWS, "help follows", write_help()),
            ),
            Command::ListTypes => Handled::reply(
                Reply::listing(status::TYPE_LIST, "type list follows", write_type_list(registry)),
            ),
            Command::Register { msg_type, key } => {
                match registry.register_local(msg_type.as_str(), key.as_str(), now_ms) {
                    Ok(reg) => {
                        let reply = Reply::line(
                            status::REGISTERED,
                            msg_type.clone().concat(" registered").as_str(),
                        );
                        let forward = if reg.changed {
                            Some(Forward::Registration(msg_type, reg.reg))
                        } else {
                            None
                        };
                        Handled { reply, forward, flow: Flow::Continue }
                    },
                    Err(e) => Handled::reply(Reply::line(e.code, e.reason.as_str())),
                }
            },
            Command::Subscribe { msg_type } => {
                registry.subscribe(msg_type.as_str(), self.conn_handle());
                text::add_name(&mut self.subs, msg_type.as_str());
                Handled::reply(
                    Reply::line(
                        status::SUBSCRIBED,
                        "subscribed ".to_string().concat(msg_type.as_str()).as_str(),
                    ),
                )
            },
            Command::Unsubscribe { msg_type } => {
                registry.unsubscribe(msg_type.as_str(), self.id);
                text::remove_name(&mut self.subs, msg_type.as_str());
                Handled::reply(
                    Reply::line(
                        status::UNSUBSCRIBED,
                        "unsubscribed ".to_string().concat(msg_type.as_str()).as_str(),
                    ),
                )
            },
            Command::Publish { msg_type, key } => self.handle_publish(registry, msg_type, key),
        }
    }

    /// Check a publish BEFORE inviting the body, so as to refuse it (430/441)
    /// instead of sending 354 and reading a body that is discarded.
    fn handle_publish(&mut self, registry: &Registry, msg_type: String, key: String) -> (h: Handled)
        requires
            registry.wf(),
            old(self)@.phase is Command,
        ensures
            old(self)@.commanded(
                registry@,
                (CommandView::Publish { msg_type: msg_type@, key: key@ }),
                0,
            ) == (HandledView {
                conn: final(self)@,
                registry: registry@,
                reply: h.reply@,
                forward: forward_view(h.forward),
                flow: h.flow,
            }),
    {
        match registry.publish_precheck(msg_type.as_str(), key.as_str()) {
            Some(e) => Handled::reply(Reply::line(e.code, e.reason.as_str())),
            None => {
                self.phase = Phase::Body(Draft { msg_type, key, body: Body::new() });
                Handled::reply(
                    Reply::line(status::START_BODY, "enter message body; end with <CRLF>.<CRLF>"),
                )
            },
        }
    }

    /// Publish a message whose body is complete, or refuse one that is too large.
    fn finish_body(&mut self, registry: &mut Registry, draft: Draft) -> (r: (
        Handled,
        Ghost<Seq<SendOutcome>>,
    ))
        requires
            old(registry).wf(),
            old(self)@.phase is Command,
        ensures
            final(registry).wf(),
            r.1@.len() == old(registry)@.listeners(draft@.msg_type).len(),
            old(self)@.finished(old(registry)@, draft@, r.1@) == (HandledView {
                conn: final(self)@,
                registry: final(registry)@,
                reply: r.0.reply@,
                forward: forward_view(r.0.forward),
                flow: r.0.flow,
            }),
    {
        let ghost none = Seq::new(
            registry@.listeners(draft@.msg_type).len(),
            |i: int| SendOutcome::Sent,
        );
        let lines = match draft.body.into_lines() {
            Some(lines) => lines,
            None => {
                return (
                    Handled::reply(Reply::line(status::TOO_LARGE, "message too large")),
                    Ghost(none),
                );
            },
        };
        let ghost body = text::views(lines@);
        let ghost before = registry@;
        match registry.publish_local(draft.msg_type.as_str(), draft.key.as_str(), lines) {
            Ok(msg) => {
                let ghost outs = choose|outs: Seq<SendOutcome>|
                    outs.len() == before.listeners(draft@.msg_type).len()
                        && #[trigger] before.published(draft@.msg_type, draft@.key, body, outs)
                        == (registry@, Ok::<MessageView, registry::RefusalView>(msg@));
                (
                    Handled {
                        reply: Reply::line(status::ACCEPTED, "message accepted"),
                        forward: Some(Forward::Message(msg)),
                        flow: Flow::Continue,
                    },
                    Ghost(outs),
                )
            },
            Err(e) => {
                assert(before.published(draft@.msg_type, draft@.key, body, none) == (
                    registry@,
                    Err::<MessageView, registry::RefusalView>(e@),
                ));
                (Handled::reply(Reply::line(e.code, e.reason.as_str())), Ghost(none))
            },
        }
    }

    /// A step between exchanges.
    fn step_command(&mut self, registry: &mut Registry, now_ms: u64) -> (s: Step)
        requires
            old(registry).wf(),
            old(self)@.phase is Command,
        ensures
            final(registry).wf(),
            old(self)@.stepped_command(old(registry)@, now_ms) == (
                final(self)@,
                final(registry)@,
                s@,
            ),
    {
        let notices = self.flush_drops(registry);
        let max = self.limits.max_command_line_bytes;
        match wire::take_line(&mut self.rbuf, max) {
            LineTake::Line(line) => {
                let text = text::utf8_lossy(line.as_slice());
                let h = self.handle_command(registry, text.as_str(), now_ms);
                h.into_step(notices)
            },
            LineTake::TooLong => {
                let line = reply::write_line(status::SYNTAX, "command line too long");
                silent(notices.concat(line.as_str()), Flow::Close)
            },
            LineTake::Need => silent(notices, Flow::Select),
        }
    }

    /// A step within a message body.
    fn step_body(&mut self, registry: &mut Registry, draft: Draft) -> (r: (
        Step,
        Ghost<Seq<SendOutcome>>,
    ))
        requires
            old(registry).wf(),
            old(self)@.phase is Command,
        ensures
            final(registry).wf(),
            r.1@.len() == old(registry)@.listeners(draft@.msg_type).len(),
            (ConnView { phase: PhaseView::Body(draft@), ..old(self)@ }).stepped_body(
                old(registry)@,
                draft@,
                r.1@,
            ) == (final(self)@, final(registry)@, r.0@),
    {
        let ghost none = Seq::new(
            registry@.listeners(draft@.msg_type).len(),
            |i: int| SendOutcome::Sent,
        );
        let mut draft = draft;
        match draft.body.receive(&mut self.rbuf, &self.limits) {
            Received::End => {
                let (h, outs) = self.finish_body(registry, draft);
                (h.into_step(String::new()), outs)
            },
            Received::More => {
                self.phase = Phase::Body(draft);
                (silent(String::new(), Flow::Continue), Ghost(none))
            },
            Received::Wait => {
                self.phase = Phase::Body(draft);
                (silent(String::new(), Flow::Read), Ghost(none))
            },
        }
    }

    /// Take one line off the read buffer and act on it, or find that there is
    /// none, at wall-clock time `now_ms`.
    pub fn step(&mut self, registry: &mut Registry, now_ms: u64) -> (s: Step)
        requires
            old(registry).wf(),
        ensures
            final(registry).wf(),
            steps(
                old(self)@,
                old(registry)@,
                now_ms,
                final(self)@,
                final(registry)@,
                s@,
            ),
    {
        let mut phase = Phase::Command;
        std::mem::swap(&mut self.phase, &mut phase);
        match phase {
            Phase::Command => {
                let s = self.step_command(registry, now_ms);
                assert(old(self)@.stepped(old(registry)@, now_ms, Seq::empty()) == (
                    self@,
                    registry@,
                    s@,
                ));
                s
            },
            Phase::Body(draft) => {
                assert((ConnView { phase: PhaseView::Body(draft@), ..self@ }) == old(self)@);
                let (s, Ghost(outs)) = self.step_body(registry, draft);
                assert(old(self)@.stepped(old(registry)@, now_ms, outs) == (
                    self@,
                    registry@,
                    s@,
                ));
                s
            },
        }
    }
}

} // verus!
