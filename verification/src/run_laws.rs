//! What holds of a client connection over a whole run.
use vstd::prelude::*;

use crate::body;
use crate::body::Received;
use crate::conn;
use crate::conn::ConnView;
use crate::conn::DraftView;
use crate::conn::Flow;
use crate::conn::PhaseView;
use crate::conn::StepView;
use crate::exchange_laws;
use crate::queue::OutboundView;
use crate::queue::SendOutcome;
use crate::registry;
use crate::registry::DropView;
use crate::registry::RegistryView;
use crate::reply::ReplyView;
use crate::session_laws;
use crate::status;
use crate::wire;

verus! {

broadcast use vstd::string::group_string_axioms;

// --- input in pieces -------------------------------------------------------------------

/// One step, as [`ConnView::stepped`] gives it.
#[verifier::opaque]
pub open spec fn one_step(
    c: ConnView,
    r: RegistryView,
    now_ms: u64,
    outs: Seq<SendOutcome>,
) -> (ConnView, RegistryView, StepView) {
    c.stepped(r, now_ms, outs)
}

/// Steps until the connection waits or closes: the connection, the registry, what
/// was written and what is to be done next. What becomes of the offers that a
/// publish makes is given by the sequence number that it takes.
pub open spec fn served(
    c: ConnView,
    r: RegistryView,
    now_ms: u64,
    outs: spec_fn(u64) -> Seq<SendOutcome>,
) -> (ConnView, RegistryView, Seq<char>, Flow)
    decreases c.rbuf.len(),
{
    let (c1, r1, s) = one_step(c, r, now_ms, outs(r.seq));
    if s.flow == Flow::Continue && c1.rbuf.len() < c.rbuf.len() {
        let (c2, r2, more, flow) = served(c1, r1, now_ms, outs);
        (c2, r2, s.output + more, flow)
    } else {
        (c1, r1, s.output, s.flow)
    }
}

/// The connection once more input has come.
pub open spec fn with_input(c: ConnView, more: Seq<u8>) -> ConnView {
    ConnView { rbuf: c.rbuf + more, ..c }
}

/// Of the counts of a connection that were taken, none is left, and to take them
/// again changes nothing.
pub proof fn lemma_taken_twice(r: RegistryView, id: u64)
    ensures
        registry::drops_of(r.drops_taken(id).drops, id) == Seq::<DropView>::empty(),
        conn::drop_notices(registry::drops_of(r.drops_taken(id).drops, id)) == Seq::<char>::empty(),
        r.drops_taken(id).drops_taken(id) == r.drops_taken(id),
{
    lemma_filtered_out(r.drops, id);
    assert(r.drops_taken(id).drops_taken(id) =~= r.drops_taken(id));
}

proof fn lemma_filtered_out(drops: Seq<DropView>, id: u64)
    ensures
        registry::drops_of(registry::drops_without(drops, id), id) == Seq::<DropView>::empty(),
        registry::drops_without(registry::drops_without(drops, id), id) == registry::drops_without(
            drops,
            id,
        ),
    decreases drops.len(),
{
    reveal(Seq::filter);
    let kept = registry::drops_without(drops, id);
    if drops.len() > 0 {
        let head = drops.drop_last();
        lemma_filtered_out(head, id);
        if drops.last().conn != id {
            assert(kept.drop_last() =~= registry::drops_without(head, id));
            assert(kept.last() == drops.last());
        }
    }
}

/// A step that goes on took a complete line, and is the same whatever follows it.
proof fn lemma_step_in_pieces(
    c: ConnView,
    r: RegistryView,
    more: Seq<u8>,
    now_ms: u64,
    outs: Seq<SendOutcome>,
)
    ensures
        ({
            let (c1, r1, s) = one_step(c, r, now_ms, outs);
            &&& s.flow == Flow::Continue ==> c1.rbuf.len() < c.rbuf.len() && one_step(
                with_input(c, more),
                r,
                now_ms,
                outs,
            ) == (with_input(c1, more), r1, s)
            &&& s.flow == Flow::Close ==> ({
                let (c2, r2, s2) = one_step(with_input(c, more), r, now_ms, outs);
                r2 == r1 && s2 == s
            })
        }),
{
    reveal(one_step);
    let whole = with_input(c, more);
    match c.phase {
        PhaseView::Command => {
            let max = c.limits.max_command_line_bytes as nat;
            wire::lines_do_not_depend_on_pieces(c.rbuf, more, max);
            wire::lemma_find_lf(c.rbuf);
            let (take, rest) = wire::taken(c.rbuf, max);
            let left = ConnView { rbuf: rest, ..c };
            if let wire::LineTakeView::Line(line) = take {
                let told = r.drops_taken(c.id);
                let text = crate::text::lossy(line);
                assert(ConnView { rbuf: rest + more, ..whole } == with_input(left, more));
                assert(with_input(left, more).handled(told, text, now_ms) == (conn::HandledView {
                    conn: with_input(left.handled(told, text, now_ms).conn, more),
                    ..left.handled(told, text, now_ms)
                }));
            }
        },
        PhaseView::Body(d) => {
            body::body_line_does_not_depend_on_pieces(d.body, c.rbuf, more, c.limits);
            body::lemma_received_shrinks(d.body, c.rbuf, c.limits);
            let (b, rest, got) = d.body.received(c.rbuf, c.limits);
            let d1 = DraftView { body: b, ..d };
            let left = ConnView { rbuf: rest, phase: PhaseView::Body(d1), ..c };
            assert(ConnView { rbuf: rest + more, phase: PhaseView::Body(d1), ..whole }
                == with_input(left, more));
            if got == Received::End {
                assert(with_input(left, more).finished(r, d1, outs) == (conn::HandledView {
                    conn: with_input(left.finished(r, d1, outs).conn, more),
                    ..left.finished(r, d1, outs)
                }));
            }
        },
    }
}

/// After a step that waits, the connection goes on as if the input that comes had
/// been there before.
proof fn lemma_wait_in_pieces(
    c: ConnView,
    r: RegistryView,
    more: Seq<u8>,
    now_ms: u64,
    outs: Seq<SendOutcome>,
)
    ensures
        ({
            let (c1, r1, s) = one_step(c, r, now_ms, outs);
            let (c2, r2, s2) = one_step(with_input(c1, more), r1, now_ms, outs);
            let (c3, r3, s3) = one_step(with_input(c, more), r, now_ms, outs);
            s.flow == Flow::Select || s.flow == Flow::Read ==> {
                &&& r1.seq == r.seq
                &&& c3 == c2
                &&& r3 == r2
                &&& s3.output == s.output + s2.output
                &&& s3.forward == s2.forward
                &&& s3.flow == s2.flow
            }
        }),
{
    reveal(one_step);
    let (c1, r1, s) = one_step(c, r, now_ms, outs);
    let (c2, r2, s2) = one_step(with_input(c1, more), r1, now_ms, outs);
    match c.phase {
        PhaseView::Command => {
            lemma_taken_twice(r, c.id);
            if s.flow == Flow::Select {
                assert(c1 == c);
                let (take, rest) = wire::taken(
                    c.rbuf + more,
                    c.limits.max_command_line_bytes as nat,
                );
                let none = Seq::<char>::empty();
                match take {
                    wire::LineTakeView::Line(line) => {
                        let h = (ConnView { rbuf: rest, ..c }).handled(
                            r.drops_taken(c.id),
                            crate::text::lossy(line),
                            now_ms,
                        );
                        assert(s.output + (none + h.reply.encoded()) =~= s.output
                            + h.reply.encoded());
                    },
                    wire::LineTakeView::TooLong => {
                        let line = crate::reply::status_line(
                            crate::status::SYNTAX,
                            "command line too long"@,
                        );
                        assert(s.output + (none + line) =~= s.output + line);
                    },
                    wire::LineTakeView::Need => {
                        assert(s.output + none =~= s.output);
                    },
                }
            }
        },
        PhaseView::Body(d) => {
            body::body_line_does_not_depend_on_pieces(d.body, c.rbuf, more, c.limits);
            if s.flow == Flow::Read {
                assert(s.output + s2.output =~= s2.output);
            }
        },
    }
}

/// A session does not depend on how its input was split: to serve a connection,
/// let more input come and serve it again leads to the same connection, the same
/// registry and the same output as to serve it once with all of the input. Where
/// it closes before that input comes, it closes in the same way with it.
pub proof fn session_does_not_depend_on_pieces(
    c: ConnView,
    r: RegistryView,
    more: Seq<u8>,
    now_ms: u64,
    outs: spec_fn(u64) -> Seq<SendOutcome>,
)
    ensures
        ({
            let (c1, r1, out1, flow1) = served(c, r, now_ms, outs);
            let (c2, r2, out2, flow2) = served(with_input(c1, more), r1, now_ms, outs);
            let (c3, r3, out3, flow3) = served(with_input(c, more), r, now_ms, outs);
            if flow1 == Flow::Close {
                r3 == r1 && out3 == out1 && flow3 == Flow::Close
            } else {
                c3 == c2 && r3 == r2 && out3 == out1 + out2 && flow3 == flow2
            }
        }),
    decreases c.rbuf.len(),
{
    let (c1, r1, s) = one_step(c, r, now_ms, outs(r.seq));
    lemma_step_in_pieces(c, r, more, now_ms, outs(r.seq));
    if s.flow == Flow::Continue {
        session_does_not_depend_on_pieces(c1, r1, more, now_ms, outs);
        let (e1, q1, o1, f1) = served(c1, r1, now_ms, outs);
        let (e2, q2, o2, f2) = served(with_input(e1, more), q1, now_ms, outs);
        assert(s.output + (o1 + o2) =~= (s.output + o1) + o2);
    } else if s.flow != Flow::Close {
        lemma_wait_in_pieces(c, r, more, now_ms, outs(r.seq));
        let (c2, r2, s2) = one_step(with_input(c1, more), r1, now_ms, outs(r1.seq));
        if s2.flow == Flow::Continue {
            lemma_step_in_pieces(with_input(c1, more), r1, Seq::empty(), now_ms, outs(r1.seq));
            lemma_step_in_pieces(with_input(c, more), r, Seq::empty(), now_ms, outs(r.seq));
            let (e2, q2, o2, f2) = served(c2, r2, now_ms, outs);
            assert(s.output + (s2.output + o2) =~= (s.output + s2.output) + o2);
        }
    }
}

// --- the response discipline --------------------------------------------------------------

/// What happens on a connection, as far as its output is concerned.
pub enum MarkView {
    /// A command line was taken from the input.
    Taken,
    /// A push was written.
    Pushed(Seq<char>),
    /// A reply was written.
    Replied(ReplyView),
}

/// What a mark adds to the output.
pub open spec fn mark_text(m: MarkView) -> Seq<char> {
    match m {
        MarkView::Taken => Seq::empty(),
        MarkView::Pushed(text) => text,
        MarkView::Replied(reply) => reply.encoded(),
    }
}

/// What a run of marks adds to the output.
pub open spec fn marks_text(marks: Seq<MarkView>) -> Seq<char>
    decreases marks.len(),
{
    if marks.len() == 0 {
        Seq::empty()
    } else {
        marks_text(marks.drop_last()) + mark_text(marks.last())
    }
}

/// The pushes that drop notices are.
pub open spec fn notice_marks(drops: Seq<DropView>) -> Seq<MarkView> {
    drops.map_values(|d: DropView| MarkView::Pushed(conn::drop_notice(d)))
}

/// What happens in a step: the drop notices that are due go out, a command line is
/// taken if one is there, and then its reply is written; or the reply at the end of
/// a message body is.
#[verifier::opaque]
pub open spec fn step_marks(
    c: ConnView,
    r: RegistryView,
    now_ms: u64,
    outs: Seq<SendOutcome>,
) -> Seq<MarkView> {
    let answer = match exchange_laws::step_reply(c, r, now_ms, outs) {
        Some(reply) => seq![MarkView::Replied(reply)],
        None => Seq::empty(),
    };
    if c.phase is Command {
        notice_marks(registry::drops_of(r.drops, c.id)) + (if answer.len() > 0 {
            seq![MarkView::Taken] + answer
        } else {
            Seq::empty()
        })
    } else {
        answer
    }
}

/// What the owner of a connection may do next.
pub enum GateView {
    /// Hand over input, and step.
    Step,
    /// Deliver from the outbound queue, too.
    Deliver,
    /// Nothing: the connection is closed.
    Closed,
}

/// A connection that is served: its state, what its owner may do next, what
/// happened on it and what was written.
pub struct SessionView {
    pub conn: ConnView,
    pub gate: GateView,
    pub marks: Seq<MarkView>,
    pub output: Seq<char>,
}

/// One thing that the owner of a connection does.
pub enum TurnView {
    /// It steps, with the registry as it is then.
    Step { r: RegistryView, now_ms: u64, outs: Seq<SendOutcome> },
    /// It hands over input.
    Input(Seq<u8>),
    /// It delivers an item of the outbound queue.
    Deliver(OutboundView),
}

impl SessionView {
    /// A connection that was just accepted, and greeted.
    pub open spec fn start(c: ConnView, greeting: Seq<char>) -> SessionView {
        SessionView { conn: c, gate: GateView::Step, marks: Seq::empty(), output: greeting }
    }

    /// Whether a turn is in order: deliveries are, only where the last step said
    /// [`Flow::Select`].
    pub open spec fn allows(self, turn: TurnView) -> bool {
        match turn {
            TurnView::Deliver(_) => self.gate is Deliver,
            _ => !(self.gate is Closed),
        }
    }

    /// The session after a turn.
    pub open spec fn after(self, turn: TurnView) -> SessionView {
        match turn {
            TurnView::Step { r, now_ms, outs } => {
                let (c2, _, s) = one_step(self.conn, r, now_ms, outs);
                SessionView {
                    conn: c2,
                    gate: match s.flow {
                        Flow::Select => GateView::Deliver,
                        Flow::Close => GateView::Closed,
                        _ => GateView::Step,
                    },
                    marks: self.marks + step_marks(self.conn, r, now_ms, outs),
                    output: self.output + s.output,
                }
            },
            TurnView::Input(bytes) => SessionView { conn: with_input(self.conn, bytes), ..self },
            TurnView::Deliver(item) => {
                let text = conn::outbound_text(item);
                SessionView {
                    marks: self.marks.push(MarkView::Pushed(text)),
                    output: self.output + text,
                    ..self
                }
            },
        }
    }

    /// The session after a run of turns.
    pub open spec fn after_all(self, turns: Seq<TurnView>) -> SessionView
        decreases turns.len(),
    {
        if turns.len() == 0 {
            self
        } else {
            self.after_all(turns.drop_last()).after(turns.last())
        }
    }

    /// Whether every turn of a run is in order.
    pub open spec fn allows_all(self, turns: Seq<TurnView>) -> bool
        decreases turns.len(),
    {
        turns.len() > 0 ==> self.allows_all(turns.drop_last()) && self.after_all(
            turns.drop_last(),
        ).allows(turns.last())
    }
}

/// Where a connection stands between commands and replies.
#[derive(PartialEq, Eq, Structural)]
pub enum StageView {
    /// Between exchanges.
    Between,
    /// A command line was taken, and nothing is answered yet.
    Taken,
    /// A message body was invited, and its final reply is to come.
    Invited,
}

/// Where one more mark leads, if it is in order. Pushes and command lines are,
/// between exchanges only. To a command the reply is final, or it invites a body,
/// to which the reply is final.
pub open spec fn stage_after(stage: StageView, m: MarkView) -> Option<StageView> {
    match (stage, m) {
        (StageView::Between, MarkView::Pushed(_)) => Some(StageView::Between),
        (StageView::Between, MarkView::Taken) => Some(StageView::Taken),
        (StageView::Taken, MarkView::Replied(reply)) => if reply.code == status::START_BODY {
            Some(StageView::Invited)
        } else {
            Some(StageView::Between)
        },
        (StageView::Invited, MarkView::Replied(reply)) => if reply.code == status::START_BODY {
            None
        } else {
            Some(StageView::Between)
        },
        _ => None,
    }
}

/// Where a run of marks leads, if all of them are in order.
pub open spec fn stage_of(marks: Seq<MarkView>) -> Option<StageView>
    decreases marks.len(),
{
    if marks.len() == 0 {
        Some(StageView::Between)
    } else {
        match stage_of(marks.drop_last()) {
            Some(stage) => stage_after(stage, marks.last()),
            None => None,
        }
    }
}

/// The stage that a connection's phase stands for.
pub open spec fn stage_in(c: ConnView) -> StageView {
    if c.phase is Command {
        StageView::Between
    } else {
        StageView::Invited
    }
}

proof fn lemma_marks_text_concat(a: Seq<MarkView>, b: Seq<MarkView>)
    ensures
        marks_text(a + b) == marks_text(a) + marks_text(b),
    decreases b.len(),
{
    if b.len() == 0 {
        assert(a + b =~= a);
        assert(marks_text(a) + marks_text(b) =~= marks_text(a));
    } else {
        assert((a + b).drop_last() =~= a + b.drop_last());
        assert((a + b).last() == b.last());
        lemma_marks_text_concat(a, b.drop_last());
        assert(marks_text(a + b) =~= marks_text(a) + marks_text(b));
    }
}

proof fn lemma_notice_marks(drops: Seq<DropView>)
    ensures
        marks_text(notice_marks(drops)) == conn::drop_notices(drops),
    decreases drops.len(),
{
    if drops.len() > 0 {
        lemma_notice_marks(drops.drop_last());
        assert(notice_marks(drops).drop_last() =~= notice_marks(drops.drop_last()));
        assert(notice_marks(drops).last() == MarkView::Pushed(conn::drop_notice(drops.last())));
    }
}

proof fn lemma_notices_in_order(marks: Seq<MarkView>, drops: Seq<DropView>)
    requires
        stage_of(marks) == Some(StageView::Between),
    ensures
        stage_of(marks + notice_marks(drops)) == Some(StageView::Between),
    decreases drops.len(),
{
    let all = marks + notice_marks(drops);
    if drops.len() == 0 {
        assert(all =~= marks);
    } else {
        lemma_notices_in_order(marks, drops.drop_last());
        assert(all.drop_last() =~= marks + notice_marks(drops.drop_last()));
        assert(all.last() == MarkView::Pushed(conn::drop_notice(drops.last())));
    }
}

/// The output of a step is what happened in it, and a step that lets its owner
/// deliver leaves the connection between exchanges.
proof fn lemma_step_text(c: ConnView, r: RegistryView, now_ms: u64, outs: Seq<SendOutcome>)
    ensures
        ({
            let (c2, _, s) = one_step(c, r, now_ms, outs);
            &&& s.output == marks_text(step_marks(c, r, now_ms, outs))
            &&& s.flow == Flow::Select ==> c2.phase is Command
        }),
{
    reveal(one_step);
    reveal(step_marks);
    let marks = step_marks(c, r, now_ms, outs);
    let none = Seq::<MarkView>::empty();
    let due = registry::drops_of(r.drops, c.id);
    session_laws::lemma_step_output(c, r, now_ms, outs);
    match exchange_laws::step_reply(c, r, now_ms, outs) {
        Some(reply) => {
            let one = seq![MarkView::Replied(reply)];
            assert(one.drop_last() =~= none);
            assert(marks_text(none) =~= Seq::<char>::empty());
            assert(marks_text(one) =~= reply.encoded());
            let taken = seq![MarkView::Taken];
            assert(taken.drop_last() =~= none);
            assert(marks_text(taken) =~= Seq::<char>::empty());
            lemma_marks_text_concat(taken, one);
            assert(marks_text(taken + one) =~= reply.encoded());
            if c.phase is Command {
                lemma_notice_marks(due);
                lemma_marks_text_concat(notice_marks(due), taken + one);
            } else {
                assert(Seq::<char>::empty() + reply.encoded() =~= reply.encoded());
            }
        },
        None => {
            if c.phase is Command {
                lemma_notice_marks(due);
                assert(notice_marks(due) + none =~= notice_marks(due));
                assert(conn::drop_notices(due) + Seq::<char>::empty() =~= conn::drop_notices(due));
            }
        },
    }
}

/// What happens in a step is in order where it happens.
proof fn lemma_step_in_order(
    c: ConnView,
    r: RegistryView,
    now_ms: u64,
    outs: Seq<SendOutcome>,
    marks: Seq<MarkView>,
)
    requires
        stage_of(marks) == Some(stage_in(c)),
    ensures
        stage_of(marks + step_marks(c, r, now_ms, outs)) == Some(
            stage_in(one_step(c, r, now_ms, outs).0),
        ),
{
    reveal(one_step);
    reveal(step_marks);
    let due = registry::drops_of(r.drops, c.id);
    session_laws::lemma_step_stage(c, r, now_ms, outs);
    let all = marks + step_marks(c, r, now_ms, outs);
    match exchange_laws::step_reply(c, r, now_ms, outs) {
        Some(reply) => {
            let last = MarkView::Replied(reply);
            if c.phase is Command {
                lemma_notices_in_order(marks, due);
                let told = marks + notice_marks(due);
                let taken = told.push(MarkView::Taken);
                assert(taken.drop_last() =~= told);
                assert(stage_of(taken) == Some(StageView::Taken));
                assert(all =~= taken.push(last));
                assert(all.drop_last() =~= taken);
            } else {
                assert(all =~= marks.push(last));
                assert(all.drop_last() =~= marks);
            }
        },
        None => {
            if c.phase is Command {
                lemma_notices_in_order(marks, due);
                assert(all =~= marks + notice_marks(due));
            } else {
                assert(all =~= marks);
            }
        },
    }
}

/// The response discipline, over a whole session: whatever commands come, in
/// whatever pieces, and whatever is delivered wherever delivering is in order, the
/// output is the greeting and then whole units only, which are pushes and replies;
/// each command that is taken is answered before the next one is taken, so replies
/// come one for each command and in their order; and no push falls between the
/// moment a command is taken and the end of its final reply, the message body of a
/// publish included.
pub proof fn response_discipline(c: ConnView, greeting: Seq<char>, turns: Seq<TurnView>)
    requires
        c.phase is Command,
        SessionView::start(c, greeting).allows_all(turns),
    ensures
        ({
            let end = SessionView::start(c, greeting).after_all(turns);
            &&& end.output == greeting + marks_text(end.marks)
            &&& stage_of(end.marks) == Some(stage_in(end.conn))
            &&& end.gate is Deliver ==> end.conn.phase is Command
        }),
    decreases turns.len(),
{
    let start = SessionView::start(c, greeting);
    let end = start.after_all(turns);
    if turns.len() == 0 {
        assert(greeting + marks_text(end.marks) =~= greeting);
    } else {
        let head = turns.drop_last();
        let before = start.after_all(head);
        response_discipline(c, greeting, head);
        match turns.last() {
            TurnView::Step { r, now_ms, outs } => {
                lemma_step_text(before.conn, r, now_ms, outs);
                lemma_step_in_order(before.conn, r, now_ms, outs, before.marks);
                let more = step_marks(before.conn, r, now_ms, outs);
                lemma_marks_text_concat(before.marks, more);
                assert(end.output =~= greeting + marks_text(end.marks));
            },
            TurnView::Input(bytes) => {},
            TurnView::Deliver(item) => {
                assert(end.marks.drop_last() =~= before.marks);
                assert(end.output =~= greeting + marks_text(end.marks));
            },
        }
    }
}

/// A push can be told from a reply: the code of every reply that a session writes
/// is of the classes above the pushes.
pub proof fn session_replies_are_no_pushes(
    c: ConnView,
    greeting: Seq<char>,
    turns: Seq<TurnView>,
    i: int,
)
    requires
        0 <= i < SessionView::start(c, greeting).after_all(turns).marks.len(),
    ensures
        SessionView::start(c, greeting).after_all(turns).marks[i] matches MarkView::Replied(reply)
            ==> 200 <= reply.code < 1000,
    decreases turns.len(),
{
    let start = SessionView::start(c, greeting);
    if turns.len() > 0 {
        let before = start.after_all(turns.drop_last());
        if i < before.marks.len() {
            session_replies_are_no_pushes(c, greeting, turns.drop_last(), i);
        } else if let TurnView::Step { r, now_ms, outs } = turns.last() {
            reveal(step_marks);
            session_laws::lemma_step_stage(before.conn, r, now_ms, outs);
        }
    }
}

} // verus!
