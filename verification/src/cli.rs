//! What the command-line client makes of its input and shows of its results.
use vstd::prelude::*;

use crate::client::ClientError;
use crate::client::ClientErrorView;
use crate::client::Event;
use crate::client::EventView;
use crate::message::MessageView;
use crate::number;
use crate::protocol_laws;
use crate::text;

verus! {

broadcast use vstd::string::group_string_axioms;

/// The body lines of a text: split at line feeds, without one empty line at the
/// end.
pub open spec fn lines_of(s: Seq<char>) -> Seq<Seq<char>> {
    let lines = text::split(s, '\n');
    if lines.len() > 0 && lines.last().len() == 0 {
        lines.drop_last()
    } else {
        lines
    }
}

/// Split a text into body lines; drop a single trailing empty line.
pub fn body_lines(s: &str) -> (lines: Vec<String>)
    ensures
        text::views(lines@) == lines_of(s@),
{
    let mut lines = text::split_on(s, '\n');
    let ghost all = text::views(lines@);
    if lines.len() > 0 && lines[lines.len() - 1].as_str().is_empty() {
        assert(all.last() == lines@[lines@.len() - 1]@);
        lines.pop();
        assert(text::views(lines@) =~= all.drop_last());
    } else if lines.len() > 0 {
        assert(all.last() == lines@[lines@.len() - 1]@);
    }
    lines
}

/// Lines as a text file holds them, each with its line feed.
pub open spec fn as_file(lines: Seq<Seq<char>>) -> Seq<char>
    decreases lines.len(),
{
    if lines.len() == 0 {
        Seq::empty()
    } else {
        lines[0] + seq!['\n'] + as_file(lines.drop_first())
    }
}

/// The body lines of a text file are its lines.
pub proof fn file_lines_round_trip(lines: Seq<Seq<char>>)
    requires
        forall|i: int| 0 <= i < lines.len() ==> !(#[trigger] lines[i]).contains('\n'),
    ensures
        lines_of(as_file(lines)) == lines,
{
    lemma_as_file(lines);
    let none = Seq::<char>::empty();
    assert(text::split(as_file(lines), '\n').drop_last() =~= lines);
    assert(text::split(as_file(lines), '\n').last() == none);
}

proof fn lemma_as_file(lines: Seq<Seq<char>>)
    requires
        forall|i: int| 0 <= i < lines.len() ==> !(#[trigger] lines[i]).contains('\n'),
    ensures
        text::split(as_file(lines), '\n') == lines.push(Seq::empty()),
    decreases lines.len(),
{
    if lines.len() == 0 {
        protocol_laws::lemma_split_none(as_file(lines), '\n');
        assert(text::split(as_file(lines), '\n') =~= lines.push(Seq::empty()));
    } else {
        let tail = lines.drop_first();
        assert forall|i: int| 0 <= i < tail.len() implies !(#[trigger] tail[i]).contains('\n') by {
            assert(tail[i] == lines[i + 1]);
        }
        lemma_as_file(tail);
        protocol_laws::lemma_split_first(lines[0], '\n', as_file(tail));
        assert(seq![lines[0]] + tail.push(Seq::empty()) =~= lines.push(Seq::empty()));
    }
}

// --- what is shown ---------------------------------------------------------------------

/// What is shown for an outcome of waiting for events, and whether to go on.
pub struct Shown {
    /// Lines for the standard output.
    pub out: Vec<String>,
    /// Lines for the standard error.
    pub err: Vec<String>,
    /// How the wait ended, if it did.
    pub end: Option<Result<(), ClientError>>,
}

/// The model of a [`Shown`].
#[verifier::ext_equal]
pub struct ShownView {
    pub out: Seq<Seq<char>>,
    pub err: Seq<Seq<char>>,
    pub end: Option<Result<(), ClientErrorView>>,
}

impl View for Shown {
    type V = ShownView;

    open spec fn view(&self) -> ShownView {
        ShownView {
            out: text::views(self.out@),
            err: text::views(self.err@),
            end: match self.end {
                None => None,
                Some(Ok(_)) => Some(Ok(())),
                Some(Err(e)) => Some(Err(e@)),
            },
        }
    }
}

/// The line that leads a delivered message.
pub open spec fn title(m: MessageView) -> Seq<char> {
    "--- "@ + m.msg_type + " ["@ + m.msg_id + "] from "@ + m.origin
}

/// What is shown for an event or an error.
pub open spec fn shown(r: Result<EventView, ClientErrorView>) -> ShownView {
    let none = Seq::<Seq<char>>::empty();
    match r {
        Ok(EventView::Message(m)) => ShownView {
            out: seq![title(m)] + m.body,
            err: none,
            end: None,
        },
        Ok(EventView::Drop { msg_type, count }) => ShownView {
            out: none,
            err: seq![
                "[dropped "@ + number::decimal(count as nat) + " message(s) on "@ + msg_type
                    + " — consumer fell behind]"@,
            ],
            end: None,
        },
        Ok(EventView::Note(s)) => ShownView {
            out: none,
            err: seq!["[note] "@ + s],
            end: None,
        },
        Err(ClientErrorView::Closed) => ShownView {
            out: none,
            err: seq!["connection closed by daemon"@],
            end: Some(Ok(())),
        },
        Err(e) => ShownView { out: none, err: none, end: Some(Err(e)) },
    }
}

/// An event or an error, by views.
pub open spec fn event_view(r: Result<Event, ClientError>) -> Result<EventView, ClientErrorView> {
    match r {
        Ok(ev) => Ok(ev@),
        Err(e) => Err(e@),
    }
}

/// What to show for an event, or for what came in place of one. A connection
/// that the daemon closed ends the wait well; any other error ends it badly.
pub fn show(r: Result<Event, ClientError>) -> (s: Shown)
    ensures
        s@ == shown(event_view(r)),
{
    let mut out: Vec<String> = Vec::new();
    let mut err: Vec<String> = Vec::new();
    let mut end: Option<Result<(), ClientError>> = None;
    assert(text::views(out@) =~= Seq::<Seq<char>>::empty());
    assert(text::views(err@) =~= Seq::<Seq<char>>::empty());
    match r {
        Ok(Event::Message(m)) => {
            let ghost body = text::views(m.body@);
            let head = "--- ".to_string().concat(m.msg_type.as_str()).concat(" [").concat(
                m.msg_id.as_str(),
            ).concat("] from ").concat(m.origin.as_str());
            assert(head@ == title(m@));
            out.push(head);
            let mut i: usize = 0;
            assert(text::views(out@) =~= seq![title(m@)] + body.take(0));
            while i < m.body.len()
                invariant
                    i <= m.body.len(),
                    body == text::views(m.body@),
                    text::views(out@) == seq![title(m@)] + body.take(i as int),
                decreases m.body.len() - i,
            {
                let line = m.body[i].clone();
                assert(text::views(out@.push(line)) =~= text::views(out@).push(line@));
                assert(body.take(i + 1) =~= body.take(i as int).push(line@));
                out.push(line);
                i += 1;
                assert(text::views(out@) =~= seq![title(m@)] + body.take(i as int));
            }
            assert(body.take(i as int) =~= body);
        },
        Ok(Event::Drop { msg_type, count }) => {
            err.push(
                "[dropped ".to_string().concat(number::to_decimal(count).as_str()).concat(
                    " message(s) on ",
                ).concat(msg_type.as_str()).concat(" — consumer fell behind]"),
            );
        },
        Ok(Event::Note(s)) => {
            err.push("[note] ".to_string().concat(s.as_str()));
        },
        Err(ClientError::Closed) => {
            err.push("connection closed by daemon".to_string());
            end = Some(Ok(()));
        },
        Err(e) => {
            end = Some(Err(e));
        },
    }
    let s = Shown { out, err, end };
    assert(s@.err =~= shown(event_view(r)).err);
    s
}

/// Names joined by a comma and a space.
pub open spec fn joined(names: Seq<Seq<char>>) -> Seq<char>
    decreases names.len(),
{
    if names.len() == 0 {
        Seq::empty()
    } else if names.len() == 1 {
        names[0]
    } else {
        joined(names.drop_last()) + ", "@ + names.last()
    }
}

/// What is shown once a type is registered.
pub fn registered_text(msg_type: &str) -> (s: String)
    ensures
        s@ == "registered "@ + msg_type@,
{
    "registered ".to_string().concat(msg_type)
}

/// What is shown once a message is published.
pub fn published_text(msg_type: &str, lines: usize) -> (s: String)
    ensures
        s@ == "published to "@ + msg_type@ + " ("@ + number::decimal(lines as nat) + " line(s))"@,
{
    "published to ".to_string().concat(msg_type).concat(" (").concat(
        number::to_decimal(lines as u64).as_str(),
    ).concat(" line(s))")
}

/// What is shown once the types are subscribed to.
pub fn subscribed_text(types: &Vec<String>, daemon_id: &str) -> (s: String)
    ensures
        s@ == "subscribed to ["@ + joined(text::views(types@)) + "] on "@ + daemon_id@
            + " — waiting for messages (Ctrl-C to stop)"@,
{
    let ghost names = text::views(types@);
    let mut list = String::new();
    let mut i: usize = 0;
    while i < types.len()
        invariant
            i <= types.len(),
            names == text::views(types@),
            list@ == joined(names.take(i as int)),
        decreases types.len() - i,
    {
        if i > 0 {
            list.append(", ");
        }
        list.append(types[i].as_str());
        proof {
            let more = names.take(i + 1);
            assert(more.drop_last() =~= names.take(i as int));
            assert(more.last() == types@[i as int]@);
            if i == 0 {
                assert(list@ =~= more[0]);
            }
        }
        i += 1;
    }
    assert(names.take(i as int) =~= names);
    "subscribed to [".to_string().concat(list.as_str()).concat("] on ").concat(daemon_id).concat(
        " — waiting for messages (Ctrl-C to stop)",
    )
}

} // verus!
