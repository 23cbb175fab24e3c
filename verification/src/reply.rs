//! Status lines and command replies.
use vstd::prelude::*;

use crate::frame;
use crate::number;
use crate::status::Code;
use crate::text;

verus! {

broadcast use vstd::string::group_string_axioms;

/// A status line without its terminator: the code, a space and the text.
pub open spec fn status_text(code: Code, text: Seq<char>) -> Seq<char> {
    number::decimal(code as nat) + " "@ + text
}

/// A status line with its terminator.
pub open spec fn status_line(code: Code, text: Seq<char>) -> Seq<char> {
    status_text(code, text) + frame::CRLF@
}

/// Write a status line with its terminator.
pub fn write_line(code: Code, text: &str) -> (s: String)
    ensures
        s@ == status_line(code, text@),
{
    let mut out = number::to_decimal(code as u64);
    out.append(" ");
    out.append(text);
    out.append(frame::CRLF);
    out
}

/// The reply to a command: one status line and, for list-style replies, a
/// dot-terminated block.
#[derive(Debug, PartialEq, Eq)]
pub struct Reply {
    /// The status code.
    pub code: Code,
    /// The text after the code.
    pub text: String,
    /// The lines of the block that follows, if one does.
    pub block: Option<Vec<String>>,
}

/// The model of a [`Reply`].
#[verifier::ext_equal]
pub struct ReplyView {
    pub code: Code,
    pub text: Seq<char>,
    pub block: Option<Seq<Seq<char>>>,
}

impl View for Reply {
    type V = ReplyView;

    open spec fn view(&self) -> ReplyView {
        ReplyView {
            code: self.code,
            text: self.text@,
            block: match self.block {
                Some(lines) => Some(text::views(lines@)),
                None => None,
            },
        }
    }
}

impl ReplyView {
    /// A reply without a block.
    pub open spec fn line(code: Code, text: Seq<char>) -> ReplyView {
        ReplyView { code, text, block: None }
    }

    /// A reply with a block.
    pub open spec fn listing(code: Code, text: Seq<char>, lines: Seq<Seq<char>>) -> ReplyView {
        ReplyView { code, text, block: Some(lines) }
    }

    /// The reply on the wire.
    pub open spec fn encoded(self) -> Seq<char> {
        match self.block {
            Some(lines) => status_line(self.code, self.text) + frame::block(lines),
            None => status_line(self.code, self.text),
        }
    }
}

impl Reply {
    /// A reply without a block.
    pub fn line(code: Code, text: &str) -> (r: Self)
        ensures
            r@ == ReplyView::line(code, text@),
    {
        Reply { code, text: text.to_string(), block: None }
    }

    /// A reply with a block.
    pub fn listing(code: Code, text: &str, lines: Vec<String>) -> (r: Self)
        ensures
            r@ == ReplyView::listing(code, text@, text::views(lines@)),
    {
        Reply { code, text: text.to_string(), block: Some(lines) }
    }

    /// The reply on the wire.
    pub fn encode(&self) -> (s: String)
        ensures
            s@ == self@.encoded(),
    {
        let mut out = write_line(self.code, self.text.as_str());
        if let Some(lines) = &self.block {
            out.append(frame::encode_body(lines.as_slice()).as_str());
        }
        out
    }
}

} // verus!
