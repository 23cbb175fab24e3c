//! The in-flight message representation shared by the daemon, the client and
//! the federation layer.
use vstd::prelude::*;

use crate::frame;
use crate::number;
use crate::status;
use crate::text;

verus! {

broadcast use vstd::string::group_string_axioms;

/// A published message as it travels through the bus.
///
/// Bodies are represented as a vector of text lines (no CRLFs, un-stuffed).
/// A single-line publish such as `21.4C` is one element.
#[derive(Debug, Clone, PartialEq, Eq)]
pub struct Message {
    /// The message type this was published to.
    pub msg_type: String,
    /// Cluster-unique identifier, used for loop prevention and dedup.
    pub msg_id: String,
    /// The id of the daemon on which the message was first published.
    pub origin: String,
    /// The message body, one entry per line, already un-stuffed.
    pub body: Vec<String>,
}

/// The model of a [`Message`].
pub struct MessageView {
    pub msg_type: Seq<char>,
    pub msg_id: Seq<char>,
    pub origin: Seq<char>,
    pub body: Seq<Seq<char>>,
}

impl View for Message {
    type V = MessageView;

    open spec fn view(&self) -> MessageView {
        MessageView {
            msg_type: self.msg_type@,
            msg_id: self.msg_id@,
            origin: self.origin@,
            body: text::views(self.body@),
        }
    }
}

impl MessageView {
    /// The type, id and origin, each after a space.
    pub open spec fn header_fields(self) -> Seq<char> {
        " "@ + self.msg_type + " "@ + self.msg_id + " "@ + self.origin
    }

    /// The `101 MSG` header line.
    pub open spec fn msg_header(self) -> Seq<char> {
        number::decimal(status::MSG as nat) + " MSG"@ + self.header_fields()
    }

    /// The `FEED` header line.
    pub open spec fn feed_header(self) -> Seq<char> {
        "FEED"@ + self.header_fields()
    }

    /// The `101 MSG` delivery block.
    pub open spec fn delivery(self) -> Seq<char> {
        self.msg_header() + frame::CRLF@ + frame::block(self.body)
    }

    /// The `FEED` block that forwards the message to a peer daemon.
    pub open spec fn feed(self) -> Seq<char> {
        self.feed_header() + frame::CRLF@ + frame::block(self.body)
    }
}

impl Message {
    /// Construct a message.
    pub fn new(msg_type: &str, msg_id: &str, origin: &str, body: Vec<String>) -> (m: Self)
        ensures
            m@ == (MessageView {
                msg_type: msg_type@,
                msg_id: msg_id@,
                origin: origin@,
                body: text::views(body@),
            }),
    {
        Message {
            msg_type: msg_type.to_string(),
            msg_id: msg_id.to_string(),
            origin: origin.to_string(),
            body,
        }
    }

    fn push_header_fields(&self, out: &mut String)
        ensures
            final(out)@ == old(out)@ + self@.header_fields(),
    {
        out.append(" ");
        out.append(self.msg_type.as_str());
        out.append(" ");
        out.append(self.msg_id.as_str());
        out.append(" ");
        out.append(self.origin.as_str());
        assert(out@ =~= old(out)@ + self@.header_fields());
    }

    /// The `101 MSG` header line (without trailing CRLF) that precedes the body
    /// when delivering to a subscriber.
    pub fn msg_header(&self) -> (s: String)
        ensures
            s@ == self@.msg_header(),
    {
        let mut out = number::to_decimal(status::MSG as u64);
        out.append(" MSG");
        self.push_header_fields(&mut out);
        out
    }

    /// The full `101 MSG` delivery block: header line, dot-stuffed body and
    /// terminator, all CRLF-terminated.
    pub fn encode_delivery(&self) -> (s: String)
        ensures
            s@ == self@.delivery(),
    {
        let mut out = self.msg_header();
        out.append(frame::CRLF);
        out.append(frame::encode_body(self.body.as_slice()).as_str());
        out
    }

    /// The `FEED` header line (without trailing CRLF) used to forward this
    /// message to a peer daemon over the federation link.
    pub fn feed_header(&self) -> (s: String)
        ensures
            s@ == self@.feed_header(),
    {
        let mut out = "FEED".to_string();
        self.push_header_fields(&mut out);
        out
    }

    /// The full `FEED` block: header line, dot-stuffed body and terminator.
    pub fn encode_feed(&self) -> (s: String)
        ensures
            s@ == self@.feed(),
    {
        let mut out = self.feed_header();
        out.append(frame::CRLF);
        out.append(frame::encode_body(self.body.as_slice()).as_str());
        out
    }
}

} // verus!
