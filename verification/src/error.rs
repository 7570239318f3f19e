

use vstd::prelude::*;
use crate::text::{push_text, string_of};

verus! {

/// Everything that can go wrong on a connection.
#[derive(Debug, Clone, PartialEq, Eq)]
pub enum Error {
    /// A JSON document could not be read or written.
    InvalidJson(String),
    /// Bytes received from the peer are not a MessagePack message.
    InvalidMessagePack(String),
    /// A message could not be encoded as MessagePack.
    EncodeRMPError(String),
    /// The peer could not be reached.
    ConnectionFailure,
    /// The byte stream has ended; nothing more can be sent or received.
    ConnectionClosed,
    /// A value could not be handed to another task.
    ChannelSendError,
    /// A value could not be taken over from another task.
    ChannelRecvError(String),
    /// A response arrived where a request was expected.
    UnexpectedResponse,
    /// A request arrived where a response was expected.
    UnexpectedRequest,
    /// A message that has no request id was used to open a request.
    MissingReqId,
    /// Any other failure, with its description.
    Other(String),
}

/// An error as a mathematical value.
pub enum ErrorView {
    InvalidJson(Seq<char>),
    InvalidMessagePack(Seq<char>),
    EncodeRMPError(Seq<char>),
    ConnectionFailure,
    ConnectionClosed,
    ChannelSendError,
    ChannelRecvError(Seq<char>),
    UnexpectedResponse,
    UnexpectedRequest,
    MissingReqId,
    Other(Seq<char>),
}

impl View for Error {
    type V = ErrorView;

    open spec fn view(&self) -> ErrorView {
        match *self {
            Error::InvalidJson(text) => ErrorView::InvalidJson(text@),
            Error::InvalidMessagePack(text) => ErrorView::InvalidMessagePack(text@),
            Error::EncodeRMPError(text) => ErrorView::EncodeRMPError(text@),
            Error::ConnectionFailure => ErrorView::ConnectionFailure,
            Error::ConnectionClosed => ErrorView::ConnectionClosed,
            Error::ChannelSendError => ErrorView::ChannelSendError,
            Error::ChannelRecvError(text) => ErrorView::ChannelRecvError(text@),
            Error::UnexpectedResponse => ErrorView::UnexpectedResponse,
            Error::UnexpectedRequest => ErrorView::UnexpectedRequest,
            Error::MissingReqId => ErrorView::MissingReqId,
            Error::Other(text) => ErrorView::Other(text@),
        }
    }
}

impl ErrorView {
    /// The error in words.
    pub open spec fn text(self) -> Seq<char> {
        match self {
            ErrorView::InvalidJson(text) => "Invalid JSON: `"@ + text + "`"@,
            ErrorView::InvalidMessagePack(text) => "Invalid MessagePack: `"@ + text + "`"@,
            ErrorView::EncodeRMPError(text) => "Could not encode MessagePack: `"@ + text + "`"@,
            ErrorView::ConnectionFailure => "Error connecting to peer"@,
            ErrorView::ConnectionClosed => "Connection is closed"@,
            ErrorView::ChannelSendError => "Error sending over mpsc channel"@,
            ErrorView::ChannelRecvError(text) => "Error receiving over mpsc channel: `"@ + text
                + "`"@,
            ErrorView::UnexpectedResponse => "Unexpectedly received a response"@,
            ErrorView::UnexpectedRequest => "Unexpectedly received a request"@,
            ErrorView::MissingReqId => "Missing request id"@,
            ErrorView::Other(_) => "This shouldn't even exist"@,
        }
    }
}

/// Appends `text` between `before` and a closing backtick.
fn push_quoted(out: &mut Vec<char>, before: &str, text: &str)
    ensures
        final(out)@ == old(out)@ + before@ + text@ + "`"@,
{
    push_text(out, before);
    push_text(out, text);
    push_text(out, "`");
}

impl Error {
    /// The error in words.
    pub fn to_string(&self) -> (text: String)
        ensures
            text@ == self@.text(),
    {
        let mut out: Vec<char> = Vec::new();
        match self {
            Error::InvalidJson(text) => push_quoted(&mut out, "Invalid JSON: `", text.as_str()),
            Error::InvalidMessagePack(text) => push_quoted(
                &mut out,
                "Invalid MessagePack: `",
                text.as_str(),
            ),
            Error::EncodeRMPError(text) => push_quoted(
                &mut out,
                "Could not encode MessagePack: `",
                text.as_str(),
            ),
            Error::ConnectionFailure => push_text(&mut out, "Error connecting to peer"),
            Error::ConnectionClosed => push_text(&mut out, "Connection is closed"),
            Error::ChannelSendError => push_text(&mut out, "Error sending over mpsc channel"),
            Error::ChannelRecvError(text) => push_quoted(
                &mut out,
                "Error receiving over mpsc channel: `",
                text.as_str(),
            ),
            Error::UnexpectedResponse => push_text(&mut out, "Unexpectedly received a response"),
            Error::UnexpectedRequest => push_text(&mut out, "Unexpectedly received a request"),
            Error::MissingReqId => push_text(&mut out, "Missing request id"),
            Error::Other(_) => push_text(&mut out, "This shouldn't even exist"),
        }
        assert(out@ =~= self@.text());
        string_of(out.as_slice())
    }

    /// An error that carries only a description.
    pub fn text(message: &str) -> (e: Error)
        ensures
            e matches Error::Other(m) && m@ == message@,
    {
        Error::Other(message.to_owned())
    }
}

} // verus!
