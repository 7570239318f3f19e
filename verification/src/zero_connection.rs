//! A connection that speaks the ZeroNet protocol: it numbers the requests
//! it makes, and tells requests from responses for its caller.

use vstd::prelude::*;
use crate::address::{parsed, AddressError, AddressErrorView, PeerAddr};
use crate::async_connection::Connection;
use crate::error::Error;
use crate::message::{lemma_kind, response_cmd, MessageView, Request, Response, ZeroMessage};
use crate::message::laws::lemma_message_keys;
use crate::message::templates::Handshake;
use crate::message::value::Value;
use crate::message::wire::Wire;
use crate::search::first_index;
use crate::state::{has_key, StateView, Step};

verus! {

/// One end of a ZeroNet connection, without its byte stream.
pub struct ZeroConnection {
    /// The multiplexed connection below.
    pub connection: Connection<ZeroMessage>,
    /// The id that the next request gets.
    pub next_req_id: usize,
    /// The address of the peer, where the connection was opened to one.
    pub target_address: Option<PeerAddr>,
}

/// The command of the first request on a connection.
pub open spec fn handshake_cmd() -> Seq<char> {
    "handshake"@
}

/// The answer of a façade poll to the answer of a poll below it: a
/// message of the wrong kind becomes the error that names it.
pub open spec fn only_requests(step: Step<Result<ZeroMessage, Error>>) -> Step<
    Result<Request, Error>,
> {
    match step {
        Step::Ready { value: Ok(ZeroMessage::Request(request)), wake } => Step::Ready {
            value: Ok(request),
            wake,
        },
        Step::Ready { value: Ok(ZeroMessage::Response(_)), wake } => Step::Ready {
            value: Err(Error::UnexpectedResponse),
            wake,
        },
        Step::Ready { value: Err(e), wake } => Step::Ready { value: Err(e), wake },
        Step::Pending { read } => Step::Pending { read },
    }
}

/// The same for a poll that expects a response.
pub open spec fn only_responses(step: Step<Result<ZeroMessage, Error>>) -> Step<
    Result<Response, Error>,
> {
    match step {
        Step::Ready { value: Ok(ZeroMessage::Response(response)), wake } => Step::Ready {
            value: Ok(response),
            wake,
        },
        Step::Ready { value: Ok(ZeroMessage::Request(_)), wake } => Step::Ready {
            value: Err(Error::UnexpectedRequest),
            wake,
        },
        Step::Ready { value: Err(e), wake } => Step::Ready { value: Err(e), wake },
        Step::Pending { read } => Step::Pending { read },
    }
}

/// What a poll for a request hands out, by the view of the message below
/// it: a request as it is, and `UnexpectedResponse` for a response.
pub open spec fn request_seen(step: Step<Result<ZeroMessage, Error>>) -> Step<
    Result<MessageView, Error>,
> {
    match step {
        Step::Ready { value: Ok(message), wake } => if message@ is Request {
            Step::Ready { value: Ok(message@), wake }
        } else {
            Step::Ready { value: Err(Error::UnexpectedResponse), wake }
        },
        Step::Ready { value: Err(e), wake } => Step::Ready { value: Err(e), wake },
        Step::Pending { read } => Step::Pending { read },
    }
}

/// What a poll for a response hands out, by the view of the message below
/// it: a response as it is, and `UnexpectedRequest` for a request.
pub open spec fn response_seen(step: Step<Result<ZeroMessage, Error>>) -> Step<
    Result<MessageView, Error>,
> {
    match step {
        Step::Ready { value: Ok(message), wake } => if message@ is Response {
            Step::Ready { value: Ok(message@), wake }
        } else {
            Step::Ready { value: Err(Error::UnexpectedRequest), wake }
        },
        Step::Ready { value: Err(e), wake } => Step::Ready { value: Err(e), wake },
        Step::Pending { read } => Step::Pending { read },
    }
}

/// The step with what it hands out as a mathematical value.
pub open spec fn seen<M: View>(step: Step<Result<M, Error>>) -> Step<Result<M::V, Error>> {
    match step {
        Step::Ready { value: Ok(message), wake } => Step::Ready { value: Ok(message@), wake },
        Step::Ready { value: Err(e), wake } => Step::Ready { value: Err(e), wake },
        Step::Pending { read } => Step::Pending { read },
    }
}

/// A request of the peer that arrives while the inbox is empty is what the
/// next poll of a receiver hands out.
pub proof fn lemma_request_is_handed_out(
    state: StateView<ZeroMessage>,
    message: ZeroMessage,
    reader: u64,
    waiter: u64,
)
    requires
        message@ is Request,
        state.values.len() == 0,
    ensures
        match request_seen(state.dispatch(message, reader).0.poll_receive(waiter).1) {
            Step::Ready { value, .. } => value == Ok::<MessageView, Error>(message@),
            Step::Pending { .. } => false,
        },
{
    state.lemma_arrival_is_received(message, reader, waiter);
}

/// The response that the slot of a request holds is what the poll of the
/// task that made the request hands out.
pub proof fn lemma_answer_is_handed_out(
    state: StateView<ZeroMessage>,
    key: usize,
    waiter: u64,
    message: ZeroMessage,
)
    requires
        first_index(state.requests, has_key::<ZeroMessage>(key)) < state.requests.len(),
        state.requests[first_index(state.requests, has_key::<ZeroMessage>(key))].result == Some(
            Ok::<ZeroMessage, Error>(message),
        ),
        message@ is Response,
    ensures
        match response_seen(state.poll_response(key, waiter).1) {
            Step::Ready { value, .. } => value == Ok::<MessageView, Error>(message@),
            Step::Pending { .. } => false,
        },
{
}

impl ZeroConnection {
    /// A connection that has just been opened: it has made no request.
    pub fn new() -> (r: Result<ZeroConnection, Error>)
        ensures
            r matches Ok(c) && c.connection@ == StateView::<ZeroMessage>::fresh()
                && c.connection@.wf() && c.next_req_id == 0 && c.target_address is None,
    {
        Ok(ZeroConnection { connection: Connection::new(), next_req_id: 0, target_address: None })
    }

    /// A connection to the peer at `address`. A stream can be opened to a
    /// clearnet address only: any other address is refused.
    pub fn from_address(address: PeerAddr) -> (r: Result<ZeroConnection, Error>)
        ensures
            match r {
                Ok(c) => (address@ is IPV4 || address@ is IPV6) && c.connection@ == StateView::<
                    ZeroMessage,
                >::fresh() && c.connection@.wf() && c.next_req_id == 0 && c.target_address
                    == Some(address),
                Err(e) => {
                    &&& !(address@ is IPV4 || address@ is IPV6)
                    &&& e matches Error::Other(text)
                    &&& text@ == AddressErrorView::TcpStreamError.text()
                },
            },
    {
        if address.is_clearnet() {
            Ok(
                ZeroConnection {
                    connection: Connection::new(),
                    next_req_id: 0,
                    target_address: Some(address),
                },
            )
        } else {
            Err(Error::Other(AddressError::TcpStreamError.to_string()))
        }
    }

    /// A connection to the peer at `address` together with the bytes of its
    /// first request, the handshake, which the caller has to write to the
    /// stream. The request has the id 0; its answer is polled for with
    /// `response`.
    pub fn connect(address: &str, handshake: Handshake) -> (r: Result<
        (ZeroConnection, Vec<u8>),
        Error,
    >)
        ensures
            match r {
                Ok((c, bytes)) => {
                    &&& parsed(address@) matches Ok(target)
                    &&& c.target_address matches Some(a)
                    &&& a@ == target
                    &&& (target is IPV4 || target is IPV6)
                    &&& c.next_req_id == 1
                    &&& c.connection@ == StateView::<ZeroMessage>::fresh().register(0)
                    &&& c.connection@.wf()
                    &&& (MessageView::Request {
                        cmd: handshake_cmd(),
                        req_id: 0,
                        params: handshake.item(),
                    }).wire() == Some(bytes@)
                },
                Err(e) => match parsed(address@) {
                    Err(failure) => e matches Error::Other(text) && text@ == failure.text(),
                    Ok(target) => if target is IPV4 || target is IPV6 {
                        e is EncodeRMPError && (MessageView::Request {
                            cmd: handshake_cmd(),
                            req_id: 0,
                            params: handshake.item(),
                        }).wire() is None
                    } else {
                        e matches Error::Other(text) && text@
                            == AddressErrorView::TcpStreamError.text()
                    },
                },
            },
    {
        let address = match PeerAddr::parse(address) {
            Ok(address) => address,
            Err(e) => {
                return Err(Error::Other(e.to_string()));
            },
        };
        let mut connection = match ZeroConnection::from_address(address) {
            Ok(connection) => connection,
            Err(e) => {
                return Err(e);
            },
        };
        match connection.request("handshake", handshake.into_value()) {
            Ok((_, bytes)) => Ok((connection, bytes)),
            Err(e) => Err(e),
        }
    }

    /// A poll by the receiver `waiter` for the next request of the peer. A
    /// response that no request of ours claims is reported as
    /// `UnexpectedResponse`.
    pub fn recv(&mut self, waiter: u64) -> (step: Step<Result<Request, Error>>)
        ensures
            step == only_requests(old(self).connection@.poll_receive(waiter).1),
            seen(step) == request_seen(old(self).connection@.poll_receive(waiter).1),
            final(self).connection@ == old(self).connection@.poll_receive(waiter).0,
            final(self).next_req_id == old(self).next_req_id,
            final(self).target_address == old(self).target_address,
            old(self).connection@.wf() ==> final(self).connection@.wf(),
    {
        let below = self.connection.recv(waiter);
        proof {
            assert forall|message: ZeroMessage|
                (message is Request <==> #[trigger] message@ is Request) && (message matches
                ZeroMessage::Request(request) ==> request@ == message@) && (message matches
                ZeroMessage::Response(response) ==> response@ == message@) by {
                lemma_kind(message);
            }
        }
        match below {
            Step::Ready { value: Ok(ZeroMessage::Request(request)), wake } => Step::Ready {
                value: Ok(request),
                wake,
            },
            Step::Ready { value: Ok(ZeroMessage::Response(_)), wake } => Step::Ready {
                value: Err(Error::UnexpectedResponse),
                wake,
            },
            Step::Ready { value: Err(e), wake } => Step::Ready { value: Err(e), wake },
            Step::Pending { read } => Step::Pending { read },
        }
    }

    /// The bytes of a response to the request `to` that carries `body`,
    /// for the caller to write to the stream. The body is an object, whose
    /// entries come to lie beside `cmd` and `to`.
    pub fn respond(&self, to: usize, body: Value) -> (r: Result<Vec<u8>, Error>)
        ensures
            self.connection@.closed ==> r matches Err(Error::ConnectionClosed),
            !self.connection@.closed ==> match r {
                Ok(bytes) => (MessageView::Response { cmd: response_cmd(), to, body: body@ }).wire()
                    == Some(bytes@),
                Err(e) => (MessageView::Response { cmd: response_cmd(), to, body: body@ }).wire()
                    is None && e is EncodeRMPError,
            },
    {
        let message = ZeroMessage::response(to, body);
        self.connection.send(message)
    }

    /// Makes a request: the command `cmd` with `body` as its parameters
    /// gets the next id, a slot waits for the answer, and the bytes of the
    /// request are handed out to be written to the stream. The id is used up
    /// even where the request is refused.
    pub fn request(&mut self, cmd: &str, body: Value) -> (r: Result<(usize, Vec<u8>), Error>)
        requires
            old(self).next_req_id < usize::MAX,
        ensures
            final(self).next_req_id == old(self).next_req_id + 1,
            final(self).target_address == old(self).target_address,
            old(self).connection@.closed ==> r matches Err(Error::ConnectionClosed),
            !old(self).connection@.closed ==> match r {
                Ok((req_id, bytes)) => req_id == old(self).next_req_id && (MessageView::Request {
                    cmd: cmd@,
                    req_id,
                    params: body@,
                }).wire() == Some(bytes@),
                Err(e) => e is EncodeRMPError && (MessageView::Request {
                    cmd: cmd@,
                    req_id: old(self).next_req_id,
                    params: body@,
                }).wire() is None,
            },
            match r {
                Ok((req_id, _)) => final(self).connection@ == old(self).connection@.register(
                    req_id,
                ),
                Err(_) => final(self).connection@ == old(self).connection@,
            },
            old(self).connection@.wf() ==> final(self).connection@.wf(),
    {
        let req_id = self.req_id();
        let message = ZeroMessage::request(cmd, req_id, body);
        self.connection.request(message)
    }

    /// A poll by the task `waiter` for the answer to the request `req_id`.
    /// The answer is a response to that request; a request of the peer in
    /// its place is reported as `UnexpectedRequest`.
    pub fn response(&mut self, req_id: usize, waiter: u64) -> (step: Step<Result<Response, Error>>)
        ensures
            step == only_responses(old(self).connection@.poll_response(req_id, waiter).1),
            seen(step) == response_seen(old(self).connection@.poll_response(req_id, waiter).1),
            final(self).connection@ == old(self).connection@.poll_response(req_id, waiter).0,
            final(self).next_req_id == old(self).next_req_id,
            final(self).target_address == old(self).target_address,
            old(self).connection@.wf() ==> final(self).connection@.wf(),
            old(self).connection@.wf() ==> match step {
                Step::Ready { value: Ok(response), .. } => response@.to() == Some(req_id),
                _ => true,
            },
    {
        proof {
            lemma_message_keys();
        }
        let below = self.connection.response(req_id, waiter);
        proof {
            assert forall|message: ZeroMessage|
                (message is Request <==> #[trigger] message@ is Request) && (message matches
                ZeroMessage::Request(request) ==> request@ == message@) && (message matches
                ZeroMessage::Response(response) ==> response@ == message@) by {
                lemma_kind(message);
            }
        }
        match below {
            Step::Ready { value: Ok(ZeroMessage::Response(response)), wake } => Step::Ready {
                value: Ok(response),
                wake,
            },
            Step::Ready { value: Ok(ZeroMessage::Request(_)), wake } => Step::Ready {
                value: Err(Error::UnexpectedRequest),
                wake,
            },
            Step::Ready { value: Err(e), wake } => Step::Ready { value: Err(e), wake },
            Step::Pending { read } => Step::Pending { read },
        }
    }

    /// The id of the last request.
    pub fn last_req_id(&self) -> (id: usize)
        requires
            self.next_req_id > 0,
        ensures
            id == self.next_req_id - 1,
    {
        self.next_req_id - 1
    }

    /// Takes the next id. Ids are given out in order, from 0 on, and none
    /// is left out.
    fn req_id(&mut self) -> (id: usize)
        requires
            old(self).next_req_id < usize::MAX,
        ensures
            id == old(self).next_req_id,
            final(self).next_req_id == old(self).next_req_id + 1,
            final(self).connection == old(self).connection,
            final(self).target_address == old(self).target_address,
    {
        self.next_req_id += 1;
        self.next_req_id - 1
    }
}

} // verus!
