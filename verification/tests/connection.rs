use zeronet_protocol::async_connection::{Connection, Received};
use zeronet_protocol::error::Error;
use zeronet_protocol::message::templates::Handshake;
use zeronet_protocol::message::value::{Number, Value};
use zeronet_protocol::message::wire::{Parsed, Wire};
use zeronet_protocol::message::{Request, Response, ZeroMessage};
use zeronet_protocol::state::Step;
use zeronet_protocol::zero_connection::ZeroConnection;

/// Two ends of a connection and the bytes that are on their way.
struct Pair {
    server: ZeroConnection,
    client: ZeroConnection,
    to_server: Vec<u8>,
    to_client: Vec<u8>,
}

fn create_pair() -> Pair {
    Pair {
        server: ZeroConnection::new().unwrap(),
        client: ZeroConnection::new().unwrap(),
        to_server: Vec::new(),
        to_client: Vec::new(),
    }
}

fn pong() -> Value {
    Value::Object(vec![("body".to_string(), Value::String("Pong!".to_string()))])
}

/// Polls until the poll is ready, reading from `stream` whenever the poll
/// hands the reader over. Returns `None` where the stream runs dry first.
fn recv(
    connection: &mut ZeroConnection,
    stream: &mut Vec<u8>,
    waiter: u64,
) -> Option<Result<Request, Error>> {
    loop {
        match connection.recv(waiter) {
            Step::Ready { value, .. } => return Some(value),
            Step::Pending { read } => {
                assert!(read, "somebody else reads");
                match connection.connection.received(stream, waiter) {
                    Received::Message { .. } => {}
                    Received::Partial => {
                        connection.connection.ended();
                        return None;
                    }
                    Received::Refused { error, .. } => return Some(Err(error)),
                }
            }
        }
    }
}

fn response(
    connection: &mut ZeroConnection,
    stream: &mut Vec<u8>,
    req_id: usize,
    waiter: u64,
) -> Result<Response, Error> {
    loop {
        match connection.response(req_id, waiter) {
            Step::Ready { value, .. } => return value,
            Step::Pending { read } => {
                assert!(read, "somebody else reads");
                match connection.connection.received(stream, waiter) {
                    Received::Message { .. } => {}
                    Received::Partial => {
                        connection.connection.ended();
                    }
                    Received::Refused { error, .. } => {
                        connection.connection.abandon(&req_id);
                        return Err(error);
                    }
                }
            }
        }
    }
}

#[test]
fn tests_test_connection() {
    let mut pair = create_pair();
    let (_, bytes) = pair.client.request("ping", Value::Null).unwrap();
    pair.to_server.extend(bytes);
    let request = recv(&mut pair.server, &mut pair.to_server, 1).unwrap();
    assert!(request.is_ok());
}

#[test]
fn zero_connection_test_connection() {
    let mut pair = create_pair();
    let (req_id, bytes) = pair.client.request("ping", Value::Null).unwrap();
    pair.to_server.extend(bytes);
    let request = recv(&mut pair.server, &mut pair.to_server, 1).unwrap();
    assert!(request.is_ok());
    // The ping comes back as a pong to the request that asked.
    let request = request.unwrap();
    assert_eq!(request.cmd, "ping");
    assert_eq!(request.req_id, req_id);
    pair.to_client.extend(pair.server.respond(request.req_id, pong()).unwrap());
    let answer = response(&mut pair.client, &mut pair.to_client, req_id, 2).unwrap();
    assert_eq!(answer.to, req_id);
    assert_eq!(ZeroMessage::Response(answer), ZeroMessage::response(req_id, pong()));
}

fn four_pings(pair: &mut Pair) {
    for id in 0..4usize {
        let bytes = pair.client.connection.send(ZeroMessage::request("ping", id, Value::Null));
        pair.to_server.extend(bytes.unwrap());
    }
}

#[test]
fn tests_multiple_receivers() {
    let mut pair = create_pair();
    four_pings(&mut pair);
    // Two receivers on the one connection take turns.
    recv(&mut pair.server, &mut pair.to_server, 1).unwrap().ok().unwrap();
    recv(&mut pair.server, &mut pair.to_server, 2).unwrap().ok().unwrap();
    recv(&mut pair.server, &mut pair.to_server, 1).unwrap().ok().unwrap();
    let result = recv(&mut pair.server, &mut pair.to_server, 2).unwrap();
    assert!(result.is_ok());
}

#[test]
fn zero_connection_multiple_receivers() {
    let mut pair = create_pair();
    four_pings(&mut pair);
    let mut first = Vec::new();
    let mut second = Vec::new();
    first.push(recv(&mut pair.server, &mut pair.to_server, 1).unwrap().unwrap().req_id);
    second.push(recv(&mut pair.server, &mut pair.to_server, 2).unwrap().unwrap().req_id);
    second.push(recv(&mut pair.server, &mut pair.to_server, 2).unwrap().unwrap().req_id);
    let result = recv(&mut pair.server, &mut pair.to_server, 1).unwrap();
    assert!(result.is_ok());
    first.push(result.unwrap().req_id);
    // Each request went to one receiver, and each receiver saw its share in
    // the order of the wire.
    assert_eq!(first, vec![0, 3]);
    assert_eq!(second, vec![1, 2]);
    assert!(recv(&mut pair.server, &mut pair.to_server, 1).is_none());
}

#[test]
fn tests_multiple_clients() {
    let mut pair = create_pair();
    let (_, bytes) = pair.client.request("ping", Value::Null).unwrap();
    pair.to_server.extend(bytes);
    let result = recv(&mut pair.server, &mut pair.to_server, 1).unwrap().ok().unwrap();
    assert!(result.req_id == pair.client.last_req_id());
}

#[test]
fn zero_connection_multiple_clients() {
    // Two tasks share the one client and its counter of ids.
    let mut pair = create_pair();
    let (first, bytes) = pair.client.request("ping", Value::Null).unwrap();
    pair.to_server.extend(bytes);
    let (second, bytes) = pair.client.request("ping", Value::Null).unwrap();
    pair.to_server.extend(bytes);
    assert_eq!((first, second), (0, 1));
    assert!(second == pair.client.last_req_id());
    let one = recv(&mut pair.server, &mut pair.to_server, 1).unwrap().unwrap();
    let two = recv(&mut pair.server, &mut pair.to_server, 1).unwrap().unwrap();
    // The answers come back in the other order; each task gets its own.
    let body = |n: u64| Value::Object(vec![("n".to_string(), Value::Number(Number::PosInt(n)))]);
    pair.to_client.extend(pair.server.respond(two.req_id, body(2)).unwrap());
    pair.to_client.extend(pair.server.respond(one.req_id, body(1)).unwrap());
    let to_first = response(&mut pair.client, &mut pair.to_client, first, 10).unwrap();
    let to_second = response(&mut pair.client, &mut pair.to_client, second, 20).unwrap();
    assert_eq!(ZeroMessage::Response(to_first), ZeroMessage::response(first, body(1)));
    assert_eq!(ZeroMessage::Response(to_second), ZeroMessage::response(second, body(2)));
}

#[test]
fn ids_are_given_out_in_order_without_gaps() {
    let mut connection = ZeroConnection::new().unwrap();
    assert_eq!(connection.next_req_id, 0);
    for expected in 0..10usize {
        let (req_id, bytes) = connection.request("ping", Value::Null).unwrap();
        assert_eq!(req_id, expected);
        assert_eq!(connection.last_req_id(), expected);
        assert_eq!(bytes, ZeroMessage::request("ping", expected, Value::Null).encode().unwrap());
    }
    // A request that is refused uses up its id all the same.
    connection.connection.ended();
    assert!(matches!(connection.request("ping", Value::Null), Err(Error::ConnectionClosed)));
    assert_eq!(connection.last_req_id(), 10);
}

#[test]
fn close_reaches_every_request_and_every_later_call() {
    let mut pair = create_pair();
    let (first, _) = pair.client.request("ping", Value::Null).unwrap();
    let (second, _) = pair.client.request("ping", Value::Null).unwrap();
    assert!(matches!(pair.client.response(first, 1), Step::Pending { read: true }));
    assert!(matches!(pair.client.response(second, 2), Step::Pending { read: false }));
    assert!(matches!(pair.client.recv(3), Step::Pending { read: false }));
    // The stream ends in the middle of the requests.
    let woken = pair.client.connection.ended();
    assert_eq!(woken, vec![1, 2, 3]);
    assert!(pair.client.connection.is_closed());
    for (req_id, waiter) in [(first, 1), (second, 2)] {
        match pair.client.response(req_id, waiter) {
            Step::Ready { value: Err(Error::ConnectionClosed), .. } => {}
            _ => panic!("the request is not closed"),
        }
    }
    assert!(matches!(
        pair.client.recv(3),
        Step::Ready { value: Err(Error::ConnectionClosed), .. }
    ));
    assert!(matches!(pair.client.respond(0, pong()), Err(Error::ConnectionClosed)));
    assert!(matches!(pair.client.request("ping", Value::Null), Err(Error::ConnectionClosed)));
    assert!(matches!(
        pair.client.connection.send(ZeroMessage::request("ping", 0, Value::Null)),
        Err(Error::ConnectionClosed)
    ));
}

/// The bytes of a whole MessagePack map that is no message: a command
/// without an id.
fn no_message() -> Vec<u8> {
    let mut bytes = vec![0x81u8, 0xa3];
    bytes.extend_from_slice(b"cmd");
    bytes.push(0xa4);
    bytes.extend_from_slice(b"ping");
    bytes
}

#[test]
fn a_value_that_is_no_message_fails_one_call_only() {
    let mut connection = ZeroConnection::new().unwrap();
    // A request waits for its answer, and a receiver reads.
    let (req_id, _) = connection.request("getFile", Value::Null).unwrap();
    assert!(matches!(connection.recv(1), Step::Pending { read: true }));
    assert!(matches!(connection.response(req_id, 5), Step::Pending { read: false }));
    let ping = ZeroMessage::request("ping", 7, Value::Null).encode().unwrap();
    let mut stream = no_message();
    stream.extend_from_slice(&ping);
    match connection.connection.received(&mut stream, 1) {
        Received::Refused { error, wake } => {
            assert!(matches!(error, Error::InvalidMessagePack(_)));
            // The request that still waits takes over the reading.
            assert_eq!(wake, Some(5));
        }
        other => panic!("unexpected {:?}", other),
    }
    // The value is gone from the stream, and what follows it is still there.
    assert_eq!(stream, ping);
    assert!(!connection.connection.is_closed());
    assert!(!connection.connection.state().is_reading());
    // The request still waits: its slot was not filled.
    assert!(matches!(connection.response(req_id, 5), Step::Pending { read: true }));
    assert_eq!(connection.connection.received(&mut stream, 5), Received::Message { wake: Some(5) });
    match connection.recv(2) {
        Step::Ready { value: Ok(request), .. } => {
            assert_eq!(request.req_id(), 7);
            assert_eq!(request.cmd(), "ping");
        }
        _ => panic!("no request"),
    }
    // Sending goes on as before.
    assert!(connection.respond(7, pong()).is_ok());
}

#[test]
fn bytes_that_are_no_messagepack_fail_one_call_and_lose_one_byte() {
    let mut connection = ZeroConnection::new().unwrap();
    assert!(matches!(connection.recv(1), Step::Pending { read: true }));
    let ping = ZeroMessage::request("ping", 0, Value::Null).encode().unwrap();
    let mut stream = vec![0xc1u8];
    stream.extend_from_slice(&ping);
    match connection.connection.received(&mut stream, 1) {
        Received::Refused { error, wake } => {
            assert!(matches!(error, Error::InvalidMessagePack(_)));
            assert_eq!(wake, None);
        }
        other => panic!("unexpected {:?}", other),
    }
    assert!(!connection.connection.is_closed());
    assert_eq!(stream, ping);
    assert_eq!(
        recv(&mut connection, &mut stream, 2).unwrap().unwrap().req_id(),
        0
    );
}

#[test]
fn only_the_end_of_the_stream_closes() {
    let mut connection = ZeroConnection::new().unwrap();
    assert!(matches!(connection.recv(1), Step::Pending { read: true }));
    let mut stream = no_message();
    assert!(matches!(
        connection.connection.received(&mut stream, 1),
        Received::Refused { .. }
    ));
    assert!(!connection.connection.is_closed());
    assert!(matches!(connection.recv(1), Step::Pending { read: true }));
    assert_eq!(connection.connection.ended(), vec![1]);
    assert!(connection.connection.is_closed());
    assert!(matches!(
        connection.recv(1),
        Step::Ready { value: Err(Error::ConnectionClosed), .. }
    ));
}

#[test]
fn what_is_handed_out_has_the_fields_of_what_was_sent() {
    let mut pair = create_pair();
    let (req_id, bytes) = pair.client.request("ping", Value::Null).unwrap();
    assert_eq!(req_id, 0);
    pair.to_server.extend(bytes);
    let request = recv(&mut pair.server, &mut pair.to_server, 1).unwrap().unwrap();
    assert_eq!(request.cmd(), "ping");
    assert_eq!(request.req_id(), 0);
    assert_eq!(*request.params(), Value::Null);
    pair.to_client.extend(pair.server.respond(request.req_id(), pong()).unwrap());
    let answer = response(&mut pair.client, &mut pair.to_client, req_id, 2).unwrap();
    assert_eq!(answer.cmd(), "response");
    assert_eq!(answer.to(), 0);
    assert_eq!(*answer.body(), pong());
}

#[test]
fn half_a_message_waits_for_the_rest() {
    let mut connection = ZeroConnection::new().unwrap();
    let bytes = ZeroMessage::request("ping", 0, Value::Null).encode().unwrap();
    assert!(matches!(connection.recv(1), Step::Pending { read: true }));
    let mut stream = bytes[..5].to_vec();
    assert_eq!(connection.connection.received(&mut stream, 1), Received::Partial);
    assert_eq!(stream, bytes[..5].to_vec());
    assert!(connection.connection.state().is_reading());
    stream.extend_from_slice(&bytes[5..]);
    stream.extend_from_slice(&bytes[..3]);
    assert_eq!(connection.connection.received(&mut stream, 1), Received::Message { wake: Some(1) });
    // What follows the message stays for the next read.
    assert_eq!(stream, bytes[..3].to_vec());
    assert!(!connection.connection.state().is_reading());
    match connection.recv(1) {
        Step::Ready { value: Ok(request), .. } => assert_eq!(request.req_id, 0),
        _ => panic!("no request"),
    }
}

#[test]
fn a_message_of_the_wrong_kind_is_reported() {
    let mut pair = create_pair();
    // A response that nobody asked for reaches the receiver.
    pair.to_server.extend(pair.client.respond(9, pong()).unwrap());
    assert!(matches!(
        recv(&mut pair.server, &mut pair.to_server, 1),
        Some(Err(Error::UnexpectedResponse))
    ));
}

#[test]
fn a_request_needs_an_id() {
    let mut connection: Connection<ZeroMessage> = Connection::new();
    assert!(matches!(
        connection.request(ZeroMessage::response(0, pong())),
        Err(Error::MissingReqId)
    ));
    let (key, bytes) = connection.request(ZeroMessage::request("ping", 4, Value::Null)).unwrap();
    assert_eq!(key, 4);
    assert_eq!(bytes, ZeroMessage::request("ping", 4, Value::Null).encode().unwrap());
    // A request that cannot be written leaves no slot behind.
    let mut nested = Value::Null;
    for _ in 0..2000 {
        nested = Value::Array(vec![nested]);
    }
    assert!(matches!(
        connection.request(ZeroMessage::request("deep", 5, nested)),
        Err(Error::EncodeRMPError(_))
    ));
    connection.ended();
    assert!(matches!(
        connection.response(5, 1),
        Step::Ready { value: Err(Error::ConnectionClosed), .. }
    ));
}

#[test]
fn connect_opens_with_the_handshake() {
    let (connection, bytes) = ZeroConnection::connect("127.0.0.1:15441", Handshake::at(7)).unwrap();
    assert_eq!(connection.next_req_id, 1);
    assert_eq!(connection.last_req_id(), 0);
    assert_eq!(connection.target_address.unwrap().to_string(), "127.0.0.1:15441");
    match ZeroMessage::decode(&bytes) {
        Parsed::Message { message, used } => {
            assert_eq!(used, bytes.len());
            let expected = ZeroMessage::request("handshake", 0, Handshake::at(7).into_value());
            assert_eq!(message, expected);
        }
        other => panic!("unexpected {:?}", other),
    }
    assert!(ZeroConnection::connect("[::1]:15441", Handshake::at(7)).is_ok());
    match ZeroConnection::connect("127.0.0.1", Handshake::at(7)) {
        Err(Error::Other(text)) => assert_eq!(text, "Address is missing port"),
        _ => panic!("connected without a port"),
    }
    match ZeroConnection::connect("ytcnzluhaxidtbf4.onion:80", Handshake::at(7)) {
        Err(Error::Other(text)) => assert_eq!(text, "Error creating tcp stream read-write pair"),
        _ => panic!("connected to an onion"),
    }
}

#[test]
fn error_text_carries_its_message() {
    match Error::text("anything") {
        Error::Other(message) => assert_eq!(message, "anything"),
        _ => panic!("not the error with a description"),
    }
}

#[test]
fn connection_errors_in_words() {
    assert_eq!(Error::ConnectionClosed.to_string(), "Connection is closed");
    assert_eq!(Error::ConnectionFailure.to_string(), "Error connecting to peer");
    assert_eq!(Error::MissingReqId.to_string(), "Missing request id");
    assert_eq!(Error::UnexpectedRequest.to_string(), "Unexpectedly received a request");
    assert_eq!(Error::UnexpectedResponse.to_string(), "Unexpectedly received a response");
    assert_eq!(Error::ChannelSendError.to_string(), "Error sending over mpsc channel");
    assert_eq!(
        Error::ChannelRecvError("gone".to_string()).to_string(),
        "Error receiving over mpsc channel: `gone`"
    );
    assert_eq!(Error::InvalidJson("eof".to_string()).to_string(), "Invalid JSON: `eof`");
    assert_eq!(
        Error::InvalidMessagePack("eof".to_string()).to_string(),
        "Invalid MessagePack: `eof`"
    );
    assert_eq!(
        Error::EncodeRMPError("deep".to_string()).to_string(),
        "Could not encode MessagePack: `deep`"
    );
    assert_eq!(Error::text("anything").to_string(), "This shouldn't even exist");
}

#[test]
fn a_task_that_gives_up_leaves_nothing_behind() {
    let mut pair = create_pair();
    let (req_id, bytes) = pair.client.request("ping", Value::Null).unwrap();
    pair.to_server.extend(bytes);
    assert!(matches!(pair.client.response(req_id, 1), Step::Pending { read: true }));
    assert!(matches!(pair.client.recv(2), Step::Pending { read: false }));
    pair.client.connection.abandon(&req_id);
    pair.client.connection.leave(2);
    assert_eq!(pair.client.connection.ended(), Vec::<u64>::new());
}
