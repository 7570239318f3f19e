//! Decoding a message gives back the message that was encoded.

use vstd::prelude::*;
use crate::message::{
    id_item, key_cmd, key_params, key_req_id, key_to, MessageView, Request, Response, ZeroMessage,
};
use crate::message::object::{
    lemma_get_put, lemma_put_ascends, lemma_put_well_formed, lemma_without_put, put,
};
use crate::message::value::{well_formed, Item};
use crate::message::wire::{Parsed, Unpacked, Wire, MAX_DEPTH};
use crate::message::wire_laws::lemma_unpacked_packed;
use crate::requestable::keys_comparable;

verus! {

/// The four keys differ from each other.
pub proof fn lemma_keys_differ()
    ensures
        key_cmd() != key_to(),
        key_cmd() != key_req_id(),
        key_cmd() != key_params(),
        key_to() != key_req_id(),
        key_to() != key_params(),
        key_req_id() != key_params(),
{
    reveal_strlit("cmd");
    reveal_strlit("to");
    reveal_strlit("req_id");
    reveal_strlit("params");
    assert(key_cmd().len() == 3);
    assert(key_to().len() == 2);
    assert(key_req_id().len() == 6);
    assert(key_params().len() == 6);
    assert(key_req_id()[0] == 'r');
    assert(key_params()[0] == 'p');
}

/// A message is a request or a response, and never both: it has an id of
/// its own or names the request it answers.
pub proof fn lemma_one_kind(message: MessageView)
    ensures
        message.req_id() is Some <==> message.to() is None,
        message is Request <==> message.req_id() is Some,
        message is Response <==> message.to() is Some,
{
}

/// The object of a message that is in order is in order.
pub proof fn lemma_item_well_formed(message: MessageView)
    requires
        message.well_formed(),
        message.item() is Some,
    ensures
        well_formed(message.item().unwrap()),
{
    let empty = Seq::<(Seq<char>, Item)>::empty();
    match message {
        MessageView::Request { cmd, req_id, params } => {
            let one = put(empty, key_cmd(), Item::Text(cmd));
            let two = put(one, key_req_id(), id_item(req_id));
            lemma_put_ascends(empty, key_cmd(), Item::Text(cmd));
            lemma_put_well_formed(empty, key_cmd(), Item::Text(cmd));
            lemma_put_ascends(one, key_req_id(), id_item(req_id));
            lemma_put_well_formed(one, key_req_id(), id_item(req_id));
            lemma_put_ascends(two, key_params(), params);
            lemma_put_well_formed(two, key_params(), params);
        },
        MessageView::Response { cmd, to, body } => {
            let entries = body->Object_0;
            let one = put(entries, key_cmd(), Item::Text(cmd));
            lemma_put_ascends(entries, key_cmd(), Item::Text(cmd));
            lemma_put_well_formed(entries, key_cmd(), Item::Text(cmd));
            lemma_put_ascends(one, key_to(), id_item(to));
            lemma_put_well_formed(one, key_to(), id_item(to));
        },
    }
}

/// The object of a message stands for that message.
pub proof fn lemma_from_item(message: MessageView)
    requires
        message.well_formed(),
        message.item() is Some,
    ensures
        MessageView::from_item(message.item().unwrap()) == Some(message),
{
    let empty = Seq::<(Seq<char>, Item)>::empty();
    lemma_keys_differ();
    match message {
        MessageView::Request { cmd, req_id, params } => {
            let one = put(empty, key_cmd(), Item::Text(cmd));
            let two = put(one, key_req_id(), id_item(req_id));
            lemma_get_put(empty, key_cmd(), Item::Text(cmd), key_to());
            lemma_get_put(empty, key_cmd(), Item::Text(cmd), key_params());
            lemma_get_put(one, key_req_id(), id_item(req_id), key_cmd());
            lemma_get_put(one, key_req_id(), id_item(req_id), key_to());
            lemma_get_put(one, key_req_id(), id_item(req_id), key_params());
            if !(params is Null) {
                lemma_get_put(two, key_params(), params, key_cmd());
                lemma_get_put(two, key_params(), params, key_to());
                lemma_get_put(two, key_params(), params, key_req_id());
            }
        },
        MessageView::Response { cmd, to, body } => {
            let entries = body->Object_0;
            let one = put(entries, key_cmd(), Item::Text(cmd));
            let two = put(one, key_to(), id_item(to));
            lemma_get_put(entries, key_cmd(), Item::Text(cmd), key_to());
            lemma_get_put(one, key_to(), id_item(to), key_cmd());
            lemma_without_put(one, key_to(), id_item(to));
            lemma_without_put(entries, key_cmd(), Item::Text(cmd));
        },
    }
}

/// Decoding gives back what was encoded: the wire form of a message that
/// is in order, whatever follows it, is read as that message.
pub proof fn lemma_from_wire(message: MessageView, rest: Seq<u8>)
    requires
        message.well_formed(),
        message.wire() is Some,
    ensures
        MessageView::from_wire(message.wire().unwrap() + rest) == (Unpacked::Complete {
            value: message,
            used: message.wire().unwrap().len(),
        }),
{
    let item = message.item().unwrap();
    lemma_item_well_formed(message);
    lemma_unpacked_packed(item, rest, MAX_DEPTH as nat);
    lemma_from_item(message);
}

/// What `decode` reads from the bytes that `encode` gave for a message that
/// is in order, whatever follows them, is that message, and it takes up
/// exactly those bytes.
pub proof fn lemma_decode_encode(
    message: ZeroMessage,
    bytes: Vec<u8>,
    rest: Seq<u8>,
    outcome: Parsed<ZeroMessage>,
)
    requires
        message@.well_formed(),
        message.is_encoded(Ok(bytes)),
        ZeroMessage::is_decoded(bytes@ + rest, outcome),
    ensures
        match outcome {
            Parsed::Message { message: read, used } => read@ == message@ && used == bytes@.len(),
            _ => false,
        },
{
    lemma_from_wire(message@, rest);
}

/// The ids of messages are compared as the numbers they are.
pub proof fn lemma_message_keys()
    ensures
        keys_comparable::<ZeroMessage>(),
{
}

} // verus!
