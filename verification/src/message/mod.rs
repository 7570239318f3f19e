//! The messages of the wire protocol: requests, which carry a command and
//! an id of their own, and responses, which name the request they answer.

pub mod big_endian;
pub mod decode;
pub mod encode;
pub mod laws;
pub mod object;
pub mod templates;
pub mod value;
pub mod wire;
pub mod wire_laws;

use vstd::prelude::*;
use crate::error::Error;
use crate::message::decode::decode;
use crate::message::encode::encode;
use crate::message::laws::lemma_keys_differ;
use crate::message::object::{
    find_entry, get, lemma_get_without, put, put_entry, take_entry, without,
};
use crate::message::value::{entries_of, well_formed, Item, Number, Value};
use crate::message::wire::{fits, packed, unpacked, Decoded, Parsed, Unpacked, Wire, MAX_DEPTH};
use crate::message::wire_laws::lemma_unpacked_within;
use crate::requestable::Requestable;

verus! {

/// The answer to a request. What it carries lies beside `cmd` and `to` in
/// the wire form, not below them.
#[derive(Debug, PartialEq)]
pub struct Response {
    pub cmd: String,
    pub to: usize,
    response: Value,
}

/// A request: a command, the id under which the answer is expected, and
/// the parameters of the command.
#[derive(Debug, PartialEq)]
pub struct Request {
    pub cmd: String,
    pub req_id: usize,
    params: Value,
}

/// A message of the protocol.
#[derive(Debug, PartialEq)]
pub enum ZeroMessage {
    Response(Response),
    Request(Request),
}

/// A message as a mathematical value.
pub enum MessageView {
    Response { cmd: Seq<char>, to: usize, body: Item },
    Request { cmd: Seq<char>, req_id: usize, params: Item },
}

impl View for Response {
    type V = MessageView;

    closed spec fn view(&self) -> MessageView {
        MessageView::Response { cmd: self.cmd@, to: self.to, body: self.response@ }
    }
}

impl View for Request {
    type V = MessageView;

    closed spec fn view(&self) -> MessageView {
        MessageView::Request { cmd: self.cmd@, req_id: self.req_id, params: self.params@ }
    }
}

impl View for ZeroMessage {
    type V = MessageView;

    open spec fn view(&self) -> MessageView {
        match *self {
            ZeroMessage::Response(response) => response@,
            ZeroMessage::Request(request) => request@,
        }
    }
}

impl Clone for Response {
    fn clone(&self) -> (copy: Response)
        ensures
            copy@ == self@,
    {
        Response { cmd: self.cmd.clone(), to: self.to, response: self.response.clone() }
    }
}

impl Clone for Request {
    fn clone(&self) -> (copy: Request)
        ensures
            copy@ == self@,
    {
        Request { cmd: self.cmd.clone(), req_id: self.req_id, params: self.params.clone() }
    }
}

impl Clone for ZeroMessage {
    fn clone(&self) -> (copy: ZeroMessage)
        ensures
            copy@ == self@,
    {
        match self {
            ZeroMessage::Response(response) => ZeroMessage::Response(response.clone()),
            ZeroMessage::Request(request) => ZeroMessage::Request(request.clone()),
        }
    }
}

/// The key of the command.
pub open spec fn key_cmd() -> Seq<char> {
    "cmd"@
}

/// The key of the id of the request that a response answers.
pub open spec fn key_to() -> Seq<char> {
    "to"@
}

/// The key of the id of a request.
pub open spec fn key_req_id() -> Seq<char> {
    "req_id"@
}

/// The key of the parameters of a request.
pub open spec fn key_params() -> Seq<char> {
    "params"@
}

/// The command of every response built here.
pub open spec fn response_cmd() -> Seq<char> {
    "response"@
}

/// An id as a value.
pub open spec fn id_item(id: usize) -> Item {
    Item::Number(Number::PosInt(id as u64))
}

/// The id that a value stands for: a whole number that is not negative and
/// fits the machine.
pub open spec fn item_id(item: Option<Item>) -> Option<usize> {
    match item {
        Some(Item::Number(Number::PosInt(n))) => if n <= usize::MAX {
            Some(n as usize)
        } else {
            None
        },
        _ => None,
    }
}

impl MessageView {
    /// The object that goes on the wire for the message, if it has one. A
    /// request is an object of `cmd`, `req_id` and, unless they are null,
    /// `params`. A response is the object it carries with `cmd` and `to`
    /// put into it; one that carries neither an object nor null has no wire
    /// form.
    pub open spec fn item(self) -> Option<Item> {
        match self {
            MessageView::Request { cmd, req_id, params } => {
                let base = put(
                    put(Seq::empty(), key_cmd(), Item::Text(cmd)),
                    key_req_id(),
                    id_item(req_id),
                );
                if params is Null {
                    Some(Item::Object(base))
                } else {
                    Some(Item::Object(put(base, key_params(), params)))
                }
            },
            MessageView::Response { cmd, to, body } => match body {
                Item::Object(entries) => Some(
                    Item::Object(
                        put(put(entries, key_cmd(), Item::Text(cmd)), key_to(), id_item(to)),
                    ),
                ),
                Item::Null => Some(
                    Item::Object(
                        put(put(Seq::empty(), key_cmd(), Item::Text(cmd)), key_to(), id_item(to)),
                    ),
                ),
                _ => None,
            },
        }
    }

    /// The message that an object from the wire stands for, if it stands
    /// for one. An object with a text under `cmd` and an id under `to` is a
    /// response, which carries the other entries. Failing that, an object
    /// with a text under `cmd` and an id under `req_id` is a request; its
    /// parameters are what stands under `params`, or null.
    pub open spec fn from_item(item: Item) -> Option<MessageView> {
        match item {
            Item::Object(entries) => match get(entries, key_cmd()) {
                Some(Item::Text(cmd)) => match item_id(get(entries, key_to())) {
                    Some(to) => Some(
                        MessageView::Response {
                            cmd,
                            to,
                            body: Item::Object(without(without(entries, key_to()), key_cmd())),
                        },
                    ),
                    None => match item_id(get(entries, key_req_id())) {
                        Some(req_id) => Some(
                            MessageView::Request {
                                cmd,
                                req_id,
                                params: match get(entries, key_params()) {
                                    Some(params) => params,
                                    None => Item::Null,
                                },
                            },
                        ),
                        None => None,
                    },
                },
                _ => None,
            },
            _ => None,
        }
    }

    /// Whether the message is in order: what it carries is in order, and a
    /// response carries an object that has no entry of its own under `cmd`
    /// or `to`.
    pub open spec fn well_formed(self) -> bool {
        match self {
            MessageView::Request { params, .. } => well_formed(params),
            MessageView::Response { body, .. } => {
                &&& body matches Item::Object(entries)
                &&& well_formed(body)
                &&& get(entries, key_cmd()) is None
                &&& get(entries, key_to()) is None
            },
        }
    }

    /// The bytes that go on the wire for the message, if it has a wire
    /// form.
    pub open spec fn wire(self) -> Option<Seq<u8>> {
        match self.item() {
            Some(item) => if fits(item, MAX_DEPTH as nat) {
                Some(packed(item))
            } else {
                None
            },
            None => None,
        }
    }

    /// The message that the bytes start with.
    pub open spec fn from_wire(bytes: Seq<u8>) -> Unpacked<MessageView> {
        match unpacked(bytes, MAX_DEPTH as nat) {
            Unpacked::Complete { value, used } => match Self::from_item(value) {
                Some(message) => Unpacked::Complete { value: message, used },
                None => Unpacked::Invalid,
            },
            Unpacked::Incomplete => Unpacked::Incomplete,
            Unpacked::Invalid => Unpacked::Invalid,
        }
    }

    /// The command of the message.
    pub open spec fn cmd(self) -> Seq<char> {
        match self {
            MessageView::Response { cmd, .. } => cmd,
            MessageView::Request { cmd, .. } => cmd,
        }
    }

    /// What the message carries: the parameters of a request, the body of
    /// a response.
    pub open spec fn payload(self) -> Item {
        match self {
            MessageView::Response { body, .. } => body,
            MessageView::Request { params, .. } => params,
        }
    }

    /// The id under which the message opens a request.
    pub open spec fn req_id(self) -> Option<usize> {
        match self {
            MessageView::Request { req_id, .. } => Some(req_id),
            _ => None,
        }
    }

    /// The id of the request that the message answers.
    pub open spec fn to(self) -> Option<usize> {
        match self {
            MessageView::Response { to, .. } => Some(to),
            _ => None,
        }
    }
}

/// The id that `value` stands for, if it stands for one.
fn id_of(value: &Value) -> (id: Option<usize>)
    ensures
        id == item_id(Some(value@)),
{
    match value {
        Value::Number(Number::PosInt(n)) => {
            if *n <= usize::MAX as u64 {
                Some(*n as usize)
            } else {
                None
            }
        },
        _ => None,
    }
}

/// The id under `key`, if the entries hold one there.
fn id_under(entries: &Vec<(String, Value)>, key: &str) -> (id: Option<usize>)
    ensures
        id == item_id(get(entries_of(entries@), key@)),
{
    match find_entry(entries, key) {
        Some(i) => id_of(&entries[i].1),
        None => None,
    }
}

/// Takes the text under `cmd` out of the entries, if they hold one there.
fn take_cmd(entries: &mut Vec<(String, Value)>) -> (cmd: Option<String>)
    ensures
        match cmd {
            Some(text) => get(entries_of(old(entries)@), key_cmd()) == Some(Item::Text(text@))
                && entries_of(final(entries)@) == without(entries_of(old(entries)@), key_cmd()),
            None => !(get(entries_of(old(entries)@), key_cmd()) matches Some(Item::Text(_))),
        },
{
    match find_entry(entries, "cmd") {
        Some(i) => {
            match &entries[i].1 {
                Value::String(_) => {},
                _ => {
                    return None;
                },
            }
            match take_entry(entries, "cmd") {
                Some(Value::String(text)) => Some(text),
                _ => None,
            }
        },
        None => None,
    }
}

impl Request {
    /// The command.
    pub fn cmd(&self) -> (cmd: &str)
        ensures
            self@ is Request,
            self@.cmd() == cmd@,
    {
        self.cmd.as_str()
    }

    /// The id under which the answer is expected.
    pub fn req_id(&self) -> (id: usize)
        ensures
            self@ is Request,
            self@.req_id() == Some(id),
    {
        self.req_id
    }

    /// The parameters of the command.
    pub fn params(&self) -> (params: &Value)
        ensures
            self@ is Request,
            self@.payload() == params@,
    {
        &self.params
    }

    /// A request is seen as a request.
    pub proof fn lemma_view(self)
        ensures
            self@ is Request,
    {
    }
}

impl Response {
    /// The command, which is `response` for every response built here.
    pub fn cmd(&self) -> (cmd: &str)
        ensures
            self@ is Response,
            self@.cmd() == cmd@,
    {
        self.cmd.as_str()
    }

    /// The id of the request that is answered.
    pub fn to(&self) -> (id: usize)
        ensures
            self@ is Response,
            self@.to() == Some(id),
    {
        self.to
    }

    /// What the response carries.
    pub fn body(&self) -> (body: &Value)
        ensures
            self@ is Response,
            self@.payload() == body@,
    {
        &self.response
    }

    /// A response is seen as a response.
    pub proof fn lemma_view(self)
        ensures
            self@ is Response,
    {
    }
}

/// The kind of a message is the kind of its view: a request is seen as a
/// request and a response as a response, and the view of the message is the
/// view of what it holds.
pub proof fn lemma_kind(message: ZeroMessage)
    ensures
        message is Request <==> message@ is Request,
        message is Response <==> message@ is Response,
        message matches ZeroMessage::Request(request) ==> request@ == message@,
        message matches ZeroMessage::Response(response) ==> response@ == message@,
{
}

impl ZeroMessage {
    /// A request for the command `cmd` under the id `req_id`, with `body`
    /// as its parameters.
    pub fn request(cmd: &str, req_id: usize, body: Value) -> (message: ZeroMessage)
        ensures
            message@ == (MessageView::Request { cmd: cmd@, req_id, params: body@ }),
    {
        ZeroMessage::Request(Request { cmd: cmd.to_owned(), req_id, params: body })
    }

    /// A response to the request `to` that carries `body`.
    pub fn response(to: usize, body: Value) -> (message: ZeroMessage)
        ensures
            message@ == (MessageView::Response { cmd: response_cmd(), to, body: body@ }),
    {
        ZeroMessage::Response(Response { cmd: "response".to_owned(), to, response: body })
    }

    /// Whether the message is a response.
    pub fn is_response(&self) -> (r: bool)
        ensures
            r == (self@ is Response),
    {
        match self {
            ZeroMessage::Response(_) => true,
            _ => false,
        }
    }

    /// Whether the message is a request.
    pub fn is_request(&self) -> (r: bool)
        ensures
            r == (self@ is Request),
    {
        !self.is_response()
    }

    /// What the message carries: the parameters of a request, the body of
    /// a response.
    pub fn body(self) -> (body: Value)
        ensures
            body@ == self@.payload(),
    {
        match self {
            ZeroMessage::Response(res) => res.response,
            ZeroMessage::Request(req) => req.params,
        }
    }

    /// The object that goes on the wire for the message, or `None` for a
    /// response that carries neither an object nor null.
    pub fn into_value(self) -> (value: Option<Value>)
        ensures
            match value {
                Some(value) => self@.item() == Some(value@),
                None => self@.item() is None,
            },
    {
        match self {
            ZeroMessage::Request(request) => {
                let mut entries: Vec<(String, Value)> = Vec::new();
                put_entry(&mut entries, "cmd".to_owned(), Value::String(request.cmd));
                put_entry(
                    &mut entries,
                    "req_id".to_owned(),
                    Value::Number(Number::PosInt(request.req_id as u64)),
                );
                match request.params {
                    Value::Null => {},
                    params => {
                        put_entry(&mut entries, "params".to_owned(), params);
                    },
                }
                Some(Value::Object(entries))
            },
            ZeroMessage::Response(response) => {
                let mut entries = match response.response {
                    Value::Object(entries) => entries,
                    Value::Null => Vec::new(),
                    _ => {
                        return None;
                    },
                };
                put_entry(&mut entries, "cmd".to_owned(), Value::String(response.cmd));
                put_entry(
                    &mut entries,
                    "to".to_owned(),
                    Value::Number(Number::PosInt(response.to as u64)),
                );
                Some(Value::Object(entries))
            },
        }
    }

    /// The message that an object from the wire stands for, or `None`
    /// where it stands for none.
    pub fn from_value(value: Value) -> (message: Option<ZeroMessage>)
        ensures
            match message {
                Some(message) => MessageView::from_item(value@) == Some(message@),
                None => MessageView::from_item(value@) is None,
            },
    {
        let mut entries = match value {
            Value::Object(entries) => entries,
            _ => {
                return None;
            },
        };
        let ghost all = entries_of(entries@);
        let to = id_under(&entries, "to");
        let req_id = id_under(&entries, "req_id");
        match to {
            Some(to) => {
                take_entry(&mut entries, "to");
                proof {
                    lemma_keys_differ();
                    lemma_get_without(all, key_to(), key_cmd());
                }
                match take_cmd(&mut entries) {
                    Some(cmd) => {
                        let response = Value::Object(entries);
                        Some(ZeroMessage::Response(Response { cmd, to, response }))
                    },
                    None => None,
                }
            },
            None => match req_id {
                Some(req_id) => {
                    let params = match take_entry(&mut entries, "params") {
                        Some(params) => params,
                        None => Value::Null,
                    };
                    proof {
                        lemma_keys_differ();
                        lemma_get_without(all, key_params(), key_cmd());
                    }
                    match take_cmd(&mut entries) {
                        Some(cmd) => Some(ZeroMessage::Request(Request { cmd, req_id, params })),
                        None => None,
                    }
                },
                None => None,
            },
        }
    }
}

impl Wire for ZeroMessage {
    open spec fn is_encoded(&self, outcome: Result<Vec<u8>, Error>) -> bool {
        match outcome {
            Ok(bytes) => self@.wire() == Some(bytes@),
            Err(e) => self@.wire() is None && e is EncodeRMPError,
        }
    }

    /// A whole value that stands for a message is read as that message. A
    /// whole value that stands for none is refused, all of it. Of bytes
    /// that are not the start of a value the first one is refused: no end
    /// of a value can be found among them.
    open spec fn is_decoded(bytes: Seq<u8>, outcome: Parsed<ZeroMessage>) -> bool {
        match (unpacked(bytes, MAX_DEPTH as nat), outcome) {
            (Unpacked::Complete { value, used }, Parsed::Message { message, used: n }) => {
                MessageView::from_item(value) == Some(message@) && n == used
            },
            (Unpacked::Complete { value, used }, Parsed::Refused { used: n }) => {
                MessageView::from_item(value) is None && n == used
            },
            (Unpacked::Incomplete, Parsed::Incomplete) => true,
            (Unpacked::Invalid, Parsed::Refused { used: n }) => n == 1,
            _ => false,
        }
    }

    /// The bytes that go on the wire for the message. A message without a
    /// wire form is refused: a response that carries neither an object nor
    /// null, and a message with a part that is too long or nested too deep.
    fn encode(self) -> (r: Result<Vec<u8>, Error>) {
        match self.into_value() {
            Some(value) => encode(&value),
            None => Err(Error::EncodeRMPError("a response carries an object".to_owned())),
        }
    }

    /// Reads the message that `bytes` start with. Bytes behind it are left
    /// alone: `used` tells where the next message starts.
    fn decode(bytes: &[u8]) -> (r: Parsed<ZeroMessage>) {
        match decode(bytes) {
            Decoded::Complete { value, used } => {
                proof {
                    lemma_unpacked_within(bytes@, MAX_DEPTH as nat);
                }
                match ZeroMessage::from_value(value) {
                    Some(message) => Parsed::Message { message, used },
                    None => Parsed::Refused { used },
                }
            },
            Decoded::Incomplete => Parsed::Incomplete,
            Decoded::Invalid => Parsed::Refused { used: 1 },
        }
    }
}

impl Requestable for ZeroMessage {
    type Key = usize;

    open spec fn spec_req_id(&self) -> Option<usize> {
        self@.req_id()
    }

    open spec fn spec_to(&self) -> Option<usize> {
        self@.to()
    }

    fn req_id(&self) -> (id: Option<usize>) {
        match self {
            ZeroMessage::Request(req) => Some(req.req_id),
            _ => None,
        }
    }

    fn to(&self) -> (id: Option<usize>) {
        match self {
            ZeroMessage::Response(res) => Some(res.to),
            _ => None,
        }
    }
}

} // verus!
