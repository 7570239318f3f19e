//! The wire form of values: MessagePack, with text as `str`, bytes as `bin`
//! and every number and length in the shortest form that holds it.

use vstd::prelude::*;
use vstd::utf8::{decode_utf8, encode_utf8, valid_utf8};
use crate::error::Error;
use crate::message::big_endian::{be_bytes, be_value, limit};
use crate::message::object::put;
use crate::message::value::{Item, Number, Value};

verus! {

/// The deepest nesting of arrays and objects that a message may have.
pub const MAX_DEPTH: usize = 1024;

/// The wire form of a whole number that is not negative.
pub open spec fn packed_uint(n: u64) -> Seq<u8> {
    if n < 0x80 {
        seq![n as u8]
    } else if n < 0x100 {
        seq![0xccu8] + be_bytes(n as nat, 1)
    } else if n < 0x1_0000 {
        seq![0xcdu8] + be_bytes(n as nat, 2)
    } else if n < 0x1_0000_0000 {
        seq![0xceu8] + be_bytes(n as nat, 4)
    } else {
        seq![0xcfu8] + be_bytes(n as nat, 8)
    }
}

/// The wire form of a whole number below zero.
pub open spec fn packed_nint(i: i64) -> Seq<u8> {
    if i >= -32 {
        seq![(0x100 + i) as u8]
    } else if i >= -0x80 {
        seq![0xd0u8] + be_bytes((0x100 + i) as nat, 1)
    } else if i >= -0x8000 {
        seq![0xd1u8] + be_bytes((0x1_0000 + i) as nat, 2)
    } else if i >= -0x8000_0000 {
        seq![0xd2u8] + be_bytes((0x1_0000_0000 + i) as nat, 4)
    } else {
        seq![0xd3u8] + be_bytes((0x1_0000_0000_0000_0000 + i) as nat, 8)
    }
}

/// The wire form of a number.
pub open spec fn packed_number(n: Number) -> Seq<u8> {
    match n {
        Number::PosInt(u) => packed_uint(u),
        Number::NegInt(i) => if i < 0 {
            packed_nint(i)
        } else {
            packed_uint(i as u64)
        },
        Number::Float32(bits) => seq![0xcau8] + be_bytes(bits as nat, 4),
        Number::Float64(bits) => seq![0xcbu8] + be_bytes(bits as nat, 8),
    }
}

/// The wire form of the length of a text.
pub open spec fn packed_text_len(len: nat) -> Seq<u8> {
    if len < 32 {
        seq![(0xa0 + len) as u8]
    } else if len < 0x100 {
        seq![0xd9u8] + be_bytes(len, 1)
    } else if len < 0x1_0000 {
        seq![0xdau8] + be_bytes(len, 2)
    } else {
        seq![0xdbu8] + be_bytes(len, 4)
    }
}

/// The wire form of the length of a byte string.
pub open spec fn packed_bytes_len(len: nat) -> Seq<u8> {
    if len < 0x100 {
        seq![0xc4u8] + be_bytes(len, 1)
    } else if len < 0x1_0000 {
        seq![0xc5u8] + be_bytes(len, 2)
    } else {
        seq![0xc6u8] + be_bytes(len, 4)
    }
}

/// The wire form of the length of an array.
pub open spec fn packed_array_len(len: nat) -> Seq<u8> {
    if len < 16 {
        seq![(0x90 + len) as u8]
    } else if len < 0x1_0000 {
        seq![0xdcu8] + be_bytes(len, 2)
    } else {
        seq![0xddu8] + be_bytes(len, 4)
    }
}

/// The wire form of the number of entries of an object.
pub open spec fn packed_object_len(len: nat) -> Seq<u8> {
    if len < 16 {
        seq![(0x80 + len) as u8]
    } else if len < 0x1_0000 {
        seq![0xdeu8] + be_bytes(len, 2)
    } else {
        seq![0xdfu8] + be_bytes(len, 4)
    }
}

/// The wire form of a text: its length, then its UTF-8 bytes.
pub open spec fn packed_text(text: Seq<char>) -> Seq<u8> {
    packed_text_len(encode_utf8(text).len()) + encode_utf8(text)
}

/// The wire form of a value.
pub open spec fn packed(item: Item) -> Seq<u8>
    decreases item,
{
    match item {
        Item::Null => seq![0xc0u8],
        Item::Bool(b) => if b {
            seq![0xc3u8]
        } else {
            seq![0xc2u8]
        },
        Item::Number(n) => packed_number(n),
        Item::Text(text) => packed_text(text),
        Item::Bytes(bytes) => packed_bytes_len(bytes.len()) + bytes,
        Item::Array(items) => packed_array_len(items.len()) + packed_items(items),
        Item::Object(entries) => packed_object_len(entries.len()) + packed_entries(entries),
    }
}

/// The wire forms of a series of values, one after the other.
pub open spec fn packed_items(items: Seq<Item>) -> Seq<u8>
    decreases items,
{
    if items.len() == 0 {
        Seq::empty()
    } else {
        packed_items(items.drop_last()) + packed(items.last())
    }
}

/// The wire forms of the entries of an object: each key as a text, then
/// its value.
pub open spec fn packed_entries(entries: Seq<(Seq<char>, Item)>) -> Seq<u8>
    decreases entries,
{
    if entries.len() == 0 {
        Seq::empty()
    } else {
        packed_entries(entries.drop_last()) + packed_text(entries.last().0) + packed(
            entries.last().1,
        )
    }
}

/// Whether the value has a wire form within `depth` levels of nesting: no
/// text, byte string, array or object in it has 2^32 parts or more.
pub open spec fn fits(item: Item, depth: nat) -> bool
    decreases item,
{
    match item {
        Item::Text(text) => encode_utf8(text).len() < 0x1_0000_0000,
        Item::Bytes(bytes) => bytes.len() < 0x1_0000_0000,
        Item::Array(items) => depth > 0 && items.len() < 0x1_0000_0000 && items_fit(
            items,
            (depth - 1) as nat,
        ),
        Item::Object(entries) => depth > 0 && entries.len() < 0x1_0000_0000 && entries_fit(
            entries,
            (depth - 1) as nat,
        ),
        _ => true,
    }
}

/// Whether each of the values has a wire form within `depth` levels.
pub open spec fn items_fit(items: Seq<Item>, depth: nat) -> bool
    decreases items,
{
    if items.len() == 0 {
        true
    } else {
        items_fit(items.drop_last(), depth) && fits(items.last(), depth)
    }
}

/// Whether each of the entries has a wire form within `depth` levels.
pub open spec fn entries_fit(entries: Seq<(Seq<char>, Item)>, depth: nat) -> bool
    decreases entries,
{
    if entries.len() == 0 {
        true
    } else {
        &&& entries_fit(entries.drop_last(), depth)
        &&& encode_utf8(entries.last().0).len() < 0x1_0000_0000
        &&& fits(entries.last().1, depth)
    }
}

/// What reading from the front of some bytes comes to.
pub enum Unpacked<T> {
    /// The bytes start with the wire form of `value`, which takes up `used`
    /// of them.
    Complete { value: T, used: nat },
    /// The bytes end before the wire form does.
    Incomplete,
    /// The bytes are not the start of a wire form.
    Invalid,
}

/// What the first bytes of a wire form say of the value: all of it, or its
/// kind and how many parts follow.
pub enum Head {
    Null,
    Bool(bool),
    Number(Number),
    Text(nat),
    Bytes(nat),
    Array(nat),
    Object(nat),
}

/// Whether a value can start with this byte. The extension types of
/// MessagePack and its one unused byte are not taken.
pub open spec fn is_marker(marker: u8) -> bool {
    marker != 0xc1 && !(0xc7 <= marker <= 0xc9) && !(0xd4 <= marker <= 0xd8)
}

/// The number of bytes that follow the marker and hold a number or a
/// length.
pub open spec fn field_width(marker: u8) -> nat {
    if marker == 0xc4 || marker == 0xcc || marker == 0xd0 || marker == 0xd9 {
        1
    } else if marker == 0xc5 || marker == 0xcd || marker == 0xd1 || marker == 0xda || marker
        == 0xdc || marker == 0xde {
        2
    } else if marker == 0xc6 || marker == 0xca || marker == 0xce || marker == 0xd2 || marker
        == 0xdb || marker == 0xdd || marker == 0xdf {
        4
    } else if marker == 0xcb || marker == 0xcf || marker == 0xd3 {
        8
    } else {
        0
    }
}

/// The whole number that `raw` stands for as a signed number of `width`
/// bytes.
pub open spec fn signed_number(raw: nat, width: nat) -> Number {
    if 2 * raw >= limit(width) {
        Number::NegInt((raw - limit(width)) as i64)
    } else {
        Number::PosInt(raw as u64)
    }
}

/// What a marker and the field behind it say of the value.
pub open spec fn head_of(marker: u8, field: nat) -> Head {
    if marker < 0x80 {
        Head::Number(Number::PosInt(marker as u64))
    } else if marker < 0x90 {
        Head::Object((marker - 0x80) as nat)
    } else if marker < 0xa0 {
        Head::Array((marker - 0x90) as nat)
    } else if marker < 0xc0 {
        Head::Text((marker - 0xa0) as nat)
    } else if marker == 0xc2 {
        Head::Bool(false)
    } else if marker == 0xc3 {
        Head::Bool(true)
    } else if marker == 0xc4 || marker == 0xc5 || marker == 0xc6 {
        Head::Bytes(field)
    } else if marker == 0xca {
        Head::Number(Number::Float32(field as u32))
    } else if marker == 0xcb {
        Head::Number(Number::Float64(field as u64))
    } else if marker == 0xcc || marker == 0xcd || marker == 0xce || marker == 0xcf {
        Head::Number(Number::PosInt(field as u64))
    } else if marker == 0xd0 {
        Head::Number(signed_number(field, 1))
    } else if marker == 0xd1 {
        Head::Number(signed_number(field, 2))
    } else if marker == 0xd2 {
        Head::Number(signed_number(field, 4))
    } else if marker == 0xd3 {
        Head::Number(signed_number(field, 8))
    } else if marker == 0xd9 || marker == 0xda || marker == 0xdb {
        Head::Text(field)
    } else if marker == 0xdc || marker == 0xdd {
        Head::Array(field)
    } else if marker == 0xde || marker == 0xdf {
        Head::Object(field)
    } else if marker >= 0xe0 {
        Head::Number(Number::NegInt((marker - 0x100) as i64))
    } else {
        Head::Null
    }
}

/// The head that the bytes start with.
pub open spec fn unpacked_head(bytes: Seq<u8>) -> Unpacked<Head> {
    if bytes.len() == 0 {
        Unpacked::Incomplete
    } else if !is_marker(bytes[0]) {
        Unpacked::Invalid
    } else if bytes.len() < 1 + field_width(bytes[0]) {
        Unpacked::Incomplete
    } else {
        Unpacked::Complete {
            value: head_of(
                bytes[0],
                be_value(bytes.subrange(1, 1 + field_width(bytes[0]) as int)),
            ),
            used: 1 + field_width(bytes[0]),
        }
    }
}

/// The text or the byte string that `data` is read as: a text where the
/// bytes are valid UTF-8, and a byte string else.
pub open spec fn text_or_bytes(data: Seq<u8>) -> Item {
    if valid_utf8(data) {
        Item::Text(decode_utf8(data))
    } else {
        Item::Bytes(data)
    }
}

/// The value that the bytes start with, read to at most `depth` levels of
/// nesting.
pub open spec fn unpacked(bytes: Seq<u8>, depth: nat) -> Unpacked<Item>
    decreases depth, 0nat,
{
    match unpacked_head(bytes) {
        Unpacked::Incomplete => Unpacked::Incomplete,
        Unpacked::Invalid => Unpacked::Invalid,
        Unpacked::Complete { value: head, used } => {
            let rest = bytes.skip(used as int);
            match head {
                Head::Null => Unpacked::Complete { value: Item::Null, used },
                Head::Bool(b) => Unpacked::Complete { value: Item::Bool(b), used },
                Head::Number(n) => Unpacked::Complete { value: Item::Number(n), used },
                Head::Text(len) => if rest.len() < len {
                    Unpacked::Incomplete
                } else {
                    Unpacked::Complete {
                        value: text_or_bytes(rest.take(len as int)),
                        used: used + len,
                    }
                },
                Head::Bytes(len) => if rest.len() < len {
                    Unpacked::Incomplete
                } else {
                    Unpacked::Complete {
                        value: Item::Bytes(rest.take(len as int)),
                        used: used + len,
                    }
                },
                Head::Array(count) => if depth == 0 {
                    Unpacked::Invalid
                } else {
                    match unpacked_items(rest, count, (depth - 1) as nat) {
                        Unpacked::Complete { value: items, used: more } => Unpacked::Complete {
                            value: Item::Array(items),
                            used: used + more,
                        },
                        Unpacked::Incomplete => Unpacked::Incomplete,
                        Unpacked::Invalid => Unpacked::Invalid,
                    }
                },
                Head::Object(count) => if depth == 0 {
                    Unpacked::Invalid
                } else {
                    match unpacked_entries(rest, count, (depth - 1) as nat) {
                        Unpacked::Complete { value: entries, used: more } => Unpacked::Complete {
                            value: Item::Object(entries),
                            used: used + more,
                        },
                        Unpacked::Incomplete => Unpacked::Incomplete,
                        Unpacked::Invalid => Unpacked::Invalid,
                    }
                },
            }
        },
    }
}

/// The `count` values that the bytes start with, one after the other.
pub open spec fn unpacked_items(bytes: Seq<u8>, count: nat, depth: nat) -> Unpacked<Seq<Item>>
    decreases depth, count + 1,
{
    if count == 0 {
        Unpacked::Complete { value: Seq::empty(), used: 0 }
    } else {
        match unpacked_items(bytes, (count - 1) as nat, depth) {
            Unpacked::Complete { value: items, used } => match unpacked(
                bytes.skip(used as int),
                depth,
            ) {
                Unpacked::Complete { value: item, used: more } => Unpacked::Complete {
                    value: items.push(item),
                    used: used + more,
                },
                Unpacked::Incomplete => Unpacked::Incomplete,
                Unpacked::Invalid => Unpacked::Invalid,
            },
            Unpacked::Incomplete => Unpacked::Incomplete,
            Unpacked::Invalid => Unpacked::Invalid,
        }
    }
}

/// The key that the bytes start with: a text.
pub open spec fn unpacked_key(bytes: Seq<u8>) -> Unpacked<Seq<char>> {
    match unpacked_head(bytes) {
        Unpacked::Complete { value: Head::Text(len), used } => {
            let rest = bytes.skip(used as int);
            if rest.len() < len {
                Unpacked::Incomplete
            } else if valid_utf8(rest.take(len as int)) {
                Unpacked::Complete { value: decode_utf8(rest.take(len as int)), used: used + len }
            } else {
                Unpacked::Invalid
            }
        },
        Unpacked::Complete { .. } => Unpacked::Invalid,
        Unpacked::Incomplete => Unpacked::Incomplete,
        Unpacked::Invalid => Unpacked::Invalid,
    }
}

/// The entry that the bytes start with: a key and its value.
pub open spec fn unpacked_entry(bytes: Seq<u8>, depth: nat) -> Unpacked<(Seq<char>, Item)>
    decreases depth, 1nat,
{
    match unpacked_key(bytes) {
        Unpacked::Complete { value: key, used } => match unpacked(bytes.skip(used as int), depth) {
            Unpacked::Complete { value: item, used: more } => Unpacked::Complete {
                value: (key, item),
                used: used + more,
            },
            Unpacked::Incomplete => Unpacked::Incomplete,
            Unpacked::Invalid => Unpacked::Invalid,
        },
        Unpacked::Incomplete => Unpacked::Incomplete,
        Unpacked::Invalid => Unpacked::Invalid,
    }
}

/// The object of the `count` entries that the bytes start with. Of two
/// entries with one key the later stays.
pub open spec fn unpacked_entries(bytes: Seq<u8>, count: nat, depth: nat) -> Unpacked<
    Seq<(Seq<char>, Item)>,
>
    decreases depth, count + 2,
{
    if count == 0 {
        Unpacked::Complete { value: Seq::empty(), used: 0 }
    } else {
        match unpacked_entries(bytes, (count - 1) as nat, depth) {
            Unpacked::Complete { value: entries, used } => match unpacked_entry(
                bytes.skip(used as int),
                depth,
            ) {
                Unpacked::Complete { value: entry, used: more } => Unpacked::Complete {
                    value: put(entries, entry.0, entry.1),
                    used: used + more,
                },
                Unpacked::Incomplete => Unpacked::Incomplete,
                Unpacked::Invalid => Unpacked::Invalid,
            },
            Unpacked::Incomplete => Unpacked::Incomplete,
            Unpacked::Invalid => Unpacked::Invalid,
        }
    }
}

/// What reading from some bytes came to.
#[derive(Debug, PartialEq, Eq)]
pub enum Decoded<T> {
    /// The wire form of `value` was read; it takes up `used` bytes.
    Complete { value: T, used: usize },
    /// The bytes end before the wire form does: more have to be read
    /// from the stream.
    Incomplete,
    /// The bytes are not MessagePack that this library reads.
    Invalid,
}

/// What reading a message from the front of some bytes came to.
#[derive(Debug, PartialEq, Eq)]
pub enum Parsed<T> {
    /// The wire form of `message` was read; it takes up `used` bytes.
    Message { message: T, used: usize },
    /// The bytes end before the wire form does: more have to be read
    /// from the stream.
    Incomplete,
    /// The bytes do not start with a message. Reading goes on behind the
    /// first `used` of them.
    Refused { used: usize },
}

/// Whether what was read is what the bytes from `at` on stand for.
pub open spec fn agrees<T, V>(read: Decoded<T>, spec: Unpacked<V>, view: spec_fn(T) -> V) -> bool {
    match read {
        Decoded::Complete { value, used } => spec == (Unpacked::Complete {
            value: view(value),
            used: used as nat,
        }),
        Decoded::Incomplete => spec is Incomplete,
        Decoded::Invalid => spec is Invalid,
    }
}

/// The entry as a mathematical value.
pub open spec fn entry_view(entry: (String, Value)) -> (Seq<char>, Item) {
    (entry.0@, entry.1@)
}

/// A message that has a wire form: it can be written as bytes, and read
/// from the front of the bytes of a stream.
pub trait Wire: Sized {
    /// Whether `outcome` is what encoding the message has to come to.
    spec fn is_encoded(&self, outcome: Result<Vec<u8>, Error>) -> bool;

    /// Whether `outcome` is what decoding `bytes` has to come to.
    spec fn is_decoded(bytes: Seq<u8>, outcome: Parsed<Self>) -> bool;

    /// The bytes that go on the wire for the message. A message without a
    /// wire form is refused with `EncodeRMPError`.
    fn encode(self) -> (r: Result<Vec<u8>, Error>)
        ensures
            self.is_encoded(r),
            r matches Err(e) ==> e is EncodeRMPError,
    ;

    /// Reads the message that `bytes` start with. Bytes that start with
    /// no message are refused, and the outcome tells how many of them to
    /// pass over.
    fn decode(bytes: &[u8]) -> (r: Parsed<Self>)
        ensures
            Self::is_decoded(bytes@, r),
            r matches Parsed::Message { used, .. } ==> used <= bytes@.len(),
            r matches Parsed::Refused { used } ==> 0 < used <= bytes@.len(),
    ;
}

} // verus!
