//! What holds of the wire form: reading gives back what was written, a
//! value marks its own end, and what is read is in order.

use vstd::prelude::*;
use vstd::utf8::{encode_utf8, encode_utf8_decode_utf8, encode_utf8_valid_utf8};
use crate::message::big_endian::{be_bytes, lemma_be_bytes, lemma_be_value, lemma_limits, limit};
use crate::message::object::{keys_ascend, put};
use crate::message::value::{entries_well_formed, items_well_formed, well_formed, Item, Number};
use crate::message::wire::{
    entries_fit, field_width, fits, head_of, is_marker, items_fit, packed, packed_array_len,
    packed_bytes_len, packed_entries, packed_items, packed_number, packed_object_len, packed_text,
    packed_text_len, unpacked, unpacked_entries, unpacked_entry, unpacked_head, unpacked_items,
    unpacked_key, Head, Unpacked,
};

verus! {

/// A marker with the field that belongs behind it is read as the head
/// that the two stand for.
pub proof fn lemma_head_marked(marker: u8, n: nat, rest: Seq<u8>)
    requires
        is_marker(marker),
        n < limit(field_width(marker)),
    ensures
        unpacked_head(seq![marker] + be_bytes(n, field_width(marker)) + rest) == (
        Unpacked::Complete { value: head_of(marker, n), used: 1 + field_width(marker) }),
        (seq![marker] + be_bytes(n, field_width(marker))).len() == 1 + field_width(marker),
{
    let width = field_width(marker);
    let field = be_bytes(n, width);
    let bytes = seq![marker] + field + rest;
    lemma_be_bytes(n, width);
    assert(bytes[0] == marker);
    assert(bytes.subrange(1, 1 + width as int) =~= field);
}

/// The wire form of a number is read as that number.
pub proof fn lemma_head_number(n: Number, rest: Seq<u8>)
    requires
        well_formed(Item::Number(n)),
    ensures
        unpacked_head(packed_number(n) + rest) == (Unpacked::Complete {
            value: Head::Number(n),
            used: packed_number(n).len(),
        }),
{
    lemma_limits();
    let empty = Seq::<u8>::empty();
    match n {
        Number::PosInt(u) => {
            if u < 0x80 {
                lemma_head_marked(u as u8, 0, rest);
                assert(be_bytes(0, 0) =~= empty);
                assert(seq![u as u8] + be_bytes(0, 0) + rest =~= packed_number(n) + rest);
            } else if u < 0x100 {
                lemma_head_marked(0xcc, u as nat, rest);
            } else if u < 0x1_0000 {
                lemma_head_marked(0xcd, u as nat, rest);
            } else if u < 0x1_0000_0000 {
                lemma_head_marked(0xce, u as nat, rest);
            } else {
                lemma_head_marked(0xcf, u as nat, rest);
            }
        },
        Number::NegInt(i) => {
            if i >= -32 {
                lemma_head_marked((0x100 + i) as u8, 0, rest);
                assert(be_bytes(0, 0) =~= empty);
                assert(seq![(0x100 + i) as u8] + be_bytes(0, 0) + rest =~= packed_number(n)
                    + rest);
            } else if i >= -0x80 {
                lemma_head_marked(0xd0, (0x100 + i) as nat, rest);
            } else if i >= -0x8000 {
                lemma_head_marked(0xd1, (0x1_0000 + i) as nat, rest);
            } else if i >= -0x8000_0000 {
                lemma_head_marked(0xd2, (0x1_0000_0000 + i) as nat, rest);
            } else {
                lemma_head_marked(0xd3, (0x1_0000_0000_0000_0000 + i) as nat, rest);
            }
        },
        Number::Float32(bits) => {
            lemma_head_marked(0xca, bits as nat, rest);
        },
        Number::Float64(bits) => {
            lemma_head_marked(0xcb, bits as nat, rest);
        },
    }
}

/// The wire form of the length of a text is read as that length.
pub proof fn lemma_head_text(len: nat, rest: Seq<u8>)
    requires
        len < 0x1_0000_0000,
    ensures
        unpacked_head(packed_text_len(len) + rest) == (Unpacked::Complete {
            value: Head::Text(len),
            used: packed_text_len(len).len(),
        }),
{
    lemma_limits();
    if len < 32 {
        lemma_head_marked((0xa0 + len) as u8, 0, rest);
        assert(be_bytes(0, 0) =~= Seq::<u8>::empty());
        assert(seq![(0xa0 + len) as u8] + be_bytes(0, 0) + rest =~= packed_text_len(len) + rest);
    } else if len < 0x100 {
        lemma_head_marked(0xd9, len, rest);
    } else if len < 0x1_0000 {
        lemma_head_marked(0xda, len, rest);
    } else {
        lemma_head_marked(0xdb, len, rest);
    }
}

/// The wire form of the length of a byte string is read as that length.
pub proof fn lemma_head_bytes(len: nat, rest: Seq<u8>)
    requires
        len < 0x1_0000_0000,
    ensures
        unpacked_head(packed_bytes_len(len) + rest) == (Unpacked::Complete {
            value: Head::Bytes(len),
            used: packed_bytes_len(len).len(),
        }),
{
    lemma_limits();
    if len < 0x100 {
        lemma_head_marked(0xc4, len, rest);
    } else if len < 0x1_0000 {
        lemma_head_marked(0xc5, len, rest);
    } else {
        lemma_head_marked(0xc6, len, rest);
    }
}

/// The wire form of the length of an array is read as that length.
pub proof fn lemma_head_array(len: nat, rest: Seq<u8>)
    requires
        len < 0x1_0000_0000,
    ensures
        unpacked_head(packed_array_len(len) + rest) == (Unpacked::Complete {
            value: Head::Array(len),
            used: packed_array_len(len).len(),
        }),
{
    lemma_limits();
    if len < 16 {
        lemma_head_marked((0x90 + len) as u8, 0, rest);
        assert(be_bytes(0, 0) =~= Seq::<u8>::empty());
        assert(seq![(0x90 + len) as u8] + be_bytes(0, 0) + rest =~= packed_array_len(len)
            + rest);
    } else if len < 0x1_0000 {
        lemma_head_marked(0xdc, len, rest);
    } else {
        lemma_head_marked(0xdd, len, rest);
    }
}

/// The wire form of the number of entries of an object is read as that
/// number.
pub proof fn lemma_head_object(len: nat, rest: Seq<u8>)
    requires
        len < 0x1_0000_0000,
    ensures
        unpacked_head(packed_object_len(len) + rest) == (Unpacked::Complete {
            value: Head::Object(len),
            used: packed_object_len(len).len(),
        }),
{
    lemma_limits();
    if len < 16 {
        lemma_head_marked((0x80 + len) as u8, 0, rest);
        assert(be_bytes(0, 0) =~= Seq::<u8>::empty());
        assert(seq![(0x80 + len) as u8] + be_bytes(0, 0) + rest =~= packed_object_len(len)
            + rest);
    } else if len < 0x1_0000 {
        lemma_head_marked(0xde, len, rest);
    } else {
        lemma_head_marked(0xdf, len, rest);
    }
}

/// The wire form of a text is read as that text, as a value and as a key.
pub proof fn lemma_unpacked_text(text: Seq<char>, rest: Seq<u8>, depth: nat)
    requires
        encode_utf8(text).len() < 0x1_0000_0000,
    ensures
        unpacked(packed_text(text) + rest, depth) == (Unpacked::Complete {
            value: Item::Text(text),
            used: packed_text(text).len(),
        }),
        unpacked_key(packed_text(text) + rest) == (Unpacked::Complete {
            value: text,
            used: packed_text(text).len(),
        }),
{
    let data = encode_utf8(text);
    let head = packed_text_len(data.len());
    let bytes = packed_text(text) + rest;
    lemma_head_text(data.len(), data + rest);
    assert(bytes =~= head + (data + rest));
    assert(bytes.skip(head.len() as int) =~= data + rest);
    assert((data + rest).take(data.len() as int) =~= data);
    encode_utf8_valid_utf8(text);
    encode_utf8_decode_utf8(text);
}

/// The wire form of a value without parts is read as that value.
proof fn lemma_unpacked_plain(item: Item, rest: Seq<u8>, depth: nat)
    requires
        well_formed(item),
        fits(item, depth),
        item is Null || item is Bool || item is Number || item is Bytes,
    ensures
        unpacked(packed(item) + rest, depth) == (Unpacked::Complete {
            value: item,
            used: packed(item).len(),
        }),
{
    let bytes = packed(item) + rest;
    match item {
        Item::Null => {
            lemma_head_marked(0xc0, 0, rest);
            assert(be_bytes(0, 0) =~= Seq::<u8>::empty());
            assert(seq![0xc0u8] + be_bytes(0, 0) + rest =~= bytes);
        },
        Item::Bool(b) => {
            let marker = if b {
                0xc3u8
            } else {
                0xc2u8
            };
            lemma_head_marked(marker, 0, rest);
            assert(be_bytes(0, 0) =~= Seq::<u8>::empty());
            assert(seq![marker] + be_bytes(0, 0) + rest =~= bytes);
        },
        Item::Number(n) => {
            lemma_head_number(n, rest);
        },
        Item::Bytes(data) => {
            let head = packed_bytes_len(data.len());
            lemma_head_bytes(data.len(), data + rest);
            assert(bytes =~= head + (data + rest));
            assert(bytes.skip(head.len() as int) =~= data + rest);
            assert((data + rest).take(data.len() as int) =~= data);
        },
        _ => {},
    }
}

/// What stands behind the head of bytes that start with it is the rest of
/// them.
proof fn lemma_behind_head(head: Seq<u8>, body: Seq<u8>, rest: Seq<u8>)
    ensures
        head + body + rest == head + (body + rest),
        (head + body + rest).skip(head.len() as int) == body + rest,
        (head + body).len() == head.len() + body.len(),
{
    let all = head + body + rest;
    assert(all =~= head + (body + rest));
    assert(all.skip(head.len() as int) =~= body + rest);
}

/// An array is read by reading its head and then its values.
proof fn lemma_unpacked_array_step(
    bytes: Seq<u8>,
    items: Seq<Item>,
    depth: nat,
    first: nat,
    second: nat,
)
    requires
        depth > 0,
        unpacked_head(bytes) == (Unpacked::Complete {
            value: Head::Array(items.len()),
            used: first,
        }),
        unpacked_items(bytes.skip(first as int), items.len(), (depth - 1) as nat) == (
        Unpacked::Complete { value: items, used: second }),
    ensures
        unpacked(bytes, depth) == (Unpacked::Complete {
            value: Item::Array(items),
            used: first + second,
        }),
{
}

/// An object is read by reading its head and then its entries.
proof fn lemma_unpacked_object_step(
    bytes: Seq<u8>,
    entries: Seq<(Seq<char>, Item)>,
    depth: nat,
    first: nat,
    second: nat,
)
    requires
        depth > 0,
        unpacked_head(bytes) == (Unpacked::Complete {
            value: Head::Object(entries.len()),
            used: first,
        }),
        unpacked_entries(bytes.skip(first as int), entries.len(), (depth - 1) as nat) == (
        Unpacked::Complete { value: entries, used: second }),
    ensures
        unpacked(bytes, depth) == (Unpacked::Complete {
            value: Item::Object(entries),
            used: first + second,
        }),
{
}

/// The wire form of an array is read as that array, where its values are
/// read as themselves.
proof fn lemma_unpacked_array(items: Seq<Item>, rest: Seq<u8>, depth: nat)
    requires
        depth > 0,
        items.len() < 0x1_0000_0000,
        unpacked_items(packed_items(items) + rest, items.len(), (depth - 1) as nat) == (
        Unpacked::Complete { value: items, used: packed_items(items).len() }),
    ensures
        unpacked(packed(Item::Array(items)) + rest, depth) == (Unpacked::Complete {
            value: Item::Array(items),
            used: packed(Item::Array(items)).len(),
        }),
{
    let head = packed_array_len(items.len());
    let body = packed_items(items);
    assert(packed(Item::Array(items)) == head + body);
    lemma_behind_head(head, body, rest);
    lemma_head_array(items.len(), body + rest);
    lemma_unpacked_array_step(head + body + rest, items, depth, head.len(), body.len());
}

/// The wire form of an object is read as that object, where its entries
/// are read as themselves.
proof fn lemma_unpacked_object(entries: Seq<(Seq<char>, Item)>, rest: Seq<u8>, depth: nat)
    requires
        depth > 0,
        entries.len() < 0x1_0000_0000,
        unpacked_entries(packed_entries(entries) + rest, entries.len(), (depth - 1) as nat) == (
        Unpacked::Complete { value: entries, used: packed_entries(entries).len() }),
    ensures
        unpacked(packed(Item::Object(entries)) + rest, depth) == (Unpacked::Complete {
            value: Item::Object(entries),
            used: packed(Item::Object(entries)).len(),
        }),
{
    let head = packed_object_len(entries.len());
    let body = packed_entries(entries);
    assert(packed(Item::Object(entries)) == head + body);
    lemma_behind_head(head, body, rest);
    lemma_head_object(entries.len(), body + rest);
    lemma_unpacked_object_step(head + body + rest, entries, depth, head.len(), body.len());
}

/// Reading gives back what was written: the wire form of a value that is
/// in order and fits, whatever follows it, is read as that value, and as
/// taking up its own length.
pub proof fn lemma_unpacked_packed(item: Item, rest: Seq<u8>, depth: nat)
    requires
        well_formed(item),
        fits(item, depth),
    ensures
        unpacked(packed(item) + rest, depth) == (Unpacked::Complete {
            value: item,
            used: packed(item).len(),
        }),
    decreases item,
{
    match item {
        Item::Text(text) => {
            lemma_unpacked_text(text, rest, depth);
        },
        Item::Array(items) => {
            lemma_unpacked_packed_items(items, rest, (depth - 1) as nat);
            lemma_unpacked_array(items, rest, depth);
        },
        Item::Object(entries) => {
            lemma_unpacked_packed_entries(entries, rest, (depth - 1) as nat);
            lemma_unpacked_object(entries, rest, depth);
        },
        _ => {
            lemma_unpacked_plain(item, rest, depth);
        },
    }
}

/// A series is read by reading all but the last value, then the last.
proof fn lemma_unpacked_items_step(
    bytes: Seq<u8>,
    items: Seq<Item>,
    depth: nat,
    first: nat,
    second: nat,
)
    requires
        items.len() > 0,
        unpacked_items(bytes, (items.len() - 1) as nat, depth) == (Unpacked::Complete {
            value: items.drop_last(),
            used: first,
        }),
        unpacked(bytes.skip(first as int), depth) == (Unpacked::Complete {
            value: items.last(),
            used: second,
        }),
    ensures
        unpacked_items(bytes, items.len(), depth) == (Unpacked::Complete {
            value: items,
            used: first + second,
        }),
{
    assert(items.drop_last().push(items.last()) =~= items);
}

/// Reading gives back a series that was written.
pub proof fn lemma_unpacked_packed_items(items: Seq<Item>, rest: Seq<u8>, depth: nat)
    requires
        items_well_formed(items),
        items_fit(items, depth),
    ensures
        unpacked_items(packed_items(items) + rest, items.len(), depth) == (Unpacked::Complete {
            value: items,
            used: packed_items(items).len(),
        }),
    decreases items,
{
    if items.len() == 0 {
        assert(items =~= Seq::<Item>::empty());
    } else {
        let a = packed_items(items.drop_last());
        let c = packed(items.last());
        lemma_unpacked_packed_items(items.drop_last(), c + rest, depth);
        lemma_unpacked_packed(items.last(), rest, depth);
        assert(packed_items(items) == a + c);
        lemma_behind_head(a, c, rest);
        lemma_unpacked_items_step(a + c + rest, items, depth, a.len(), c.len());
    }
}

/// An entry whose key stands behind the keys of the entries is put at
/// their end.
proof fn lemma_put_last(entries: Seq<(Seq<char>, Item)>)
    requires
        entries.len() > 0,
        entries.len() == 1 || crate::message::object::key_before(
            entries[entries.len() - 2].0,
            entries.last().0,
        ),
    ensures
        put(entries.drop_last(), entries.last().0, entries.last().1) == entries,
{
    let before = entries.drop_last();
    let last = entries.last();
    if before.len() > 0 {
        assert(before.last() == entries[entries.len() - 2]);
    }
    assert(before.push((last.0, last.1)) =~= entries);
}

/// The wire form of an entry is read as that entry, where its value is
/// read as itself.
proof fn lemma_unpacked_packed_entry(key: Seq<char>, item: Item, rest: Seq<u8>, depth: nat)
    requires
        encode_utf8(key).len() < 0x1_0000_0000,
        unpacked(packed(item) + rest, depth) == (Unpacked::Complete {
            value: item,
            used: packed(item).len(),
        }),
    ensures
        unpacked_entry(packed_text(key) + packed(item) + rest, depth) == (Unpacked::Complete {
            value: (key, item),
            used: (packed_text(key) + packed(item)).len(),
        }),
{
    lemma_behind_head(packed_text(key), packed(item), rest);
    lemma_unpacked_text(key, packed(item) + rest, depth);
}

/// The entries of an object are read by reading all but the last, then
/// the last.
proof fn lemma_unpacked_entries_step(
    bytes: Seq<u8>,
    entries: Seq<(Seq<char>, Item)>,
    depth: nat,
    first: nat,
    second: nat,
)
    requires
        entries.len() > 0,
        unpacked_entries(bytes, (entries.len() - 1) as nat, depth) == (Unpacked::Complete {
            value: entries.drop_last(),
            used: first,
        }),
        unpacked_entry(bytes.skip(first as int), depth) == (Unpacked::Complete {
            value: entries.last(),
            used: second,
        }),
        put(entries.drop_last(), entries.last().0, entries.last().1) == entries,
    ensures
        unpacked_entries(bytes, entries.len(), depth) == (Unpacked::Complete {
            value: entries,
            used: first + second,
        }),
{
}

/// What holds of entries that are in order and fit holds of all but the
/// last of them, and of the last.
proof fn lemma_entries_parts(entries: Seq<(Seq<char>, Item)>, depth: nat)
    requires
        entries.len() > 0,
        keys_ascend(entries),
        entries_well_formed(entries),
        entries_fit(entries, depth),
    ensures
        keys_ascend(entries.drop_last()),
        entries_well_formed(entries.drop_last()),
        entries_fit(entries.drop_last(), depth),
        well_formed(entries.last().1),
        fits(entries.last().1, depth),
        encode_utf8(entries.last().0).len() < 0x1_0000_0000,
        put(entries.drop_last(), entries.last().0, entries.last().1) == entries,
        packed_entries(entries) == packed_entries(entries.drop_last()) + (packed_text(
            entries.last().0,
        ) + packed(entries.last().1)),
{
    crate::message::object::lemma_ascend_prefix(entries);
    if entries.len() > 1 {
        assert(crate::message::object::key_before(
            entries[entries.len() - 2].0,
            entries[entries.len() - 1].0,
        ));
    }
    lemma_put_last(entries);
    let a = packed_entries(entries.drop_last());
    let b = packed_text(entries.last().0);
    let c = packed(entries.last().1);
    assert(a + b + c =~= a + (b + c));
}

/// Reading gives back the entries of an object that were written.
pub proof fn lemma_unpacked_packed_entries(
    entries: Seq<(Seq<char>, Item)>,
    rest: Seq<u8>,
    depth: nat,
)
    requires
        keys_ascend(entries),
        entries_well_formed(entries),
        entries_fit(entries, depth),
    ensures
        unpacked_entries(packed_entries(entries) + rest, entries.len(), depth) == (
        Unpacked::Complete { value: entries, used: packed_entries(entries).len() }),
    decreases entries,
{
    if entries.len() == 0 {
        assert(entries =~= Seq::<(Seq<char>, Item)>::empty());
    } else {
        let last = entries.last();
        let a = packed_entries(entries.drop_last());
        let c = packed_text(last.0) + packed(last.1);
        lemma_entries_parts(entries, depth);
        lemma_unpacked_packed_entries(entries.drop_last(), c + rest, depth);
        lemma_unpacked_packed(last.1, rest, depth);
        lemma_unpacked_packed_entry(last.0, last.1, rest, depth);
        lemma_behind_head(a, c, rest);
        lemma_unpacked_entries_step(a + c + rest, entries, depth, a.len(), c.len());
    }
}

/// The numbers of some bytes, each byte as a whole number.
pub open spec fn byte_numbers(bytes: Seq<u8>) -> Seq<Item> {
    Seq::new(bytes.len(), |i: int| Item::Number(Number::PosInt(bytes[i] as u64)))
}

/// Whether a wire form starts as a byte string does.
pub open spec fn is_bin_marker(marker: u8) -> bool {
    marker == 0xc4 || marker == 0xc5 || marker == 0xc6
}

/// Bytes and the array of their numbers differ on the wire, and so do
/// bytes and any text: a byte string is written in the `bin` family, which
/// neither an array nor a text starts with.
pub proof fn lemma_bytes_are_bin(bytes: Seq<u8>, text: Seq<char>)
    ensures
        packed(Item::Bytes(bytes)).len() > 0,
        is_bin_marker(packed(Item::Bytes(bytes))[0]),
        !is_bin_marker(packed(Item::Array(byte_numbers(bytes)))[0]),
        !is_bin_marker(packed(Item::Text(text))[0]),
        packed(Item::Bytes(bytes)) != packed(Item::Array(byte_numbers(bytes))),
        packed(Item::Bytes(bytes)) != packed(Item::Text(text)),
{
    let len = bytes.len();
    let numbers = byte_numbers(bytes);
    assert(packed(Item::Bytes(bytes))[0] == packed_bytes_len(len)[0]);
    assert(packed(Item::Array(numbers))[0] == packed_array_len(len)[0]);
    assert(packed(Item::Text(text))[0] == packed_text_len(encode_utf8(text).len())[0]);
}

/// What is read from bytes is in order: no number below zero is held as
/// one that is not, and the keys of every object ascend.
pub proof fn lemma_unpacked_well_formed(bytes: Seq<u8>, depth: nat)
    ensures
        unpacked(bytes, depth) matches Unpacked::Complete { value, .. } ==> well_formed(value),
    decreases depth, 0nat,
{
    lemma_limits();
    match unpacked_head(bytes) {
        Unpacked::Complete { value: head, used } => {
            let rest = bytes.skip(used as int);
            lemma_be_value(bytes.subrange(1, 1 + field_width(bytes[0]) as int));
            match head {
                Head::Array(count) => {
                    if depth > 0 {
                        lemma_unpacked_items_well_formed(rest, count, (depth - 1) as nat);
                    }
                },
                Head::Object(count) => {
                    if depth > 0 {
                        lemma_unpacked_entries_well_formed(rest, count, (depth - 1) as nat);
                    }
                },
                _ => {},
            }
        },
        _ => {},
    }
}

/// The values of a series that is read from bytes are in order.
pub proof fn lemma_unpacked_items_well_formed(bytes: Seq<u8>, count: nat, depth: nat)
    ensures
        unpacked_items(bytes, count, depth) matches Unpacked::Complete { value, .. }
            ==> items_well_formed(value),
    decreases depth, count + 1,
{
    if count > 0 {
        lemma_unpacked_items_well_formed(bytes, (count - 1) as nat, depth);
        match unpacked_items(bytes, (count - 1) as nat, depth) {
            Unpacked::Complete { value: items, used } => {
                lemma_unpacked_well_formed(bytes.skip(used as int), depth);
                match unpacked(bytes.skip(used as int), depth) {
                    Unpacked::Complete { value: item, .. } => {
                        assert(items.push(item).drop_last() =~= items);
                    },
                    _ => {},
                }
            },
            _ => {},
        }
    }
}

/// The entries of an object that is read from bytes are in order, and
/// their keys ascend.
pub proof fn lemma_unpacked_entries_well_formed(bytes: Seq<u8>, count: nat, depth: nat)
    ensures
        unpacked_entries(bytes, count, depth) matches Unpacked::Complete { value, .. }
            ==> keys_ascend(value) && entries_well_formed(value),
    decreases depth, count + 2,
{
    if count > 0 {
        lemma_unpacked_entries_well_formed(bytes, (count - 1) as nat, depth);
        match unpacked_entries(bytes, (count - 1) as nat, depth) {
            Unpacked::Complete { value: entries, used } => {
                let rest = bytes.skip(used as int);
                match unpacked_key(rest) {
                    Unpacked::Complete { used: more, .. } => {
                        lemma_unpacked_well_formed(rest.skip(more as int), depth);
                    },
                    _ => {},
                }
                match unpacked_entry(rest, depth) {
                    Unpacked::Complete { value: entry, .. } => {
                        crate::message::object::lemma_put_ascends(entries, entry.0, entry.1);
                        crate::message::object::lemma_put_well_formed(entries, entry.0, entry.1);
                    },
                    _ => {},
                }
            },
            _ => {},
        }
    }
}

/// What is read lies within the bytes.
pub proof fn lemma_unpacked_within(bytes: Seq<u8>, depth: nat)
    ensures
        unpacked(bytes, depth) matches Unpacked::Complete { used, .. } ==> used <= bytes.len(),
        unpacked_key(bytes) matches Unpacked::Complete { used, .. } ==> used <= bytes.len(),
    decreases depth, 0nat,
{
    match unpacked_head(bytes) {
        Unpacked::Complete { value: head, used } => {
            let rest = bytes.skip(used as int);
            match head {
                Head::Array(count) => {
                    if depth > 0 {
                        lemma_unpacked_items_within(rest, count, (depth - 1) as nat);
                    }
                },
                Head::Object(count) => {
                    if depth > 0 {
                        lemma_unpacked_entries_within(rest, count, (depth - 1) as nat);
                    }
                },
                _ => {},
            }
        },
        _ => {},
    }
}

/// A series that is read lies within the bytes.
pub proof fn lemma_unpacked_items_within(bytes: Seq<u8>, count: nat, depth: nat)
    ensures
        unpacked_items(bytes, count, depth) matches Unpacked::Complete { used, .. } ==> used
            <= bytes.len(),
    decreases depth, count + 1,
{
    if count > 0 {
        lemma_unpacked_items_within(bytes, (count - 1) as nat, depth);
        match unpacked_items(bytes, (count - 1) as nat, depth) {
            Unpacked::Complete { used, .. } => {
                lemma_unpacked_within(bytes.skip(used as int), depth);
            },
            _ => {},
        }
    }
}

/// An entry that is read lies within the bytes.
pub proof fn lemma_unpacked_entry_within(bytes: Seq<u8>, depth: nat)
    ensures
        unpacked_entry(bytes, depth) matches Unpacked::Complete { used, .. } ==> used
            <= bytes.len(),
    decreases depth, 1nat,
{
    lemma_unpacked_within(bytes, depth);
    match unpacked_key(bytes) {
        Unpacked::Complete { used, .. } => {
            lemma_unpacked_within(bytes.skip(used as int), depth);
        },
        _ => {},
    }
}

/// The entries of an object that are read lie within the bytes.
pub proof fn lemma_unpacked_entries_within(bytes: Seq<u8>, count: nat, depth: nat)
    ensures
        unpacked_entries(bytes, count, depth) matches Unpacked::Complete { used, .. } ==> used
            <= bytes.len(),
    decreases depth, count + 2,
{
    if count > 0 {
        lemma_unpacked_entries_within(bytes, (count - 1) as nat, depth);
        match unpacked_entries(bytes, (count - 1) as nat, depth) {
            Unpacked::Complete { used, .. } => {
                lemma_unpacked_entry_within(bytes.skip(used as int), depth);
            },
            _ => {},
        }
    }
}

/// A head that is read is read the same with more bytes behind.
pub proof fn lemma_head_alone(bytes: Seq<u8>, more: Seq<u8>)
    requires
        unpacked_head(bytes) is Complete,
    ensures
        unpacked_head(bytes + more) == unpacked_head(bytes),
{
    let longer = bytes + more;
    let width = field_width(bytes[0]);
    assert(longer[0] == bytes[0]);
    assert(longer.subrange(1, 1 + width as int) =~= bytes.subrange(1, 1 + width as int));
}

/// A key that is read is read the same with more bytes behind.
pub proof fn lemma_key_alone(bytes: Seq<u8>, more: Seq<u8>)
    requires
        unpacked_key(bytes) is Complete,
    ensures
        unpacked_key(bytes + more) == unpacked_key(bytes),
{
    lemma_head_alone(bytes, more);
    match unpacked_head(bytes) {
        Unpacked::Complete { value: Head::Text(len), used } => {
            let longer = bytes + more;
            assert(longer.skip(used as int).take(len as int) =~= bytes.skip(used as int).take(
                len as int,
            ));
        },
        _ => {},
    }
}

/// A value marks its own end: what is read from bytes is read the same,
/// and as taking up the same bytes, whatever follows them.
pub proof fn lemma_unpacked_alone(bytes: Seq<u8>, more: Seq<u8>, depth: nat)
    requires
        unpacked(bytes, depth) is Complete,
    ensures
        unpacked(bytes + more, depth) == unpacked(bytes, depth),
    decreases depth, 0nat,
{
    lemma_head_alone(bytes, more);
    match unpacked_head(bytes) {
        Unpacked::Complete { value: head, used } => {
            let rest = bytes.skip(used as int);
            lemma_skip_longer(bytes, more, used);
            match head {
                Head::Text(len) => {
                    assert((rest + more).take(len as int) =~= rest.take(len as int));
                },
                Head::Bytes(len) => {
                    assert((rest + more).take(len as int) =~= rest.take(len as int));
                },
                Head::Array(count) => {
                    lemma_unpacked_items_alone(rest, more, count, (depth - 1) as nat);
                },
                Head::Object(count) => {
                    lemma_unpacked_entries_alone(rest, more, count, (depth - 1) as nat);
                },
                _ => {},
            }
        },
        _ => {},
    }
}

/// With more bytes behind, what stands behind a part of the bytes has the
/// more bytes behind it too.
proof fn lemma_skip_longer(bytes: Seq<u8>, more: Seq<u8>, used: nat)
    requires
        used <= bytes.len(),
    ensures
        (bytes + more).skip(used as int) == bytes.skip(used as int) + more,
{
    assert((bytes + more).skip(used as int) =~= bytes.skip(used as int) + more);
}

/// A series that is read is read the same with more bytes behind.
pub proof fn lemma_unpacked_items_alone(bytes: Seq<u8>, more: Seq<u8>, count: nat, depth: nat)
    requires
        unpacked_items(bytes, count, depth) is Complete,
    ensures
        unpacked_items(bytes + more, count, depth) == unpacked_items(bytes, count, depth),
    decreases depth, count + 1,
{
    if count > 0 {
        match unpacked_items(bytes, (count - 1) as nat, depth) {
            Unpacked::Complete { used, .. } => {
                lemma_unpacked_items_alone(bytes, more, (count - 1) as nat, depth);
                lemma_unpacked_items_within(bytes, (count - 1) as nat, depth);
                lemma_skip_longer(bytes, more, used);
                lemma_unpacked_alone(bytes.skip(used as int), more, depth);
            },
            _ => {},
        }
    }
}

/// An entry that is read is read the same with more bytes behind.
pub proof fn lemma_unpacked_entry_alone(bytes: Seq<u8>, more: Seq<u8>, depth: nat)
    requires
        unpacked_entry(bytes, depth) is Complete,
    ensures
        unpacked_entry(bytes + more, depth) == unpacked_entry(bytes, depth),
    decreases depth, 1nat,
{
    match unpacked_key(bytes) {
        Unpacked::Complete { used, .. } => {
            lemma_key_alone(bytes, more);
            lemma_unpacked_within(bytes, depth);
            lemma_skip_longer(bytes, more, used);
            lemma_unpacked_alone(bytes.skip(used as int), more, depth);
        },
        _ => {},
    }
}

/// The entries of an object that are read are read the same with more
/// bytes behind.
pub proof fn lemma_unpacked_entries_alone(bytes: Seq<u8>, more: Seq<u8>, count: nat, depth: nat)
    requires
        unpacked_entries(bytes, count, depth) is Complete,
    ensures
        unpacked_entries(bytes + more, count, depth) == unpacked_entries(bytes, count, depth),
    decreases depth, count + 2,
{
    if count > 0 {
        match unpacked_entries(bytes, (count - 1) as nat, depth) {
            Unpacked::Complete { used, .. } => {
                lemma_unpacked_entries_alone(bytes, more, (count - 1) as nat, depth);
                lemma_unpacked_entries_within(bytes, (count - 1) as nat, depth);
                lemma_skip_longer(bytes, more, used);
                lemma_unpacked_entry_alone(bytes.skip(used as int), more, depth);
            },
            _ => {},
        }
    }
}

} // verus!
