//! Reading values from their wire form.

use vstd::prelude::*;
use vstd::slice::{slice_subrange, slice_to_vec};
use vstd::utf8::encode_utf8_decode_utf8;
use crate::message::big_endian::{be_value, lemma_limits, limit, read_be};
use crate::message::object::{put, put_entry};
use crate::message::value::{entries_of, items_of, well_formed, Item, Number, Value};
use crate::message::wire::{
    agrees, entry_view, field_width, head_of, is_marker, signed_number, text_or_bytes, unpacked,
    unpacked_entries, unpacked_entry, unpacked_head, unpacked_items, unpacked_key, Decoded, Head,
    Unpacked, MAX_DEPTH,
};
use crate::message::wire_laws::lemma_unpacked_well_formed;
use crate::text::from_utf8;

verus! {

/// A head, with lengths that fit the machine.
enum HeadRead {
    Null,
    Bool(bool),
    Number(Number),
    Text(usize),
    Bytes(usize),
    Array(usize),
    Object(usize),
}

/// The head as a mathematical value.
spec fn head_view(head: HeadRead) -> Head {
    match head {
        HeadRead::Null => Head::Null,
        HeadRead::Bool(b) => Head::Bool(b),
        HeadRead::Number(n) => Head::Number(n),
        HeadRead::Text(len) => Head::Text(len as nat),
        HeadRead::Bytes(len) => Head::Bytes(len as nat),
        HeadRead::Array(len) => Head::Array(len as nat),
        HeadRead::Object(len) => Head::Object(len as nat),
    }
}

/// The number of bytes behind the marker that hold a number or a length.
fn field_width_of(marker: u8) -> (width: usize)
    ensures
        width == field_width(marker),
        width <= 8,
{
    if marker == 0xc4 || marker == 0xcc || marker == 0xd0 || marker == 0xd9 {
        1
    } else if marker == 0xc5 || marker == 0xcd || marker == 0xd1 || marker == 0xda || marker
        == 0xdc || marker == 0xde {
        2
    } else if marker == 0xc6 || marker == 0xca || marker == 0xce || marker == 0xd2 || marker
        == 0xdb || marker == 0xdd || marker == 0xdf {
        4
    } else if marker == 0xcb || marker == 0xcf || marker == 0xd3 {
        8
    } else {
        0
    }
}

/// The whole number that `raw` stands for as a signed number of `width`
/// bytes.
fn signed_of(raw: u64, width: usize) -> (n: Number)
    requires
        width == 1 || width == 2 || width == 4 || width == 8,
        raw < limit(width as nat),
    ensures
        n == signed_number(raw as nat, width as nat),
{
    proof {
        lemma_limits();
    }
    if width == 1 {
        if raw >= 0x80 {
            Number::NegInt(raw as i64 - 0x100)
        } else {
            Number::PosInt(raw)
        }
    } else if width == 2 {
        if raw >= 0x8000 {
            Number::NegInt(raw as i64 - 0x1_0000)
        } else {
            Number::PosInt(raw)
        }
    } else if width == 4 {
        if raw >= 0x8000_0000 {
            Number::NegInt(raw as i64 - 0x1_0000_0000)
        } else {
            Number::PosInt(raw)
        }
    } else {
        if raw >= 0x8000_0000_0000_0000 {
            Number::NegInt(-((u64::MAX - raw) as i64) - 1)
        } else {
            Number::PosInt(raw)
        }
    }
}

/// What a marker and the field behind it say of the value.
fn head_from(marker: u8, field: u64) -> (head: HeadRead)
    requires
        is_marker(marker),
        field < limit(field_width(marker)),
    ensures
        head_view(head) == head_of(marker, field as nat),
{
    proof {
        lemma_limits();
    }
    if marker < 0x80 {
        HeadRead::Number(Number::PosInt(marker as u64))
    } else if marker < 0x90 {
        HeadRead::Object((marker - 0x80) as usize)
    } else if marker < 0xa0 {
        HeadRead::Array((marker - 0x90) as usize)
    } else if marker < 0xc0 {
        HeadRead::Text((marker - 0xa0) as usize)
    } else if marker == 0xc2 {
        HeadRead::Bool(false)
    } else if marker == 0xc3 {
        HeadRead::Bool(true)
    } else if marker == 0xc4 || marker == 0xc5 || marker == 0xc6 {
        HeadRead::Bytes(field as usize)
    } else if marker == 0xca {
        HeadRead::Number(Number::Float32(field as u32))
    } else if marker == 0xcb {
        HeadRead::Number(Number::Float64(field))
    } else if marker == 0xcc || marker == 0xcd || marker == 0xce || marker == 0xcf {
        HeadRead::Number(Number::PosInt(field))
    } else if marker == 0xd0 {
        HeadRead::Number(signed_of(field, 1))
    } else if marker == 0xd1 {
        HeadRead::Number(signed_of(field, 2))
    } else if marker == 0xd2 {
        HeadRead::Number(signed_of(field, 4))
    } else if marker == 0xd3 {
        HeadRead::Number(signed_of(field, 8))
    } else if marker == 0xd9 || marker == 0xda || marker == 0xdb {
        HeadRead::Text(field as usize)
    } else if marker == 0xdc || marker == 0xdd {
        HeadRead::Array(field as usize)
    } else if marker == 0xde || marker == 0xdf {
        HeadRead::Object(field as usize)
    } else if marker >= 0xe0 {
        HeadRead::Number(Number::NegInt(marker as i64 - 0x100))
    } else {
        HeadRead::Null
    }
}

/// Reads the head of the value that starts at `at`.
fn decode_head(bytes: &[u8], at: usize) -> (r: Decoded<HeadRead>)
    requires
        at <= bytes@.len(),
    ensures
        agrees(r, unpacked_head(bytes@.skip(at as int)), |h: HeadRead| head_view(h)),
        r matches Decoded::Complete { used, .. } ==> at + used <= bytes@.len(),
{
    if at >= bytes.len() {
        return Decoded::Incomplete;
    }
    let marker = bytes[at];
    let ghost rest = bytes@.skip(at as int);
    assert(rest[0] == marker);
    if marker == 0xc1 || (0xc7 <= marker && marker <= 0xc9) || (0xd4 <= marker && marker <= 0xd8) {
        return Decoded::Invalid;
    }
    let width = field_width_of(marker);
    if bytes.len() - at - 1 < width {
        return Decoded::Incomplete;
    }
    let field = if width > 0 {
        read_be(bytes, at + 1, width)
    } else {
        0
    };
    proof {
        lemma_limits();
        assert(rest.subrange(1, 1 + width) =~= bytes@.subrange(at + 1, at + 1 + width));
        if width == 0 {
            assert(be_value(rest.subrange(1, 1)) == 0);
        }
    }
    Decoded::Complete { value: head_from(marker, field), used: 1 + width }
}

/// Reads the key that starts at `at`.
fn decode_key(bytes: &[u8], at: usize) -> (r: Decoded<String>)
    requires
        at <= bytes@.len(),
    ensures
        agrees(r, unpacked_key(bytes@.skip(at as int)), |s: String| s@),
        r matches Decoded::Complete { used, .. } ==> at + used <= bytes@.len(),
{
    let total = bytes.len();
    match decode_head(bytes, at) {
        Decoded::Complete { value: HeadRead::Text(len), used } => {
            let start = at + used;
            if bytes.len() - start < len {
                return Decoded::Incomplete;
            }
            let data = slice_subrange(bytes, start, start + len);
            proof {
                assert(data@ =~= bytes@.skip(at as int).skip(used as int).take(len as int));
            }
            match from_utf8(data) {
                Some(text) => {
                    proof {
                        encode_utf8_decode_utf8(text@);
                    }
                    Decoded::Complete { value: text.to_owned(), used: used + len }
                },
                None => Decoded::Invalid,
            }
        },
        Decoded::Complete { .. } => Decoded::Invalid,
        Decoded::Incomplete => Decoded::Incomplete,
        Decoded::Invalid => Decoded::Invalid,
    }
}

/// Reads the text or byte string of `len` bytes that starts at `start`.
fn decode_data(bytes: &[u8], start: usize, len: usize, text: bool) -> (r: Option<Value>)
    requires
        start <= bytes@.len(),
    ensures
        match r {
            Some(value) => len <= bytes@.len() - start && value@ == if text {
                text_or_bytes(bytes@.skip(start as int).take(len as int))
            } else {
                Item::Bytes(bytes@.skip(start as int).take(len as int))
            },
            None => len > bytes@.len() - start,
        },
{
    if bytes.len() - start < len {
        return None;
    }
    let data = slice_subrange(bytes, start, start + len);
    proof {
        assert(data@ =~= bytes@.skip(start as int).take(len as int));
    }
    if text {
        match from_utf8(data) {
            Some(text) => {
                proof {
                    encode_utf8_decode_utf8(text@);
                }
                Some(Value::String(text.to_owned()))
            },
            None => Some(Value::Bytes(slice_to_vec(data))),
        }
    } else {
        Some(Value::Bytes(slice_to_vec(data)))
    }
}

/// Once reading a series has failed, it fails the same way however many
/// more values are asked for.
pub proof fn lemma_items_stop(bytes: Seq<u8>, k: nat, n: nat, depth: nat)
    requires
        k <= n,
        !(unpacked_items(bytes, k, depth) is Complete),
    ensures
        unpacked_items(bytes, n, depth) == unpacked_items(bytes, k, depth),
    decreases n,
{
    if k < n {
        lemma_items_stop(bytes, k, (n - 1) as nat, depth);
    }
}

/// Once reading the entries of an object has failed, it fails the same way
/// however many more entries are asked for.
pub proof fn lemma_entries_stop(bytes: Seq<u8>, k: nat, n: nat, depth: nat)
    requires
        k <= n,
        !(unpacked_entries(bytes, k, depth) is Complete),
    ensures
        unpacked_entries(bytes, n, depth) == unpacked_entries(bytes, k, depth),
    decreases n,
{
    if k < n {
        lemma_entries_stop(bytes, k, (n - 1) as nat, depth);
    }
}

/// One more value that is read comes behind the values read before.
proof fn lemma_unpacked_items_next(
    rest: Seq<u8>,
    k: nat,
    depth: nat,
    items: Seq<Item>,
    used: nat,
    item: Item,
    more: nat,
)
    requires
        unpacked_items(rest, k, depth) == (Unpacked::Complete { value: items, used }),
        unpacked(rest.skip(used as int), depth) == (Unpacked::Complete { value: item, used: more }),
    ensures
        unpacked_items(rest, k + 1, depth) == (Unpacked::Complete {
            value: items.push(item),
            used: used + more,
        }),
{
}

/// Reading a series fails where reading one of its values fails.
proof fn lemma_unpacked_items_fail(rest: Seq<u8>, k: nat, count: nat, depth: nat, used: nat)
    requires
        k < count,
        unpacked_items(rest, k, depth) matches Unpacked::Complete { used: before, .. } && before
            == used,
        !(unpacked(rest.skip(used as int), depth) is Complete),
    ensures
        unpacked_items(rest, count, depth) is Incomplete <==> unpacked(
            rest.skip(used as int),
            depth,
        ) is Incomplete,
        unpacked_items(rest, count, depth) is Invalid <==> unpacked(
            rest.skip(used as int),
            depth,
        ) is Invalid,
{
    lemma_items_stop(rest, k + 1, count, depth);
}

/// Reads the `count` values of an array that start at `start`.
fn decode_items(bytes: &[u8], start: usize, count: usize, depth: usize) -> (r: Decoded<
    Vec<Value>,
>)
    requires
        start <= bytes@.len(),
    ensures
        agrees(
            r,
            unpacked_items(bytes@.skip(start as int), count as nat, depth as nat),
            |v: Vec<Value>| items_of(v@),
        ),
        r matches Decoded::Complete { used, .. } ==> start + used <= bytes@.len(),
    decreases depth, 1nat,
{
    let ghost rest = bytes@.skip(start as int);
    let total = bytes.len();
    let mut values: Vec<Value> = Vec::new();
    let mut pos: usize = start;
    let mut k: usize = 0;
    while k < count
        invariant
            k <= count,
            total == bytes@.len(),
            start <= pos <= total,
            rest == bytes@.skip(start as int),
            unpacked_items(rest, k as nat, depth as nat) == (Unpacked::Complete {
                value: items_of(values@),
                used: (pos - start) as nat,
            }),
        decreases count - k,
    {
        let ghost before = values@;
        let ghost used = (pos - start) as nat;
        proof {
            assert(rest.skip(used as int) =~= bytes@.skip(pos as int));
        }
        match decode_at(bytes, pos, depth) {
            Decoded::Complete { value, used: more } => {
                proof {
                    lemma_unpacked_items_next(
                        rest,
                        k as nat,
                        depth as nat,
                        items_of(before),
                        used,
                        value@,
                        more as nat,
                    );
                }
                values.push(value);
                pos = pos + more;
                proof {
                    assert(values@.drop_last() =~= before);
                }
            },
            Decoded::Incomplete => {
                proof {
                    lemma_unpacked_items_fail(rest, k as nat, count as nat, depth as nat, used);
                }
                return Decoded::Incomplete;
            },
            Decoded::Invalid => {
                proof {
                    lemma_unpacked_items_fail(rest, k as nat, count as nat, depth as nat, used);
                }
                return Decoded::Invalid;
            },
        }
        k += 1;
    }
    Decoded::Complete { value: values, used: pos - start }
}

/// Reads the entry that starts at `at`: a key and its value.
fn decode_entry(bytes: &[u8], at: usize, depth: usize) -> (r: Decoded<(String, Value)>)
    requires
        at <= bytes@.len(),
    ensures
        agrees(
            r,
            unpacked_entry(bytes@.skip(at as int), depth as nat),
            |e: (String, Value)| entry_view(e),
        ),
        r matches Decoded::Complete { used, .. } ==> at + used <= bytes@.len(),
    decreases depth, 1nat,
{
    let total = bytes.len();
    match decode_key(bytes, at) {
        Decoded::Complete { value: key, used: first } => {
            proof {
                assert(bytes@.skip(at as int).skip(first as int) =~= bytes@.skip(at + first));
            }
            match decode_at(bytes, at + first, depth) {
                Decoded::Complete { value, used: second } => Decoded::Complete {
                    value: (key, value),
                    used: first + second,
                },
                Decoded::Incomplete => Decoded::Incomplete,
                Decoded::Invalid => Decoded::Invalid,
            }
        },
        Decoded::Incomplete => Decoded::Incomplete,
        Decoded::Invalid => Decoded::Invalid,
    }
}

/// One more entry that is read is put to the entries read before.
proof fn lemma_unpacked_entries_next(
    rest: Seq<u8>,
    k: nat,
    depth: nat,
    entries: Seq<(Seq<char>, Item)>,
    used: nat,
    entry: (Seq<char>, Item),
    more: nat,
)
    requires
        unpacked_entries(rest, k, depth) == (Unpacked::Complete { value: entries, used }),
        unpacked_entry(rest.skip(used as int), depth) == (Unpacked::Complete {
            value: entry,
            used: more,
        }),
    ensures
        unpacked_entries(rest, k + 1, depth) == (Unpacked::Complete {
            value: put(entries, entry.0, entry.1),
            used: used + more,
        }),
{
}

/// Reading the entries of an object fails where reading one of them
/// fails.
proof fn lemma_unpacked_entries_fail(rest: Seq<u8>, k: nat, count: nat, depth: nat, used: nat)
    requires
        k < count,
        unpacked_entries(rest, k, depth) matches Unpacked::Complete { used: before, .. }
            && before == used,
        !(unpacked_entry(rest.skip(used as int), depth) is Complete),
    ensures
        unpacked_entries(rest, count, depth) is Incomplete <==> unpacked_entry(
            rest.skip(used as int),
            depth,
        ) is Incomplete,
        unpacked_entries(rest, count, depth) is Invalid <==> unpacked_entry(
            rest.skip(used as int),
            depth,
        ) is Invalid,
{
    lemma_entries_stop(rest, k + 1, count, depth);
}

/// Reads the `count` entries of an object that start at `start`.
fn decode_entries(bytes: &[u8], start: usize, count: usize, depth: usize) -> (r: Decoded<
    Vec<(String, Value)>,
>)
    requires
        start <= bytes@.len(),
    ensures
        agrees(
            r,
            unpacked_entries(bytes@.skip(start as int), count as nat, depth as nat),
            |v: Vec<(String, Value)>| entries_of(v@),
        ),
        r matches Decoded::Complete { used, .. } ==> start + used <= bytes@.len(),
    decreases depth, 2nat,
{
    let ghost rest = bytes@.skip(start as int);
    let total = bytes.len();
    let mut entries: Vec<(String, Value)> = Vec::new();
    let mut pos: usize = start;
    let mut k: usize = 0;
    while k < count
        invariant
            k <= count,
            total == bytes@.len(),
            start <= pos <= total,
            rest == bytes@.skip(start as int),
            unpacked_entries(rest, k as nat, depth as nat) == (Unpacked::Complete {
                value: entries_of(entries@),
                used: (pos - start) as nat,
            }),
        decreases count - k,
    {
        let ghost before = entries_of(entries@);
        let ghost used = (pos - start) as nat;
        proof {
            assert(rest.skip(used as int) =~= bytes@.skip(pos as int));
        }
        match decode_entry(bytes, pos, depth) {
            Decoded::Complete { value, used: more } => {
                proof {
                    lemma_unpacked_entries_next(
                        rest,
                        k as nat,
                        depth as nat,
                        before,
                        used,
                        entry_view(value),
                        more as nat,
                    );
                }
                put_entry(&mut entries, value.0, value.1);
                pos = pos + more;
            },
            Decoded::Incomplete => {
                proof {
                    lemma_unpacked_entries_fail(rest, k as nat, count as nat, depth as nat, used);
                }
                return Decoded::Incomplete;
            },
            Decoded::Invalid => {
                proof {
                    lemma_unpacked_entries_fail(rest, k as nat, count as nat, depth as nat, used);
                }
                return Decoded::Invalid;
            },
        }
        k += 1;
    }
    Decoded::Complete { value: entries, used: pos - start }
}

/// Reads the value that starts at `at`, to at most `depth` levels of
/// nesting.
fn decode_at(bytes: &[u8], at: usize, depth: usize) -> (r: Decoded<Value>)
    requires
        at <= bytes@.len(),
    ensures
        agrees(r, unpacked(bytes@.skip(at as int), depth as nat), |v: Value| v@),
        r matches Decoded::Complete { used, .. } ==> at + used <= bytes@.len(),
    decreases depth, 0nat,
{
    let ghost all = bytes@.skip(at as int);
    let total = bytes.len();
    let (head, used) = match decode_head(bytes, at) {
        Decoded::Complete { value, used } => (value, used),
        Decoded::Incomplete => {
            return Decoded::Incomplete;
        },
        Decoded::Invalid => {
            return Decoded::Invalid;
        },
    };
    let start = at + used;
    assert(all.skip(used as int) =~= bytes@.skip(start as int));
    match head {
        HeadRead::Null => Decoded::Complete { value: Value::Null, used },
        HeadRead::Bool(b) => Decoded::Complete { value: Value::Bool(b), used },
        HeadRead::Number(n) => Decoded::Complete { value: Value::Number(n), used },
        HeadRead::Text(len) => match decode_data(bytes, start, len, true) {
            Some(value) => Decoded::Complete { value, used: used + len },
            None => Decoded::Incomplete,
        },
        HeadRead::Bytes(len) => match decode_data(bytes, start, len, false) {
            Some(value) => Decoded::Complete { value, used: used + len },
            None => Decoded::Incomplete,
        },
        HeadRead::Array(count) => {
            if depth == 0 {
                return Decoded::Invalid;
            }
            match decode_items(bytes, start, count, depth - 1) {
                Decoded::Complete { value, used: more } => Decoded::Complete {
                    value: Value::Array(value),
                    used: used + more,
                },
                Decoded::Incomplete => Decoded::Incomplete,
                Decoded::Invalid => Decoded::Invalid,
            }
        },
        HeadRead::Object(count) => {
            if depth == 0 {
                return Decoded::Invalid;
            }
            match decode_entries(bytes, start, count, depth - 1) {
                Decoded::Complete { value, used: more } => Decoded::Complete {
                    value: Value::Object(value),
                    used: used + more,
                },
                Decoded::Incomplete => Decoded::Incomplete,
                Decoded::Invalid => Decoded::Invalid,
            }
        },
    }
}

/// Reads the value that `bytes` start with. Bytes behind it are left
/// alone: `used` tells where the next value starts.
pub fn decode(bytes: &[u8]) -> (r: Decoded<Value>)
    ensures
        agrees(r, unpacked(bytes@, MAX_DEPTH as nat), |v: Value| v@),
        r matches Decoded::Complete { value, used } ==> used <= bytes@.len() && well_formed(
            value@,
        ),
{
    proof {
        assert(bytes@.skip(0) =~= bytes@);
        lemma_unpacked_well_formed(bytes@, MAX_DEPTH as nat);
    }
    decode_at(bytes, 0, MAX_DEPTH)
}

} // verus!
