//! Writing values in their wire form.

use vstd::prelude::*;
use vstd::utf8::encode_utf8;
use crate::error::Error;
use crate::message::big_endian::{be_bytes, push_be};
use crate::message::value::{
    entries_of, item_of, items_of, lemma_entries_of, lemma_entries_of_take, lemma_items_of,
    lemma_items_of_take, Number, Value,
};
use crate::message::wire::{
    entries_fit, fits, items_fit, packed, packed_entries, packed_items, packed_nint, packed_number,
    packed_text, packed_uint, MAX_DEPTH,
};

verus! {

/// Appends a marker and the `width` low bytes of `n`.
fn push_marked(out: &mut Vec<u8>, marker: u8, n: u64, width: usize)
    requires
        1 <= width <= 8,
    ensures
        final(out)@ == old(out)@ + (seq![marker] + be_bytes(n as nat, width as nat)),
{
    out.push(marker);
    push_be(out, n, width);
    assert(out@ =~= old(out)@ + (seq![marker] + be_bytes(n as nat, width as nat)));
}

/// Appends the wire form of a whole number that is not negative.
fn push_uint(out: &mut Vec<u8>, n: u64)
    ensures
        final(out)@ == old(out)@ + packed_uint(n),
{
    if n < 0x80 {
        out.push(n as u8);
        assert(out@ =~= old(out)@ + packed_uint(n));
    } else if n < 0x100 {
        push_marked(out, 0xcc, n, 1);
    } else if n < 0x1_0000 {
        push_marked(out, 0xcd, n, 2);
    } else if n < 0x1_0000_0000 {
        push_marked(out, 0xce, n, 4);
    } else {
        push_marked(out, 0xcf, n, 8);
    }
}

/// Appends the wire form of a whole number below zero.
fn push_nint(out: &mut Vec<u8>, i: i64)
    requires
        i < 0,
    ensures
        final(out)@ == old(out)@ + packed_nint(i),
{
    if i >= -32 {
        out.push((0x100 + i) as u8);
        assert(out@ =~= old(out)@ + packed_nint(i));
    } else if i >= -0x80 {
        push_marked(out, 0xd0, (0x100 + i) as u64, 1);
    } else if i >= -0x8000 {
        push_marked(out, 0xd1, (0x1_0000 + i) as u64, 2);
    } else if i >= -0x8000_0000 {
        push_marked(out, 0xd2, (0x1_0000_0000 + i) as u64, 4);
    } else {
        let below = (-(i + 1)) as u64;
        push_marked(out, 0xd3, u64::MAX - below, 8);
    }
}

/// Appends the wire form of a number.
fn push_number(out: &mut Vec<u8>, n: &Number)
    ensures
        final(out)@ == old(out)@ + packed_number(*n),
{
    match n {
        Number::PosInt(u) => push_uint(out, *u),
        Number::NegInt(i) => if *i < 0 {
            push_nint(out, *i)
        } else {
            push_uint(out, *i as u64)
        },
        Number::Float32(bits) => push_marked(out, 0xca, *bits as u64, 4),
        Number::Float64(bits) => push_marked(out, 0xcb, *bits, 8),
    }
}

/// Appends a length: in the marker itself where it is below `small`, else
/// behind the marker of the shortest form that holds it.
fn push_len(out: &mut Vec<u8>, len: usize, base: u8, small: usize, markers: [u8; 3])
    requires
        len < 0x1_0000_0000,
        small <= 32,
        base + small <= 0x100,
    ensures
        final(out)@ == old(out)@ + if len < small {
            seq![(base + len) as u8]
        } else if len < 0x100 && markers[0] != 0 {
            seq![markers[0]] + be_bytes(len as nat, 1)
        } else if len < 0x1_0000 {
            seq![markers[1]] + be_bytes(len as nat, 2)
        } else {
            seq![markers[2]] + be_bytes(len as nat, 4)
        },
{
    if len < small {
        out.push(base + len as u8);
        assert(out@ =~= old(out)@ + seq![(base + len) as u8]);
    } else if len < 0x100 && markers[0] != 0 {
        push_marked(out, markers[0], len as u64, 1);
    } else if len < 0x1_0000 {
        push_marked(out, markers[1], len as u64, 2);
    } else {
        push_marked(out, markers[2], len as u64, 4);
    }
}

/// Appends the wire form of a text, unless it is too long.
fn push_text(out: &mut Vec<u8>, text: &str) -> (ok: bool)
    ensures
        ok == (encode_utf8(text@).len() < 0x1_0000_0000),
        ok ==> final(out)@ == old(out)@ + packed_text(text@),
{
    let bytes = text.as_bytes();
    if bytes.len() as u64 >= 0x1_0000_0000 {
        return false;
    }
    push_len(out, bytes.len(), 0xa0, 32, [0xd9, 0xda, 0xdb]);
    push_slice(out, bytes);
    assert(out@ =~= old(out)@ + packed_text(text@));
    true
}

/// Appends `bytes` to `out`.
fn push_slice(out: &mut Vec<u8>, bytes: &[u8])
    ensures
        final(out)@ == old(out)@ + bytes@,
{
    let mut i: usize = 0;
    assert(out@ =~= old(out)@ + bytes@.take(0));
    while i < bytes.len()
        invariant
            i <= bytes.len(),
            out@ == old(out)@ + bytes@.take(i as int),
        decreases bytes.len() - i,
    {
        out.push(bytes[i]);
        assert(out@ =~= old(out)@ + bytes@.take(i + 1));
        i += 1;
    }
    assert(bytes@.take(i as int) =~= bytes@);
}

/// A series with a value that does not fit does not fit.
pub proof fn lemma_items_unfit(values: Seq<Value>, i: int, depth: nat)
    requires
        0 <= i < values.len(),
        !fits(item_of(values[i]), depth),
    ensures
        !items_fit(items_of(values), depth),
    decreases values.len(),
{
    let items = items_of(values);
    assert(items.drop_last() =~= items_of(values.drop_last()));
    assert(items.last() == item_of(values.last()));
    if i < values.len() - 1 {
        lemma_items_unfit(values.drop_last(), i, depth);
    }
}

/// The entries of an object with a key or a value that does not fit do not
/// fit.
pub proof fn lemma_entries_unfit(entries: Seq<(String, Value)>, i: int, depth: nat)
    requires
        0 <= i < entries.len(),
        !fits(item_of(entries[i].1), depth) || !(encode_utf8(entries[i].0@).len()
            < 0x1_0000_0000),
    ensures
        !entries_fit(entries_of(entries), depth),
    decreases entries.len(),
{
    let pairs = entries_of(entries);
    assert(pairs.drop_last() =~= entries_of(entries.drop_last()));
    assert(pairs.last() == (entries.last().0@, item_of(entries.last().1)));
    if i < entries.len() - 1 {
        lemma_entries_unfit(entries.drop_last(), i, depth);
    }
}

/// Appends the wire form of `value` and returns `true`, or returns `false`
/// where the value has none within `depth` levels of nesting.
fn push_value(out: &mut Vec<u8>, value: &Value, depth: usize) -> (ok: bool)
    ensures
        ok == fits(value@, depth as nat),
        ok ==> final(out)@ == old(out)@ + packed(value@),
    decreases value,
{
    match value {
        Value::Null => {
            out.push(0xc0);
            assert(out@ =~= old(out)@ + packed(value@));
            true
        },
        Value::Bool(b) => {
            if *b {
                out.push(0xc3);
            } else {
                out.push(0xc2);
            }
            assert(out@ =~= old(out)@ + packed(value@));
            true
        },
        Value::Number(n) => {
            push_number(out, n);
            true
        },
        Value::String(text) => push_text(out, text.as_str()),
        Value::Bytes(bytes) => {
            if bytes.len() as u64 >= 0x1_0000_0000 {
                return false;
            }
            push_len(out, bytes.len(), 0, 0, [0xc4, 0xc5, 0xc6]);
            push_slice(out, bytes.as_slice());
            assert(out@ =~= old(out)@ + packed(value@));
            true
        },
        Value::Array(values) => {
            proof {
                lemma_items_of(values@);
            }
            if depth == 0 || values.len() as u64 >= 0x1_0000_0000 {
                return false;
            }
            push_len(out, values.len(), 0x90, 16, [0, 0xdc, 0xdd]);
            let ghost start = out@;
            let mut i: usize = 0;
            proof {
                assert(values@.take(0) =~= Seq::<Value>::empty());
                assert(out@ =~= start + packed_items(items_of(values@.take(0))));
            }
            while i < values.len()
                invariant
                    i <= values.len(),
                    depth > 0,
                    *value == Value::Array(*values),
                    values@.len() < 0x1_0000_0000,
                    items_fit(items_of(values@.take(i as int)), (depth - 1) as nat),
                    out@ == start + packed_items(items_of(values@.take(i as int))),
                decreases values.len() - i,
            {
                proof {
                    lemma_items_of_take(values@, i as int);
                    let longer = items_of(values@.take(i + 1));
                    assert(longer.drop_last() =~= items_of(values@.take(i as int)));
                    assert(*values == value->Array_0);
                    assert(decreases_to!(*value => value->Array_0[i as int]));
                }
                if !push_value(out, &values[i], depth - 1) {
                    proof {
                        lemma_items_unfit(values@, i as int, (depth - 1) as nat);
                    }
                    return false;
                }
                proof {
                    assert(out@ =~= start + packed_items(items_of(values@.take(i + 1))));
                }
                i += 1;
            }
            proof {
                assert(values@.take(i as int) =~= values@);
                assert(out@ =~= old(out)@ + packed(value@));
            }
            true
        },
        Value::Object(entries) => {
            proof {
                lemma_entries_of(entries@);
            }
            if depth == 0 || entries.len() as u64 >= 0x1_0000_0000 {
                return false;
            }
            push_len(out, entries.len(), 0x80, 16, [0, 0xde, 0xdf]);
            let ghost start = out@;
            let mut i: usize = 0;
            proof {
                assert(entries@.take(0) =~= Seq::<(String, Value)>::empty());
                assert(out@ =~= start + packed_entries(entries_of(entries@.take(0))));
            }
            while i < entries.len()
                invariant
                    i <= entries.len(),
                    depth > 0,
                    *value == Value::Object(*entries),
                    entries@.len() < 0x1_0000_0000,
                    entries_fit(entries_of(entries@.take(i as int)), (depth - 1) as nat),
                    out@ == start + packed_entries(entries_of(entries@.take(i as int))),
                decreases entries.len() - i,
            {
                proof {
                    lemma_entries_of_take(entries@, i as int);
                    let longer = entries_of(entries@.take(i + 1));
                    assert(longer.drop_last() =~= entries_of(entries@.take(i as int)));
                }
                let ghost before = out@;
                if !push_text(out, entries[i].0.as_str()) {
                    proof {
                        lemma_entries_unfit(entries@, i as int, (depth - 1) as nat);
                    }
                    return false;
                }
                if !push_value(out, &entries[i].1, depth - 1) {
                    proof {
                        lemma_entries_unfit(entries@, i as int, (depth - 1) as nat);
                    }
                    return false;
                }
                proof {
                    assert(out@ =~= start + packed_entries(entries_of(entries@.take(i + 1))));
                }
                i += 1;
            }
            proof {
                assert(entries@.take(i as int) =~= entries@);
                assert(out@ =~= old(out)@ + packed(value@));
            }
            true
        },
    }
}

/// The wire form of `value`. A value that has none, because a part of it
/// is too long or because it is nested too deep, is refused.
pub fn encode(value: &Value) -> (r: Result<Vec<u8>, Error>)
    ensures
        match r {
            Ok(bytes) => fits(value@, MAX_DEPTH as nat) && bytes@ == packed(value@),
            Err(e) => !fits(value@, MAX_DEPTH as nat) && e is EncodeRMPError,
        },
{
    let mut out: Vec<u8> = Vec::new();
    if push_value(&mut out, value, MAX_DEPTH) {
        assert(out@ =~= packed(value@));
        Ok(out)
    } else {
        Err(Error::EncodeRMPError("value too large or nested too deep".to_owned()))
    }
}

} // verus!
