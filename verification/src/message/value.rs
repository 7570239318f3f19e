//! The values that a message carries: what MessagePack can express.

use vstd::prelude::*;
use vstd::slice::slice_to_vec;
use crate::message::object::keys_ascend;

verus! {

/// A number: a whole number, or a floating-point number of 32 or 64 bits
/// that is kept as its bits.
#[derive(Debug, Clone, Copy, PartialEq, Eq)]
pub enum Number {
    /// A whole number that is not negative.
    PosInt(u64),
    /// A whole number below zero.
    NegInt(i64),
    /// The bits of a floating-point number of 32 bits.
    Float32(u32),
    /// The bits of a floating-point number of 64 bits.
    Float64(u64),
}

/// A value of a message. Text and bytes are kept apart; an object keeps
/// its entries in the order of their keys.
#[derive(Debug, PartialEq, Eq)]
pub enum Value {
    Null,
    Bool(bool),
    Number(Number),
    String(String),
    Bytes(Vec<u8>),
    Array(Vec<Value>),
    Object(Vec<(String, Value)>),
}

/// A value as a mathematical value.
pub enum Item {
    Null,
    Bool(bool),
    Number(Number),
    Text(Seq<char>),
    Bytes(Seq<u8>),
    Array(Seq<Item>),
    Object(Seq<(Seq<char>, Item)>),
}

/// The mathematical value of `value`.
pub open spec fn item_of(value: Value) -> Item
    decreases value,
{
    match value {
        Value::Null => Item::Null,
        Value::Bool(b) => Item::Bool(b),
        Value::Number(n) => Item::Number(n),
        Value::String(s) => Item::Text(s@),
        Value::Bytes(b) => Item::Bytes(b@),
        Value::Array(values) => Item::Array(items_of(values@)),
        Value::Object(entries) => Item::Object(entries_of(entries@)),
    }
}

/// The mathematical values of a series of values.
pub open spec fn items_of(values: Seq<Value>) -> Seq<Item>
    decreases values,
{
    if values.len() == 0 {
        Seq::empty()
    } else {
        items_of(values.drop_last()).push(item_of(values.last()))
    }
}

/// The mathematical values of the entries of an object.
pub open spec fn entries_of(entries: Seq<(String, Value)>) -> Seq<(Seq<char>, Item)>
    decreases entries,
{
    if entries.len() == 0 {
        Seq::empty()
    } else {
        entries_of(entries.drop_last()).push((entries.last().0@, item_of(entries.last().1)))
    }
}

impl View for Value {
    type V = Item;

    open spec fn view(&self) -> Item {
        item_of(*self)
    }
}

impl Default for Value {
    fn default() -> (value: Value)
        ensures
            value@ == Item::Null,
    {
        Value::Null
    }
}

/// Whether the value is in order: no number below zero is held as one that
/// is not, and the keys of every object ascend.
pub open spec fn well_formed(item: Item) -> bool
    decreases item,
{
    match item {
        Item::Number(Number::NegInt(i)) => i < 0,
        Item::Array(items) => items_well_formed(items),
        Item::Object(entries) => keys_ascend(entries) && entries_well_formed(entries),
        _ => true,
    }
}

/// Whether each of the values is in order.
pub open spec fn items_well_formed(items: Seq<Item>) -> bool
    decreases items,
{
    if items.len() == 0 {
        true
    } else {
        items_well_formed(items.drop_last()) && well_formed(items.last())
    }
}

/// Whether the value of each of the entries is in order.
pub open spec fn entries_well_formed(entries: Seq<(Seq<char>, Item)>) -> bool
    decreases entries,
{
    if entries.len() == 0 {
        true
    } else {
        entries_well_formed(entries.drop_last()) && well_formed(entries.last().1)
    }
}

/// The values of a series that is one longer are those of the shorter
/// series and the value of the one more.
pub proof fn lemma_items_of_take(values: Seq<Value>, i: int)
    requires
        0 <= i < values.len(),
    ensures
        items_of(values.take(i + 1)) == items_of(values.take(i)).push(item_of(values[i])),
{
    assert(values.take(i + 1).drop_last() =~= values.take(i));
}

/// The entries of a series that is one longer are those of the shorter
/// series and the one more.
pub proof fn lemma_entries_of_take(entries: Seq<(String, Value)>, i: int)
    requires
        0 <= i < entries.len(),
    ensures
        entries_of(entries.take(i + 1)) == entries_of(entries.take(i)).push(
            (entries[i].0@, item_of(entries[i].1)),
        ),
{
    assert(entries.take(i + 1).drop_last() =~= entries.take(i));
}

/// A series has as many mathematical values as values, each the value of
/// the one in its place.
pub proof fn lemma_items_of(values: Seq<Value>)
    ensures
        items_of(values).len() == values.len(),
        forall|i: int|
            0 <= i < values.len() ==> #[trigger] items_of(values)[i] == item_of(values[i]),
    decreases values.len(),
{
    if values.len() > 0 {
        lemma_items_of(values.drop_last());
    }
}

/// An object has as many mathematical entries as entries, each that of the
/// one in its place.
pub proof fn lemma_entries_of(entries: Seq<(String, Value)>)
    ensures
        entries_of(entries).len() == entries.len(),
        forall|i: int|
            0 <= i < entries.len() ==> #[trigger] entries_of(entries)[i] == (
                entries[i].0@,
                item_of(entries[i].1),
            ),
    decreases entries.len(),
{
    if entries.len() > 0 {
        lemma_entries_of(entries.drop_last());
    }
}

impl Value {
    /// A copy of the value, with copies of all its parts.
    pub fn duplicate(&self) -> (copy: Value)
        ensures
            copy@ == self@,
        decreases self,
    {
        match self {
            Value::Null => Value::Null,
            Value::Bool(b) => Value::Bool(*b),
            Value::Number(n) => Value::Number(*n),
            Value::String(text) => Value::String(text.clone()),
            Value::Bytes(bytes) => Value::Bytes(slice_to_vec(bytes.as_slice())),
            Value::Array(values) => {
                let mut copies: Vec<Value> = Vec::new();
                let mut i: usize = 0;
                proof {
                    assert(values@.take(0) =~= Seq::<Value>::empty());
                }
                while i < values.len()
                    invariant
                        i <= values.len(),
                        *self == Value::Array(*values),
                        items_of(copies@) == items_of(values@.take(i as int)),
                    decreases values.len() - i,
                {
                    proof {
                        assert(*values == self->Array_0);
                        assert(decreases_to!(*self => self->Array_0[i as int]));
                        lemma_items_of_take(values@, i as int);
                    }
                    let ghost before = copies@;
                    copies.push(values[i].duplicate());
                    proof {
                        assert(copies@.drop_last() =~= before);
                    }
                    i += 1;
                }
                proof {
                    assert(values@.take(i as int) =~= values@);
                }
                Value::Array(copies)
            },
            Value::Object(entries) => {
                let mut copies: Vec<(String, Value)> = Vec::new();
                let mut i: usize = 0;
                proof {
                    assert(entries@.take(0) =~= Seq::<(String, Value)>::empty());
                }
                while i < entries.len()
                    invariant
                        i <= entries.len(),
                        *self == Value::Object(*entries),
                        entries_of(copies@) == entries_of(entries@.take(i as int)),
                    decreases entries.len() - i,
                {
                    proof {
                        assert(*entries == self->Object_0);
                        assert(decreases_to!(*self => self->Object_0[i as int]));
                        assert(decreases_to!(*self => self->Object_0[i as int].1));
                        lemma_entries_of_take(entries@, i as int);
                    }
                    let ghost before = copies@;
                    copies.push((entries[i].0.clone(), entries[i].1.duplicate()));
                    proof {
                        assert(copies@.drop_last() =~= before);
                    }
                    i += 1;
                }
                proof {
                    assert(entries@.take(i as int) =~= entries@);
                }
                Value::Object(copies)
            },
        }
    }
}

impl Clone for Value {
    fn clone(&self) -> (copy: Value)
        ensures
            copy@ == self@,
    {
        self.duplicate()
    }
}

} // verus!
