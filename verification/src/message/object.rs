//! The entries of an object: kept in the order of their keys, with one
//! entry for each key.

use vstd::prelude::*;
use crate::message::value::{
    entries_of, entries_well_formed, item_of, lemma_entries_of, well_formed, Item, Value,
};
use crate::text::chars_of;

verus! {

/// Whether the key `a` stands before the key `b`: at the first place where
/// they differ `a` has the lower character, or `a` ends there and `b` does
/// not.
pub open spec fn key_before(a: Seq<char>, b: Seq<char>) -> bool
    decreases a.len(),
{
    if b.len() == 0 {
        false
    } else if a.len() == 0 {
        true
    } else if a[0] != b[0] {
        a[0] < b[0]
    } else {
        key_before(a.drop_first(), b.drop_first())
    }
}

/// Whether each key of the entries stands before the next.
pub open spec fn keys_ascend(entries: Seq<(Seq<char>, Item)>) -> bool {
    forall|i: int| 0 < i < entries.len() ==> key_before(entries[i - 1].0, #[trigger] entries[i].0)
}

/// The entries with `value` under `key`: in the place of the entry that had
/// the key, or else where the order of the keys puts it.
pub open spec fn put(entries: Seq<(Seq<char>, Item)>, key: Seq<char>, value: Item) -> Seq<
    (Seq<char>, Item),
>
    decreases entries.len(),
{
    if entries.len() == 0 {
        seq![(key, value)]
    } else if key_before(entries.last().0, key) {
        entries.push((key, value))
    } else if entries.last().0 == key {
        entries.drop_last().push((key, value))
    } else {
        put(entries.drop_last(), key, value).push(entries.last())
    }
}

/// The value that the entries hold under `key`, if they hold one.
pub open spec fn get(entries: Seq<(Seq<char>, Item)>, key: Seq<char>) -> Option<Item>
    decreases entries.len(),
{
    if entries.len() == 0 {
        None
    } else if entries.last().0 == key {
        Some(entries.last().1)
    } else {
        get(entries.drop_last(), key)
    }
}

/// The entries but the one under `key` that `get` finds.
pub open spec fn without(entries: Seq<(Seq<char>, Item)>, key: Seq<char>) -> Seq<
    (Seq<char>, Item),
>
    decreases entries.len(),
{
    if entries.len() == 0 {
        Seq::empty()
    } else if entries.last().0 == key {
        entries.drop_last()
    } else {
        without(entries.drop_last(), key).push(entries.last())
    }
}

/// How two keys stand to each other.
pub enum KeyOrder {
    Before,
    Same,
    After,
}

/// Tells how the key `a` stands to the key `b`.
pub fn key_order(a: &str, b: &str) -> (order: KeyOrder)
    ensures
        order is Before <==> key_before(a@, b@),
        order is Same <==> a@ == b@,
        order is After <==> key_before(b@, a@),
{
    let left = chars_of(a);
    let right = chars_of(b);
    let mut i: usize = 0;
    proof {
        assert(left@.skip(0) =~= left@);
        assert(right@.skip(0) =~= right@);
        lemma_key_order(a@, b@);
    }
    while i < left.len() && i < right.len()
        invariant
            i <= left.len(),
            i <= right.len(),
            left@ == a@,
            right@ == b@,
            left@.take(i as int) == right@.take(i as int),
            key_before(left@, right@) == key_before(left@.skip(i as int), right@.skip(i as int)),
            key_before(right@, left@) == key_before(right@.skip(i as int), left@.skip(i as int)),
        decreases left.len() - i,
    {
        let x = left[i];
        let y = right[i];
        proof {
            assert(left@.skip(i as int)[0] == left@[i as int]);
            assert(right@.skip(i as int)[0] == right@[i as int]);
            assert(left@.skip(i as int).drop_first() =~= left@.skip(i + 1));
            assert(right@.skip(i as int).drop_first() =~= right@.skip(i + 1));
        }
        if x < y {
            proof {
                lemma_key_order(a@, b@);
            }
            return KeyOrder::Before;
        }
        if y < x {
            proof {
                lemma_key_order(a@, b@);
            }
            return KeyOrder::After;
        }
        proof {
            assert(left@[i as int] == right@[i as int]);
            assert(left@.take(i + 1) =~= left@.take(i as int).push(left@[i as int]));
            assert(right@.take(i + 1) =~= right@.take(i as int).push(right@[i as int]));
        }
        i += 1;
    }
    proof {
        lemma_key_order(a@, b@);
        if i == left.len() && i == right.len() {
            assert(left@.take(i as int) =~= left@);
            assert(right@.take(i as int) =~= right@);
        }
    }
    if i < right.len() {
        KeyOrder::Before
    } else if i < left.len() {
        KeyOrder::After
    } else {
        KeyOrder::Same
    }
}

/// Puts `value` under `key` into the entries of an object: in the place of
/// the entry that had the key, or else where the order of the keys puts it.
pub fn put_entry(entries: &mut Vec<(String, Value)>, key: String, value: Value)
    ensures
        entries_of(final(entries)@) == put(entries_of(old(entries)@), key@, item_of(value)),
{
    let ghost before = entries_of(old(entries)@);
    let ghost item = item_of(value);
    let mut i: usize = entries.len();
    proof {
        lemma_entries_of(old(entries)@);
        assert(before.take(i as int) + before.skip(i as int) =~= before);
        assert(before.take(i as int) =~= before);
        assert(put(before.take(i as int), key@, item) + before.skip(i as int) =~= put(
            before,
            key@,
            item,
        ));
    }
    while i > 0
        invariant
            i <= entries.len(),
            *entries == *old(entries),
            before == entries_of(old(entries)@),
            before.len() == entries.len(),
            item == item_of(value),
            put(before, key@, item) == put(before.take(i as int), key@, item) + before.skip(
                i as int,
            ),
        decreases i,
    {
        let ghost part = before.take(i as int);
        proof {
            lemma_entries_of(old(entries)@);
            assert(part.last() == before[i - 1]);
            assert(part.drop_last() =~= before.take(i - 1));
        }
        match key_order(entries[i - 1].0.as_str(), key.as_str()) {
            KeyOrder::Before => {
                entries.insert(i, (key, value));
                proof {
                    lemma_entries_of(entries@);
                    assert(entries_of(entries@) =~= part.push((key@, item)) + before.skip(
                        i as int,
                    ));
                }
                return;
            },
            KeyOrder::Same => {
                entries.remove(i - 1);
                entries.insert(i - 1, (key, value));
                proof {
                    lemma_entries_of(entries@);
                    assert(entries_of(entries@) =~= part.drop_last().push((key@, item))
                        + before.skip(i as int));
                }
                return;
            },
            KeyOrder::After => {
                proof {
                    lemma_key_order(key@, part.last().0);
                    assert(put(part, key@, item) == put(part.drop_last(), key@, item).push(
                        part.last(),
                    ));
                    assert(put(before, key@, item) =~= put(before.take(i - 1), key@, item)
                        + before.skip(i - 1));
                }
                i -= 1;
            },
        }
    }
    entries.insert(0, (key, value));
    proof {
        lemma_entries_of(entries@);
        lemma_entries_of(old(entries)@);
        assert(before.take(0) =~= Seq::<(Seq<char>, Item)>::empty());
        assert(before.skip(0) =~= before);
        assert(entries_of(entries@) =~= seq![(key@, item)] + before);
    }
}

/// The position of the entry under `key`, if there is one.
pub fn find_entry(entries: &Vec<(String, Value)>, key: &str) -> (r: Option<usize>)
    ensures
        match r {
            Some(i) => i < entries@.len() && entries@[i as int].0@ == key@ && get(
                entries_of(entries@),
                key@,
            ) == Some(item_of(entries@[i as int].1)) && forall|j: int|
                i < j < entries@.len() ==> (#[trigger] entries@[j]).0@ != key@,
            None => get(entries_of(entries@), key@) is None,
        },
{
    let mut i: usize = entries.len();
    proof {
        lemma_entries_of(entries@);
        assert(entries_of(entries@).take(i as int) =~= entries_of(entries@));
    }
    while i > 0
        invariant
            i <= entries.len(),
            get(entries_of(entries@), key@) == get(entries_of(entries@).take(i as int), key@),
            forall|j: int| i <= j < entries@.len() ==> (#[trigger] entries@[j]).0@ != key@,
        decreases i,
    {
        proof {
            lemma_entries_of(entries@);
            let part = entries_of(entries@).take(i as int);
            assert(part.last() == entries_of(entries@)[i - 1]);
            assert(part.drop_last() =~= entries_of(entries@).take(i - 1));
        }
        match key_order(entries[i - 1].0.as_str(), key) {
            KeyOrder::Same => {
                return Some(i - 1);
            },
            _ => {},
        }
        i -= 1;
    }
    proof {
        assert(entries_of(entries@).take(0) =~= Seq::<(Seq<char>, Item)>::empty());
    }
    None
}

/// Takes the entry under `key` out of the entries and returns its value,
/// if there is one.
pub fn take_entry(entries: &mut Vec<(String, Value)>, key: &str) -> (r: Option<Value>)
    ensures
        match r {
            Some(value) => get(entries_of(old(entries)@), key@) == Some(item_of(value)),
            None => get(entries_of(old(entries)@), key@) is None,
        },
        entries_of(final(entries)@) == without(entries_of(old(entries)@), key@),
{
    match find_entry(entries, key) {
        Some(i) => {
            proof {
                lemma_entries_of(entries@);
                lemma_without_at(entries_of(entries@), key@, i as int);
            }
            let entry = entries.remove(i);
            proof {
                lemma_entries_of(entries@);
                lemma_entries_of(old(entries)@);
                assert(entries_of(entries@) =~= entries_of(old(entries)@).remove(i as int));
            }
            Some(entry.1)
        },
        None => {
            proof {
                lemma_without_absent(entries_of(entries@), key@);
            }
            None
        },
    }
}

/// Of two keys one stands before the other, or they are the same.
pub proof fn lemma_key_order(a: Seq<char>, b: Seq<char>)
    ensures
        key_before(a, b) || key_before(b, a) || a == b,
        !(key_before(a, b) && key_before(b, a)),
        !key_before(a, a),
    decreases a.len(),
{
    if a.len() > 0 && b.len() > 0 && a[0] == b[0] {
        lemma_key_order(a.drop_first(), b.drop_first());
        if a.drop_first() == b.drop_first() {
            assert(a =~= seq![a[0]] + a.drop_first());
            assert(b =~= seq![b[0]] + b.drop_first());
        }
    } else if a.len() == 0 && b.len() == 0 {
        assert(a =~= b);
    }
    if a.len() > 0 {
        lemma_key_irreflexive(a);
    }
}

/// No key stands before itself.
pub proof fn lemma_key_irreflexive(a: Seq<char>)
    ensures
        !key_before(a, a),
    decreases a.len(),
{
    if a.len() > 0 {
        lemma_key_irreflexive(a.drop_first());
    }
}

/// Putting an entry into entries whose keys ascend leaves the keys
/// ascending, and the last key is the greater of the old last key and the
/// new one.
pub proof fn lemma_put_ascends(entries: Seq<(Seq<char>, Item)>, key: Seq<char>, value: Item)
    requires
        keys_ascend(entries),
    ensures
        keys_ascend(put(entries, key, value)),
        put(entries, key, value).len() >= 1,
        put(entries, key, value).last().0 == key || (entries.len() > 0 && put(
            entries,
            key,
            value,
        ).last().0 == entries.last().0 && key_before(key, entries.last().0)),
    decreases entries.len(),
{
    let result = put(entries, key, value);
    if entries.len() == 0 {
    } else if key_before(entries.last().0, key) {
        assert forall|i: int| 0 < i < result.len() implies key_before(
            result[i - 1].0,
            #[trigger] result[i].0,
        ) by {
            if i < entries.len() {
                assert(result[i] == entries[i]);
                assert(result[i - 1] == entries[i - 1]);
            }
        }
    } else if entries.last().0 == key {
        assert forall|i: int| 0 < i < result.len() implies key_before(
            result[i - 1].0,
            #[trigger] result[i].0,
        ) by {
            assert(result[i - 1] == entries[i - 1]);
            assert(key_before(entries[i - 1].0, entries[i].0));
        }
    } else {
        let shorter = entries.drop_last();
        assert(keys_ascend(shorter)) by {
            assert forall|i: int| 0 < i < shorter.len() implies key_before(
                shorter[i - 1].0,
                #[trigger] shorter[i].0,
            ) by {
                assert(key_before(entries[i - 1].0, entries[i].0));
            }
        }
        lemma_put_ascends(shorter, key, value);
        lemma_key_order(key, entries.last().0);
        let inner = put(shorter, key, value);
        assert forall|i: int| 0 < i < result.len() implies key_before(
            result[i - 1].0,
            #[trigger] result[i].0,
        ) by {
            if i < inner.len() {
                assert(result[i] == inner[i]);
                assert(result[i - 1] == inner[i - 1]);
            } else {
                assert(result[i - 1] == inner.last());
                if inner.last().0 != key {
                    assert(key_before(entries[entries.len() - 2].0, entries[entries.len() - 1].0));
                }
            }
        }
    }
}

/// Putting an entry whose value is in order into entries whose values are
/// in order leaves them so.
pub proof fn lemma_put_well_formed(entries: Seq<(Seq<char>, Item)>, key: Seq<char>, value: Item)
    requires
        entries_well_formed(entries),
        well_formed(value),
    ensures
        entries_well_formed(put(entries, key, value)),
    decreases entries.len(),
{
    let result = put(entries, key, value);
    if entries.len() == 0 {
        assert(result.drop_last() =~= entries);
    } else if key_before(entries.last().0, key) {
        assert(result.drop_last() =~= entries);
    } else if entries.last().0 == key {
        assert(result.drop_last() =~= entries.drop_last());
    } else {
        lemma_put_well_formed(entries.drop_last(), key, value);
        assert(result.drop_last() =~= put(entries.drop_last(), key, value));
    }
}

/// The entries before the last of entries whose keys ascend have keys that
/// ascend.
pub proof fn lemma_ascend_prefix(entries: Seq<(Seq<char>, Item)>)
    requires
        keys_ascend(entries),
        entries.len() > 0,
    ensures
        keys_ascend(entries.drop_last()),
{
    let shorter = entries.drop_last();
    assert forall|i: int| 0 < i < shorter.len() implies key_before(
        shorter[i - 1].0,
        #[trigger] shorter[i].0,
    ) by {
        assert(key_before(entries[i - 1].0, entries[i].0));
    }
}

/// What was put under a key is found there, and what is under other keys
/// stays.
pub proof fn lemma_get_put(
    entries: Seq<(Seq<char>, Item)>,
    key: Seq<char>,
    value: Item,
    other: Seq<char>,
)
    ensures
        get(put(entries, key, value), key) == Some(value),
        other != key ==> get(put(entries, key, value), other) == get(entries, other),
    decreases entries.len(),
{
    let result = put(entries, key, value);
    if entries.len() == 0 {
        assert(result.drop_last() =~= entries);
    } else if key_before(entries.last().0, key) {
        assert(result.drop_last() =~= entries);
    } else if entries.last().0 == key {
        assert(result.drop_last() =~= entries.drop_last());
    } else {
        lemma_get_put(entries.drop_last(), key, value, other);
        assert(result.drop_last() =~= put(entries.drop_last(), key, value));
    }
}

/// Entries that hold nothing under a key are all left without it.
pub proof fn lemma_without_absent(entries: Seq<(Seq<char>, Item)>, key: Seq<char>)
    requires
        get(entries, key) is None,
    ensures
        without(entries, key) == entries,
    decreases entries.len(),
{
    if entries.len() > 0 {
        lemma_without_absent(entries.drop_last(), key);
        assert(entries.drop_last().push(entries.last()) =~= entries);
    } else {
        assert(entries =~= Seq::empty());
    }
}

/// Taking out what was put under a new key gives the entries back.
pub proof fn lemma_without_put(entries: Seq<(Seq<char>, Item)>, key: Seq<char>, value: Item)
    requires
        get(entries, key) is None,
    ensures
        without(put(entries, key, value), key) == entries,
    decreases entries.len(),
{
    let result = put(entries, key, value);
    if entries.len() == 0 {
        assert(result.drop_last() =~= entries);
    } else if key_before(entries.last().0, key) {
        assert(result.drop_last() =~= entries);
    } else {
        lemma_without_put(entries.drop_last(), key, value);
        assert(result.drop_last() =~= put(entries.drop_last(), key, value));
        assert(entries.drop_last().push(entries.last()) =~= entries);
        assert(result.last() == entries.last());
        assert(without(result, key) == without(result.drop_last(), key).push(result.last()));
    }
}

/// Taking out the entry that `get` finds removes the last entry under the
/// key.
pub proof fn lemma_without_at(entries: Seq<(Seq<char>, Item)>, key: Seq<char>, i: int)
    requires
        0 <= i < entries.len(),
        entries[i].0 == key,
        forall|j: int| i < j < entries.len() ==> (#[trigger] entries[j]).0 != key,
    ensures
        without(entries, key) == entries.remove(i),
    decreases entries.len(),
{
    if i == entries.len() - 1 {
        assert(entries.drop_last() =~= entries.remove(i));
    } else {
        lemma_without_at(entries.drop_last(), key, i);
        assert(entries.drop_last().remove(i).push(entries.last()) =~= entries.remove(i));
    }
}

/// What stands under one key is not touched by taking out another.
pub proof fn lemma_get_without(entries: Seq<(Seq<char>, Item)>, key: Seq<char>, other: Seq<char>)
    requires
        key != other,
    ensures
        get(without(entries, key), other) == get(entries, other),
    decreases entries.len(),
{
    if entries.len() > 0 && entries.last().0 != key {
        lemma_get_without(entries.drop_last(), key, other);
        assert(without(entries, key).drop_last() =~= without(entries.drop_last(), key));
    }
}

} // verus!
