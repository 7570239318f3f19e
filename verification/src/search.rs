//! Finding the first or the last element of a sequence that has a given
//! property.

use vstd::prelude::*;

verus! {

/// The position of the first element of `s` that satisfies `p`, or the
/// length of `s` where none does.
pub open spec fn first_index<A>(s: Seq<A>, p: spec_fn(A) -> bool) -> int
    decreases s.len(),
{
    if s.len() == 0 {
        0
    } else if p(s[0]) {
        0
    } else {
        1 + first_index(s.drop_first(), p)
    }
}

/// `first_index` finds an element that satisfies `p`, and there is none
/// before it.
pub proof fn lemma_first_index<A>(s: Seq<A>, p: spec_fn(A) -> bool)
    ensures
        0 <= first_index(s, p) <= s.len(),
        first_index(s, p) < s.len() ==> p(s[first_index(s, p)]),
        forall|j: int| 0 <= j < first_index(s, p) ==> !p(#[trigger] s[j]),
    decreases s.len(),
{
    if s.len() > 0 && !p(s[0]) {
        let rest = s.drop_first();
        lemma_first_index(rest, p);
        assert forall|j: int| 0 <= j < first_index(s, p) implies !p(#[trigger] s[j]) by {
            if j > 0 {
                assert(s[j] == rest[j - 1]);
            }
        }
    }
}

/// A position before which nothing satisfies `p`, and which satisfies `p`
/// or is the end, is the one that `first_index` finds.
pub proof fn lemma_first_index_is<A>(s: Seq<A>, p: spec_fn(A) -> bool, i: int)
    requires
        0 <= i <= s.len(),
        i < s.len() ==> p(s[i]),
        forall|j: int| 0 <= j < i ==> !p(#[trigger] s[j]),
    ensures
        first_index(s, p) == i,
    decreases s.len(),
{
    if s.len() > 0 && i > 0 {
        let rest = s.drop_first();
        assert(!p(s[0]));
        assert forall|j: int| 0 <= j < i - 1 implies !p(#[trigger] rest[j]) by {
            assert(rest[j] == s[j + 1]);
        }
        lemma_first_index_is(rest, p, i - 1);
    }
}

/// Holds of the character `c` and of no other.
pub open spec fn is_char(c: char) -> spec_fn(char) -> bool {
    |x: char| x == c
}

/// Whether `c` occurs in `s`.
pub open spec fn has_char(s: Seq<char>, c: char) -> bool {
    exists|i: int| 0 <= i < s.len() && s[i] == c
}

/// The position of the first `c` in `s`, or the length of `s`.
pub fn find_char(s: &[char], c: char) -> (i: usize)
    ensures
        i == first_index(s@, is_char(c)),
        i <= s@.len(),
        i < s@.len() ==> s@[i as int] == c,
        forall|j: int| 0 <= j < i ==> s@[j] != c,
{
    let mut i: usize = 0;
    while i < s.len()
        invariant
            i <= s.len(),
            forall|j: int| 0 <= j < i ==> s@[j] != c,
        decreases s.len() - i,
    {
        if s[i] == c {
            proof {
                lemma_first_index_is(s@, is_char(c), i as int);
            }
            return i;
        }
        i += 1;
    }
    proof {
        lemma_first_index_is(s@, is_char(c), i as int);
    }
    i
}

/// In a text that has `c` right after a part without `c`, the first `c` is
/// the one after that part.
pub proof fn lemma_first_char_after(before: Seq<char>, c: char, after: Seq<char>)
    requires
        !has_char(before, c),
    ensures
        first_index(before + seq![c] + after, is_char(c)) == before.len(),
{
    let s = before + seq![c] + after;
    assert(s[before.len() as int] == c);
    assert forall|j: int| 0 <= j < before.len() implies !is_char(c)(#[trigger] s[j]) by {
        assert(s[j] == before[j]);
    }
    lemma_first_index_is(s, is_char(c), before.len() as int);
}

/// The parts of `s` that the separator `c` divides it into, in order. A
/// text without `c` is one part; two separators in a row have an empty part
/// between them.
pub open spec fn split(s: Seq<char>, c: char) -> Seq<Seq<char>>
    decreases s.len(),
{
    if s.len() == 0 {
        seq![Seq::empty()]
    } else {
        let before = split(s.drop_last(), c);
        if s.last() == c {
            before.push(Seq::empty())
        } else {
            before.drop_last().push(before.last().push(s.last()))
        }
    }
}

/// A text has at least one part.
pub proof fn lemma_split_len(s: Seq<char>, c: char)
    ensures
        split(s, c).len() >= 1,
    decreases s.len(),
{
    if s.len() > 0 {
        lemma_split_len(s.drop_last(), c);
    }
}

/// Text without a separator, put after `a`, lengthens the last part of `a`.
pub proof fn lemma_split_extend(a: Seq<char>, b: Seq<char>, c: char)
    requires
        !has_char(b, c),
    ensures
        split(a, c).len() >= 1,
        split(a + b, c) == split(a, c).drop_last().push(split(a, c).last() + b),
    decreases b.len(),
{
    lemma_split_len(a, c);
    let parts = split(a, c);
    if b.len() == 0 {
        assert(a + b =~= a);
        assert(parts.last() + b =~= parts.last());
        assert(parts.drop_last().push(parts.last()) =~= parts);
    } else {
        let shorter = b.drop_last();
        assert(!has_char(shorter, c)) by {
            if has_char(shorter, c) {
                let i = choose|i: int| 0 <= i < shorter.len() && shorter[i] == c;
                assert(b[i] == c);
            }
        }
        lemma_split_extend(a, shorter, c);
        assert((a + b).drop_last() =~= a + shorter);
        assert(b[b.len() - 1] != c);
        assert((a + b).last() == b.last());
        let mid = split(a + shorter, c);
        assert(mid.last() == parts.last() + shorter);
        assert(mid.drop_last() =~= parts.drop_last());
        assert((parts.last() + shorter).push(b.last()) =~= parts.last() + b);
    }
}

/// A text without a separator is its own single part.
pub proof fn lemma_split_plain(s: Seq<char>, c: char)
    requires
        !has_char(s, c),
    ensures
        split(s, c) == seq![s],
{
    let empty = Seq::<char>::empty();
    lemma_split_extend(empty, s, c);
    assert(empty + s =~= s);
    assert(split(empty, c) =~= seq![empty]);
    assert(split(empty, c).drop_last().push(empty + s) =~= seq![s]);
}

/// A separator and then text without a separator, put after `a`, add one
/// part to the parts of `a`.
pub proof fn lemma_split_add(a: Seq<char>, b: Seq<char>, c: char)
    requires
        !has_char(b, c),
    ensures
        split(a + seq![c] + b, c) == split(a, c).push(b),
{
    let with_sep = a + seq![c];
    assert(with_sep.drop_last() =~= a);
    assert(with_sep.last() == c);
    assert(split(with_sep, c) == split(a, c).push(Seq::empty()));
    lemma_split_extend(with_sep, b, c);
    assert(Seq::<char>::empty() + b =~= b);
    assert(split(a, c).push(Seq::empty()).drop_last() =~= split(a, c));
}

/// Where the parts of `s` lie in it: for each part, the positions of its
/// first character and of the one after its last.
pub fn split_ranges(s: &[char], c: char) -> (ranges: Vec<(usize, usize)>)
    ensures
        ranges@.len() == split(s@, c).len(),
        forall|k: int|
            0 <= k < ranges@.len() ==> {
                &&& (#[trigger] ranges@[k]).0 <= ranges@[k].1 <= s@.len()
                &&& s@.subrange(ranges@[k].0 as int, ranges@[k].1 as int) == split(s@, c)[k]
            },
{
    let mut ranges: Vec<(usize, usize)> = Vec::new();
    let mut start: usize = 0;
    let mut i: usize = 0;
    proof {
        assert(s@.take(0) =~= Seq::<char>::empty());
        assert(s@.subrange(0, 0) =~= Seq::<char>::empty());
    }
    while i < s.len()
        invariant
            start <= i <= s.len(),
            ranges@.len() + 1 == split(s@.take(i as int), c).len(),
            split(s@.take(i as int), c).last() == s@.subrange(start as int, i as int),
            forall|k: int|
                0 <= k < ranges@.len() ==> {
                    &&& (#[trigger] ranges@[k]).0 <= ranges@[k].1 <= s@.len()
                    &&& s@.subrange(ranges@[k].0 as int, ranges@[k].1 as int) == split(
                        s@.take(i as int),
                        c,
                    )[k]
                },
        decreases s.len() - i,
    {
        proof {
            assert(s@.take(i + 1).drop_last() =~= s@.take(i as int));
            assert(s@.take(i + 1).last() == s@[i as int]);
        }
        if s[i] == c {
            ranges.push((start, i));
            start = i + 1;
            proof {
                assert(s@.subrange(start as int, start as int) =~= Seq::<char>::empty());
            }
        } else {
            proof {
                assert(s@.subrange(start as int, i as int).push(s@[i as int]) =~= s@.subrange(
                    start as int,
                    i + 1,
                ));
            }
        }
        i += 1;
    }
    proof {
        assert(s@.take(i as int) =~= s@);
    }
    ranges.push((start, i));
    ranges
}

/// Every character of `s` but the separator lies in one of the parts.
pub proof fn lemma_split_covers(s: Seq<char>, c: char, i: int)
    requires
        0 <= i < s.len(),
        s[i] != c,
    ensures
        exists|k: int, j: int|
            0 <= k < split(s, c).len() && 0 <= j < split(s, c)[k].len() && #[trigger] split(
                s,
                c,
            )[k][j] == s[i],
    decreases s.len(),
{
    let parts = split(s, c);
    let before = split(s.drop_last(), c);
    lemma_split_len(s.drop_last(), c);
    if i == s.len() - 1 {
        let k = parts.len() - 1;
        let j = parts[k].len() - 1;
        assert(parts[k][j] == s[i]);
    } else {
        lemma_split_covers(s.drop_last(), c, i);
        let (k, j) = choose|k: int, j: int|
            0 <= k < before.len() && 0 <= j < before[k].len() && #[trigger] before[k][j]
                == s.drop_last()[i];
        if s.last() == c {
            assert(parts[k][j] == s[i]);
        } else {
            if k < before.len() - 1 {
                assert(parts[k] == before[k]);
            } else {
                assert(parts[k] == before.last().push(s.last()));
            }
            assert(parts[k][j] == s[i]);
        }
    }
}

} // verus!
