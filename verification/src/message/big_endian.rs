//! Numbers as bytes, most significant byte first.

use vstd::prelude::*;

verus! {

/// The `width` low bytes of `n`, most significant byte first.
pub open spec fn be_bytes(n: nat, width: nat) -> Seq<u8>
    decreases width,
{
    if width == 0 {
        Seq::empty()
    } else {
        be_bytes(n / 256, (width - 1) as nat).push((n % 256) as u8)
    }
}

/// The number that bytes stand for, most significant byte first.
pub open spec fn be_value(bytes: Seq<u8>) -> nat
    decreases bytes.len(),
{
    if bytes.len() == 0 {
        0
    } else {
        be_value(bytes.drop_last()) * 256 + bytes.last() as nat
    }
}

/// The number of values that `width` bytes can tell apart.
pub open spec fn limit(width: nat) -> nat
    decreases width,
{
    if width == 0 {
        1
    } else {
        256 * limit((width - 1) as nat)
    }
}

/// The limits of one, two, four and eight bytes.
pub proof fn lemma_limits()
    ensures
        limit(0) == 1,
        limit(1) == 0x100,
        limit(2) == 0x1_0000,
        limit(3) == 0x100_0000,
        limit(4) == 0x1_0000_0000,
        limit(5) == 0x100_0000_0000,
        limit(6) == 0x1_0000_0000_0000,
        limit(7) == 0x100_0000_0000_0000,
        limit(8) == 0x1_0000_0000_0000_0000,
{
    reveal_with_fuel(limit, 9);
}

/// The bytes of a number are as many as were asked for and stand for the
/// number, where it is below the limit of that many bytes.
pub proof fn lemma_be_bytes(n: nat, width: nat)
    ensures
        be_bytes(n, width).len() == width,
        n < limit(width) ==> be_value(be_bytes(n, width)) == n,
    decreases width,
{
    if width > 0 {
        lemma_be_bytes(n / 256, (width - 1) as nat);
        assert(be_bytes(n, width).drop_last() =~= be_bytes(n / 256, (width - 1) as nat));
    }
}

/// Bytes stand for a number below the limit of their count.
pub proof fn lemma_be_value(bytes: Seq<u8>)
    ensures
        be_value(bytes) < limit(bytes.len()),
    decreases bytes.len(),
{
    if bytes.len() > 0 {
        lemma_be_value(bytes.drop_last());
    }
}

/// Appends the `width` low bytes of `n`, most significant byte first.
pub(crate) fn push_be(out: &mut Vec<u8>, n: u64, width: usize)
    requires
        1 <= width <= 8,
    ensures
        final(out)@ == old(out)@ + be_bytes(n as nat, width as nat),
    decreases width,
{
    if width > 1 {
        push_be(out, n / 256, width - 1);
    }
    out.push((n % 256) as u8);
    proof {
        assert(be_bytes((n / 256) as nat, 0) =~= Seq::<u8>::empty());
        assert(out@ =~= old(out)@ + be_bytes(n as nat, width as nat));
    }
}

/// The number that `width` bytes from `at` on stand for.
pub(crate) fn read_be(bytes: &[u8], at: usize, width: usize) -> (n: u64)
    requires
        width <= 8,
        at + width <= bytes@.len(),
    ensures
        n == be_value(bytes@.subrange(at as int, at + width)),
        n < limit(width as nat),
{
    let mut n: u64 = 0;
    let mut i: usize = 0;
    let total = bytes.len();
    proof {
        lemma_limits();
        assert(bytes@.subrange(at as int, at as int) =~= Seq::<u8>::empty());
    }
    while i < width
        invariant
            i <= width <= 8,
            total == bytes@.len(),
            at + width <= total,
            n == be_value(bytes@.subrange(at as int, at + i)),
            n < limit(i as nat),
        decreases width - i,
    {
        proof {
            lemma_limits();
            let longer = bytes@.subrange(at as int, at + i + 1);
            assert(longer.drop_last() =~= bytes@.subrange(at as int, at + i));
            assert(longer.last() == bytes@[at + i]);
            lemma_be_value(longer);
        }
        n = n * 256 + bytes[at + i] as u64;
        i += 1;
    }
    n
}

} // verus!
