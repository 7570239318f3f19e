//! Numbers as text: decimal for ports and IPv4 octets, hexadecimal for the
//! groups of an IPv6 address.

use vstd::prelude::*;
use vstd::slice::slice_subrange;
use crate::search::{first_index, lemma_first_index, lemma_first_index_is};

verus! {

/// Whether `c` is one of `0` to `9`.
pub open spec fn is_digit(c: char) -> bool {
    '0' <= c && c <= '9'
}

/// The number that a decimal digit stands for; 0 for any other character.
pub open spec fn digit_value(c: char) -> nat {
    if is_digit(c) {
        (c as u32 - 48) as nat
    } else {
        0
    }
}

/// The decimal digit for a number below ten.
pub open spec fn digit_char(d: nat) -> char {
    (d + 48) as char
}

/// Whether `s` consists of decimal digits only.
pub open spec fn all_digits(s: Seq<char>) -> bool {
    forall|i: int| 0 <= i < s.len() ==> is_digit(#[trigger] s[i])
}

/// The number that a text of decimal digits stands for, most significant
/// digit first.
pub open spec fn decimal_value(s: Seq<char>) -> nat
    decreases s.len(),
{
    if s.len() == 0 {
        0
    } else {
        decimal_value(s.drop_last()) * 10 + digit_value(s.last())
    }
}

/// The number that `s` stands for, where `s` is a decimal numeral: one
/// digit or more, and nothing else.
pub open spec fn decimal_of(s: Seq<char>) -> Option<nat> {
    if s.len() > 0 && all_digits(s) {
        Some(decimal_value(s))
    } else {
        None
    }
}

/// The decimal numeral of `n`, without leading zeros.
pub open spec fn decimal_text(n: nat) -> Seq<char>
    decreases n,
{
    if n < 10 {
        seq![digit_char(n)]
    } else {
        decimal_text(n / 10).push(digit_char(n % 10))
    }
}

/// Whether `c` is a hexadecimal digit, in either case.
pub open spec fn is_hex_digit(c: char) -> bool {
    is_digit(c) || ('a' <= c && c <= 'f') || ('A' <= c && c <= 'F')
}

/// The number that a hexadecimal digit stands for; 0 for any other
/// character.
pub open spec fn hex_digit_value(c: char) -> nat {
    if is_digit(c) {
        (c as u32 - 48) as nat
    } else if 'a' <= c && c <= 'f' {
        (c as u32 - 87) as nat
    } else if 'A' <= c && c <= 'F' {
        (c as u32 - 55) as nat
    } else {
        0
    }
}

/// The lowercase hexadecimal digit for a number below sixteen.
pub open spec fn hex_char(d: nat) -> char {
    if d < 10 {
        (d + 48) as char
    } else {
        (d + 87) as char
    }
}

/// Whether `s` consists of hexadecimal digits only.
pub open spec fn all_hex_digits(s: Seq<char>) -> bool {
    forall|i: int| 0 <= i < s.len() ==> is_hex_digit(#[trigger] s[i])
}

/// The number that a text of hexadecimal digits stands for, most
/// significant digit first.
pub open spec fn hex_value(s: Seq<char>) -> nat
    decreases s.len(),
{
    if s.len() == 0 {
        0
    } else {
        hex_value(s.drop_last()) * 16 + hex_digit_value(s.last())
    }
}

/// The group that `s` stands for, where `s` is one to four hexadecimal
/// digits.
pub open spec fn hex_group_of(s: Seq<char>) -> Option<u16> {
    if 1 <= s.len() <= 4 && all_hex_digits(s) {
        Some(hex_value(s) as u16)
    } else {
        None
    }
}

/// The lowercase hexadecimal numeral of `n`, without leading zeros.
pub open spec fn hex_text(n: nat) -> Seq<char>
    decreases n,
{
    if n < 16 {
        seq![hex_char(n)]
    } else {
        hex_text(n / 16).push(hex_char(n % 16))
    }
}

/// A decimal numeral never stands for less than one of its beginnings.
pub proof fn lemma_decimal_prefix(s: Seq<char>, k: int)
    requires
        0 <= k <= s.len(),
    ensures
        decimal_value(s.take(k)) <= decimal_value(s),
    decreases s.len(),
{
    if k < s.len() {
        lemma_decimal_prefix(s.drop_last(), k);
        assert(s.drop_last().take(k) =~= s.take(k));
    } else {
        assert(s.take(k) =~= s);
    }
}

/// The decimal numeral of `n` consists of digits, stands for `n`, and
/// starts with `0` only where `n` is 0.
pub proof fn lemma_decimal_text(n: nat)
    ensures
        decimal_text(n).len() >= 1,
        all_digits(decimal_text(n)),
        decimal_value(decimal_text(n)) == n,
        decimal_of(decimal_text(n)) == Some(n),
        n > 0 ==> decimal_text(n)[0] != '0',
        n < 10 ==> decimal_text(n).len() == 1,
        n < 100 ==> decimal_text(n).len() <= 2,
        n < 1000 ==> decimal_text(n).len() <= 3,
        n < 10000 ==> decimal_text(n).len() <= 4,
        n < 100000 ==> decimal_text(n).len() <= 5,
    decreases n,
{
    if n < 10 {
        let s = decimal_text(n);
        assert(s.drop_last() =~= Seq::<char>::empty());
        assert(decimal_value(s.drop_last()) == 0);
    } else {
        lemma_decimal_text(n / 10);
        let s = decimal_text(n);
        assert(s.drop_last() =~= decimal_text(n / 10));
        assert(s[0] == decimal_text(n / 10)[0]);
    }
}

/// The hexadecimal numeral of a group consists of one to four lowercase
/// hexadecimal digits and stands for the group.
pub proof fn lemma_hex_text(n: nat)
    requires
        n <= 0xffff,
    ensures
        1 <= hex_text(n).len() <= 4,
        all_hex_digits(hex_text(n)),
        hex_value(hex_text(n)) == n,
        hex_group_of(hex_text(n)) == Some(n as u16),
        forall|i: int| 0 <= i < hex_text(n).len() ==> (#[trigger] hex_text(n)[i]) != ':',
{
    lemma_hex_text_rec(n);
}

proof fn lemma_hex_text_rec(n: nat)
    ensures
        hex_text(n).len() >= 1,
        all_hex_digits(hex_text(n)),
        hex_value(hex_text(n)) == n,
        forall|i: int| 0 <= i < hex_text(n).len() ==> (#[trigger] hex_text(n)[i]) != ':',
        n < 0x10 ==> hex_text(n).len() == 1,
        n < 0x100 ==> hex_text(n).len() <= 2,
        n < 0x1000 ==> hex_text(n).len() <= 3,
        n < 0x10000 ==> hex_text(n).len() <= 4,
    decreases n,
{
    if n < 16 {
        let s = hex_text(n);
        assert(s.drop_last() =~= Seq::<char>::empty());
        assert(hex_value(s.drop_last()) == 0);
    } else {
        lemma_hex_text_rec(n / 16);
        let s = hex_text(n);
        assert(s.drop_last() =~= hex_text(n / 16));
    }
}

/// What is wrong with a text that was to be a number.
#[derive(Debug, Clone, Copy, PartialEq, Eq)]
pub enum NumeralFault {
    /// The text is empty.
    Empty,
    /// A character is no digit.
    InvalidDigit,
    /// The digits stand for more than the number may be.
    TooLarge,
}

/// Holds of every character that is no decimal digit.
pub open spec fn not_digit() -> spec_fn(char) -> bool {
    |c: char| !is_digit(c)
}

/// The digits of a numeral that a plus sign may precede: the text without
/// such a sign. A plus sign alone is left as it is.
pub open spec fn unsigned_part(s: Seq<char>) -> Seq<char> {
    if s.len() > 1 && s[0] == '+' {
        s.skip(1)
    } else {
        s
    }
}

/// What is wrong with `s`, which is not a numeral that stands for at most
/// `max`, as a reader finds it who goes from left to right: nothing to
/// read; or digits that stand for too much already; or else a character
/// that is no digit.
pub open spec fn numeral_fault(s: Seq<char>, max: nat) -> NumeralFault {
    let digits = unsigned_part(s);
    let stop = first_index(digits, not_digit());
    if s.len() == 0 {
        NumeralFault::Empty
    } else if exists|j: int| 0 <= j <= stop && decimal_value(#[trigger] digits.take(j)) > max {
        NumeralFault::TooLarge
    } else {
        NumeralFault::InvalidDigit
    }
}

/// Finds what is wrong with `s` as a numeral that stands for at most
/// `max`.
pub fn find_fault(s: &[char], max: u32) -> (fault: NumeralFault)
    ensures
        fault == numeral_fault(s@, max as nat),
{
    if s.len() == 0 {
        return NumeralFault::Empty;
    }
    let digits = if s.len() > 1 && s[0] == '+' {
        slice_subrange(s, 1, s.len())
    } else {
        s
    };
    assert(digits@ =~= unsigned_part(s@));
    let ghost stop = first_index(digits@, not_digit());
    proof {
        lemma_first_index(digits@, not_digit());
        assert(decimal_value(digits@.take(0)) == 0);
    }
    let mut acc: u64 = 0;
    let mut i: usize = 0;
    while i < digits.len()
        invariant
            i <= digits.len(),
            i <= stop,
            s@.len() > 0,
            digits@ == unsigned_part(s@),
            stop == first_index(digits@, not_digit()),
            acc <= max,
            acc == decimal_value(digits@.take(i as int)),
            forall|j: int| 0 <= j <= i ==> decimal_value(#[trigger] digits@.take(j)) <= max,
        decreases digits.len() - i,
    {
        let c = digits[i];
        if !('0' <= c && c <= '9') {
            proof {
                assert(not_digit()(digits@[i as int]));
                lemma_first_index(digits@, not_digit());
                lemma_first_index_is(digits@, not_digit(), i as int);
            }
            return NumeralFault::InvalidDigit;
        }
        let d = (c as u32 - 48) as u64;
        proof {
            lemma_first_index(digits@, not_digit());
            assert(!not_digit()(digits@[i as int]));
            assert(stop != i);
            assert(digits@.take(i + 1).drop_last() =~= digits@.take(i as int));
        }
        if acc * 10 + d > max as u64 {
            assert(decimal_value(digits@.take(i + 1)) > max);
            return NumeralFault::TooLarge;
        }
        acc = acc * 10 + d;
        i += 1;
    }
    NumeralFault::InvalidDigit
}

/// Reads a decimal numeral that stands for at most `max`.
pub fn parse_decimal(s: &[char], max: u32) -> (r: Option<u32>)
    ensures
        r == match decimal_of(s@) {
            Some(n) => if n <= max {
                Some(n as u32)
            } else {
                None
            },
            None => None,
        },
{
    if s.len() == 0 {
        return None;
    }
    let mut acc: u64 = 0;
    let mut i: usize = 0;
    while i < s.len()
        invariant
            i <= s.len(),
            acc <= max,
            acc == decimal_value(s@.take(i as int)),
            all_digits(s@.take(i as int)),
        decreases s.len() - i,
    {
        let c = s[i];
        if !('0' <= c && c <= '9') {
            return None;
        }
        let d = (c as u32 - 48) as u64;
        proof {
            assert(s@.take(i + 1).drop_last() =~= s@.take(i as int));
            lemma_decimal_prefix(s@, i + 1);
        }
        if acc * 10 + d > max as u64 {
            return None;
        }
        acc = acc * 10 + d;
        i += 1;
    }
    proof {
        assert(s@.take(i as int) =~= s@);
    }
    Some(acc as u32)
}

/// Appends the decimal numeral of `n` to `out`.
pub fn push_decimal(out: &mut Vec<char>, n: u32)
    ensures
        final(out)@ == old(out)@ + decimal_text(n as nat),
    decreases n,
{
    if n >= 10 {
        push_decimal(out, n / 10);
    }
    let d = (n % 10) as u8;
    out.push((d + 48) as char);
    proof {
        if n >= 10 {
            assert(out@ =~= old(out)@ + decimal_text(n as nat));
        } else {
            assert(out@ =~= old(out)@ + decimal_text(n as nat));
        }
    }
}

/// Reads a group of one to four hexadecimal digits.
pub fn parse_hex_group(s: &[char]) -> (r: Option<u16>)
    ensures
        r == hex_group_of(s@),
{
    if s.len() == 0 || s.len() > 4 {
        return None;
    }
    let mut acc: u32 = 0;
    let mut i: usize = 0;
    while i < s.len()
        invariant
            i <= s.len() <= 4,
            acc == hex_value(s@.take(i as int)),
            all_hex_digits(s@.take(i as int)),
            i == 0 ==> acc == 0,
            i == 1 ==> acc < 0x10,
            i == 2 ==> acc < 0x100,
            i == 3 ==> acc < 0x1000,
            i == 4 ==> acc < 0x10000,
        decreases s.len() - i,
    {
        let c = s[i];
        let d: u32 = if '0' <= c && c <= '9' {
            c as u32 - 48
        } else if 'a' <= c && c <= 'f' {
            c as u32 - 87
        } else if 'A' <= c && c <= 'F' {
            c as u32 - 55
        } else {
            return None;
        };
        proof {
            assert(s@.take(i + 1).drop_last() =~= s@.take(i as int));
        }
        acc = acc * 16 + d;
        i += 1;
    }
    proof {
        assert(s@.take(i as int) =~= s@);
    }
    Some(acc as u16)
}

/// Appends the lowercase hexadecimal numeral of `n` to `out`.
pub fn push_hex(out: &mut Vec<char>, n: u16)
    ensures
        final(out)@ == old(out)@ + hex_text(n as nat),
    decreases n,
{
    if n >= 16 {
        push_hex(out, n / 16);
    }
    let d = (n % 16) as u8;
    if d < 10 {
        out.push((d + 48) as char);
    } else {
        out.push((d + 87) as char);
    }
    proof {
        assert(out@ =~= old(out)@ + hex_text(n as nat));
    }
}

} // verus!
