//! The text form of an IPv6 address: eight groups of hexadecimal digits
//! with colons between them, where two colons in a row stand for a run of
//! zero groups and a dotted quad may stand for the last two groups.

use vstd::prelude::*;
use vstd::slice::slice_subrange;
use crate::digits::{hex_group_of, hex_text, is_hex_digit, parse_hex_group, push_hex};
use crate::net::ipv4::{ipv4_of, ipv4_text, parse_ipv4, push_ipv4};
use crate::search::{find_char, has_char, split, split_ranges};

verus! {

/// Whether `c` can stand in the text of an address: a hexadecimal digit, a
/// colon or a dot.
pub open spec fn is_address_char(c: char) -> bool {
    is_hex_digit(c) || c == ':' || c == '.'
}

/// Whether `s` holds nothing but what can stand in the text of an address.
pub open spec fn is_address_text(s: Seq<char>) -> bool {
    forall|i: int| 0 <= i < s.len() ==> is_address_char(#[trigger] s[i])
}

/// The group that two bytes of an IPv6 address form, high byte first.
pub open spec fn pair(high: u8, low: u8) -> u16 {
    (high * 256 + low) as u16
}

/// Whether each of the parts is one to four hexadecimal digits.
pub open spec fn groups_valid(parts: Seq<Seq<char>>) -> bool {
    forall|k: int| 0 <= k < parts.len() ==> hex_group_of(#[trigger] parts[k]) is Some
}

/// The groups that the parts stand for, each read as hexadecimal digits.
pub open spec fn groups_from(parts: Seq<Seq<char>>) -> Seq<u16> {
    Seq::new(parts.len(), |k: int| hex_group_of(parts[k]).unwrap())
}

/// The groups that `s` stands for, where `s` is empty or a series of
/// groups that colons separate. Where `quad` is set the last part may be a
/// dotted quad, which stands for two groups.
pub open spec fn groups_of(s: Seq<char>, quad: bool) -> Option<Seq<u16>> {
    if s.len() == 0 {
        Some(Seq::empty())
    } else {
        let parts = split(s, ':');
        let last = parts.last();
        if quad && has_char(last, '.') {
            match ipv4_of(last) {
                Some(ip) => if groups_valid(parts.drop_last()) {
                    Some(
                        groups_from(parts.drop_last()).push(pair(ip[0], ip[1])).push(
                            pair(ip[2], ip[3]),
                        ),
                    )
                } else {
                    None
                },
                None => None,
            }
        } else if groups_valid(parts) {
            Some(groups_from(parts))
        } else {
            None
        }
    }
}

/// The position of the first two colons in a row, or the length of `s`
/// where there are none.
pub open spec fn gap_position(s: Seq<char>) -> int
    decreases s.len(),
{
    if s.len() < 2 {
        s.len() as int
    } else if s[0] == ':' && s[1] == ':' {
        0
    } else {
        1 + gap_position(s.drop_first())
    }
}

/// A run of `n` groups that are zero.
pub open spec fn zero_groups(n: nat) -> Seq<u16> {
    Seq::new(n, |i: int| 0u16)
}

/// The eight groups that `s` stands for, where `s` is the text of an IPv6
/// address: eight groups, or fewer with two colons in a row, once, in the
/// place of one or more groups that are zero.
pub open spec fn ipv6_groups_of(s: Seq<char>) -> Option<Seq<u16>> {
    let gap = gap_position(s);
    if gap >= s.len() {
        match groups_of(s, true) {
            Some(groups) => if groups.len() == 8 {
                Some(groups)
            } else {
                None
            },
            None => None,
        }
    } else {
        match (groups_of(s.take(gap), false), groups_of(s.skip(gap + 2), true)) {
            (Some(head), Some(tail)) => if head.len() + tail.len() <= 7 {
                Some(head + zero_groups((8 - head.len() - tail.len()) as nat) + tail)
            } else {
                None
            },
            _ => None,
        }
    }
}

/// The bytes of a series of groups, the high byte of each group first.
pub open spec fn groups_to_bytes(groups: Seq<u16>) -> Seq<u8> {
    Seq::new(
        2 * groups.len(),
        |i: int|
            if i % 2 == 0 {
                (groups[i / 2] / 256) as u8
            } else {
                (groups[i / 2] % 256) as u8
            },
    )
}

/// The groups that a series of bytes forms, two bytes to a group.
pub open spec fn bytes_to_groups(ip: Seq<u8>) -> Seq<u16> {
    Seq::new(ip.len() / 2, |i: int| pair(ip[2 * i], ip[2 * i + 1]))
}

/// The sixteen bytes that `s` stands for, where `s` is the text of an IPv6
/// address.
pub open spec fn ipv6_of(s: Seq<char>) -> Option<Seq<u8>> {
    match ipv6_groups_of(s) {
        Some(groups) => Some(groups_to_bytes(groups)),
        None => None,
    }
}

/// The groups in lowercase hexadecimal without leading zeros, with a colon
/// between one and the next.
pub open spec fn groups_text(groups: Seq<u16>) -> Seq<char>
    decreases groups.len(),
{
    if groups.len() == 0 {
        Seq::empty()
    } else if groups.len() == 1 {
        hex_text(groups[0] as nat)
    } else {
        groups_text(groups.drop_last()) + seq![':'] + hex_text(groups.last() as nat)
    }
}

/// The number of groups in a row that are zero, from position `i` on.
pub open spec fn zero_run_at(groups: Seq<u16>, i: int) -> nat
    decreases groups.len() - i,
{
    if 0 <= i < groups.len() && groups[i] == 0 {
        1 + zero_run_at(groups, i + 1)
    } else {
        0
    }
}

/// Where the longest run of zero groups starts and how long it is, among
/// the runs that start before `end`; of two runs of one length the earlier.
pub open spec fn longest_zero_run(groups: Seq<u16>, end: int) -> (int, nat)
    decreases end,
{
    if end <= 0 {
        (0, 0)
    } else {
        let (start, len) = longest_zero_run(groups, end - 1);
        let here = zero_run_at(groups, end - 1);
        if here > len {
            (end - 1, here)
        } else {
            (start, len)
        }
    }
}

/// Whether the groups are those of an IPv4 address mapped into IPv6: five
/// zero groups, then `ffff`, then the address.
pub open spec fn is_mapped(groups: Seq<u16>) -> bool {
    &&& groups.len() == 8
    &&& groups[0] == 0
    &&& groups[1] == 0
    &&& groups[2] == 0
    &&& groups[3] == 0
    &&& groups[4] == 0
    &&& groups[5] == 0xffff
}

/// The text of an IPv6 address of sixteen bytes. A mapped IPv4 address is
/// written as `::ffff:` and its dotted quad. Any other address is written
/// in groups, the longest run of two or more zero groups replaced by two
/// colons.
pub open spec fn ipv6_text(ip: Seq<u8>) -> Seq<char> {
    let groups = bytes_to_groups(ip);
    if is_mapped(groups) {
        seq![':', ':'] + hex_text(0xffff) + seq![':'] + ipv4_text(ip.skip(12))
    } else {
        let (start, len) = longest_zero_run(groups, 8);
        if len < 2 {
            groups_text(groups)
        } else {
            groups_text(groups.take(start)) + seq![':', ':'] + groups_text(
                groups.skip(start + len),
            )
        }
    }
}

/// The first two colons in a row lie within the text, and nowhere before
/// them are there two in a row.
pub proof fn lemma_gap_position(s: Seq<char>)
    ensures
        0 <= gap_position(s) <= s.len(),
        gap_position(s) < s.len() ==> gap_position(s) + 2 <= s.len() && s[gap_position(s)] == ':'
            && s[gap_position(s) + 1] == ':',
        forall|i: int|
            0 <= i < gap_position(s) && i + 1 < s.len() ==> !(#[trigger] s[i] == ':' && s[i + 1]
                == ':'),
    decreases s.len(),
{
    if s.len() >= 2 && !(s[0] == ':' && s[1] == ':') {
        let rest = s.drop_first();
        lemma_gap_position(rest);
        assert forall|i: int| 0 <= i < gap_position(s) && i + 1 < s.len() implies !(
        #[trigger] s[i] == ':' && s[i + 1] == ':') by {
            if i > 0 {
                assert(s[i] == rest[i - 1]);
                assert(s[i + 1] == rest[i]);
            }
        }
    }
}

/// An IPv6 address has eight groups.
pub proof fn lemma_ipv6_groups_len(s: Seq<char>)
    ensures
        ipv6_groups_of(s) matches Some(groups) ==> groups.len() == 8,
{
}

/// The position of the first two colons in a row.
fn find_gap(s: &[char]) -> (gap: usize)
    ensures
        gap == gap_position(s@),
        gap <= s@.len(),
{
    if s.len() < 2 {
        return s.len();
    }
    let mut i: usize = 0;
    proof {
        assert(s@.skip(0) =~= s@);
    }
    while i < s.len() - 1
        invariant
            i <= s.len(),
            s.len() >= 2,
            gap_position(s@) == i + gap_position(s@.skip(i as int)),
        decreases s.len() - i,
    {
        proof {
            assert(s@.skip(i as int).drop_first() =~= s@.skip(i + 1));
            assert(s@.skip(i as int)[0] == s@[i as int]);
            assert(s@.skip(i as int)[1] == s@[i + 1]);
        }
        if s[i] == ':' && s[i + 1] == ':' {
            return i;
        }
        i += 1;
    }
    proof {
        assert(s@.skip(i as int).len() == s@.len() - i);
    }
    s.len()
}

/// Reads a series of groups that colons separate, or an empty text.
fn parse_groups(s: &[char], quad: bool) -> (r: Option<Vec<u16>>)
    ensures
        match r {
            Some(groups) => groups_of(s@, quad) == Some(groups@),
            None => groups_of(s@, quad) is None,
        },
{
    let mut groups: Vec<u16> = Vec::new();
    if s.len() == 0 {
        return Some(groups);
    }
    let ranges = split_ranges(s, ':');
    let n = ranges.len();
    let ghost parts = split(s@, ':');
    let last = slice_subrange(s, ranges[n - 1].0, ranges[n - 1].1);
    let dot = find_char(last, '.');
    let dotted = quad && dot < last.len();
    proof {
        assert(last@ == parts.last());
        assert(dotted == (quad && has_char(parts.last(), '.')));
    }
    let count = if dotted {
        n - 1
    } else {
        n
    };
    let ghost plain = parts.take(count as int);
    let mut k: usize = 0;
    while k < count
        invariant
            k <= count <= n,
            dotted ==> count == n - 1,
            !dotted ==> count == n,
            s@.len() > 0,
            dotted == (quad && has_char(parts.last(), '.')),
            n == ranges@.len(),
            n == parts.len(),
            parts == split(s@, ':'),
            plain == parts.take(count as int),
            forall|j: int|
                0 <= j < ranges@.len() ==> {
                    &&& (#[trigger] ranges@[j]).0 <= ranges@[j].1 <= s@.len()
                    &&& s@.subrange(ranges@[j].0 as int, ranges@[j].1 as int) == parts[j]
                },
            groups_valid(plain.take(k as int)),
            groups@ == groups_from(plain.take(k as int)),
        decreases count - k,
    {
        let part = slice_subrange(s, ranges[k].0, ranges[k].1);
        proof {
            assert(part@ == plain[k as int]);
        }
        match parse_hex_group(part) {
            Some(group) => {
                groups.push(group);
                proof {
                    assert forall|j: int| 0 <= j < k + 1 implies hex_group_of(
                        #[trigger] plain.take(k + 1)[j],
                    ) is Some by {
                        if j < k {
                            assert(plain.take(k + 1)[j] == plain.take(k as int)[j]);
                        }
                    }
                    assert(groups@ =~= groups_from(plain.take(k + 1))) by {
                        assert forall|j: int| 0 <= j < k + 1 implies groups@[j] == groups_from(
                            plain.take(k + 1),
                        )[j] by {
                            if j < k {
                                assert(plain.take(k + 1)[j] == plain.take(k as int)[j]);
                                assert(groups@[j] == groups_from(plain.take(k as int))[j]);
                            }
                        }
                    }
                }
            },
            None => {
                proof {
                    assert(hex_group_of(parts[k as int]) is None);
                    if dotted {
                        assert(parts.drop_last()[k as int] == parts[k as int]);
                    }
                }
                return None;
            },
        }
        k += 1;
    }
    proof {
        assert(plain.take(count as int) =~= plain);
        if dotted {
            assert(plain =~= parts.drop_last());
        } else {
            assert(plain =~= parts);
        }
    }
    if dotted {
        match parse_ipv4(last) {
            Some(ip) => {
                groups.push(ip[0] as u16 * 256 + ip[1] as u16);
                groups.push(ip[2] as u16 * 256 + ip[3] as u16);
                Some(groups)
            },
            None => None,
        }
    } else {
        Some(groups)
    }
}

/// The groups before and after two colons in a row, with the zero groups
/// between them that make eight in all.
fn fill_groups(head: &Vec<u16>, tail: &Vec<u16>) -> (groups: Vec<u16>)
    requires
        head@.len() + tail@.len() <= 7,
    ensures
        groups@ == head@ + zero_groups((8 - head@.len() - tail@.len()) as nat) + tail@,
{
    let mut groups: Vec<u16> = Vec::new();
    let fill = 8 - head.len() - tail.len();
    let mut i: usize = 0;
    while i < head.len()
        invariant
            i <= head.len(),
            groups@ == head@.take(i as int),
        decreases head.len() - i,
    {
        groups.push(head[i]);
        assert(groups@ =~= head@.take(i + 1));
        i += 1;
    }
    assert(head@.take(i as int) =~= head@);
    let mut j: usize = 0;
    while j < fill
        invariant
            j <= fill,
            groups@ == head@ + zero_groups(j as nat),
        decreases fill - j,
    {
        groups.push(0);
        assert(groups@ =~= head@ + zero_groups((j + 1) as nat));
        j += 1;
    }
    let mut k: usize = 0;
    while k < tail.len()
        invariant
            k <= tail.len(),
            groups@ == head@ + zero_groups(fill as nat) + tail@.take(k as int),
        decreases tail.len() - k,
    {
        groups.push(tail[k]);
        assert(groups@ =~= head@ + zero_groups(fill as nat) + tail@.take(k + 1));
        k += 1;
    }
    assert(tail@.take(k as int) =~= tail@);
    groups
}

/// Reads the eight groups of an IPv6 address from its text.
fn parse_ipv6_groups(s: &[char]) -> (r: Option<Vec<u16>>)
    ensures
        match r {
            Some(groups) => ipv6_groups_of(s@) == Some(groups@),
            None => ipv6_groups_of(s@) is None,
        },
{
    let gap = find_gap(s);
    if gap >= s.len() {
        match parse_groups(s, true) {
            Some(groups) => if groups.len() == 8 {
                Some(groups)
            } else {
                None
            },
            None => None,
        }
    } else {
        proof {
            lemma_gap_position(s@);
        }
        let head_text = slice_subrange(s, 0, gap);
        let tail_text = slice_subrange(s, gap + 2, s.len());
        proof {
            assert(head_text@ =~= s@.take(gap as int));
            assert(tail_text@ =~= s@.skip(gap + 2));
        }
        match parse_groups(head_text, false) {
            Some(head) => match parse_groups(tail_text, true) {
                Some(tail) => if head.len() <= 7 && tail.len() <= 7 - head.len() {
                    Some(fill_groups(&head, &tail))
                } else {
                    None
                },
                None => None,
            },
            None => None,
        }
    }
}

/// The sixteen bytes of eight groups.
fn bytes_of_groups(groups: &Vec<u16>) -> (ip: [u8; 16])
    requires
        groups@.len() == 8,
    ensures
        ip@ == groups_to_bytes(groups@),
{
    let ip: [u8; 16] = [
        (groups[0] / 256) as u8,
        (groups[0] % 256) as u8,
        (groups[1] / 256) as u8,
        (groups[1] % 256) as u8,
        (groups[2] / 256) as u8,
        (groups[2] % 256) as u8,
        (groups[3] / 256) as u8,
        (groups[3] % 256) as u8,
        (groups[4] / 256) as u8,
        (groups[4] % 256) as u8,
        (groups[5] / 256) as u8,
        (groups[5] % 256) as u8,
        (groups[6] / 256) as u8,
        (groups[6] % 256) as u8,
        (groups[7] / 256) as u8,
        (groups[7] % 256) as u8,
    ];
    assert(ip@ =~= groups_to_bytes(groups@));
    ip
}

/// Reads the text of an IPv6 address.
pub fn parse_ipv6(s: &[char]) -> (r: Option<[u8; 16]>)
    ensures
        match r {
            Some(ip) => ipv6_of(s@) == Some(ip@),
            None => ipv6_of(s@) is None,
        },
{
    match parse_ipv6_groups(s) {
        Some(groups) => {
            proof {
                lemma_ipv6_groups_len(s@);
            }
            Some(bytes_of_groups(&groups))
        },
        None => None,
    }
}

/// Appends the groups from `from` up to `to`, with colons between them.
fn push_groups(out: &mut Vec<char>, groups: &[u16; 8], from: usize, to: usize)
    requires
        from <= to <= 8,
    ensures
        final(out)@ == old(out)@ + groups_text(groups@.subrange(from as int, to as int)),
{
    let mut i: usize = from;
    proof {
        assert(groups@.subrange(from as int, from as int) =~= Seq::<u16>::empty());
        assert(out@ =~= old(out)@ + groups_text(groups@.subrange(from as int, from as int)));
    }
    while i < to
        invariant
            from <= i <= to <= 8,
            out@ == old(out)@ + groups_text(groups@.subrange(from as int, i as int)),
        decreases to - i,
    {
        let ghost before = groups@.subrange(from as int, i as int);
        let ghost next = groups@.subrange(from as int, i + 1);
        proof {
            assert(next.drop_last() =~= before);
            assert(next.last() == groups@[i as int]);
        }
        if i > from {
            out.push(':');
        }
        push_hex(out, groups[i]);
        proof {
            if i > from {
                assert(out@ =~= old(out)@ + (groups_text(before) + seq![':'] + hex_text(
                    groups@[i as int] as nat,
                )));
            } else {
                assert(before =~= Seq::<u16>::empty());
                assert(out@ =~= old(out)@ + hex_text(groups@[i as int] as nat));
            }
        }
        i += 1;
    }
}

/// The number of groups in a row that are zero, from position `i` on.
fn zero_run(groups: &[u16; 8], i: usize) -> (run: usize)
    requires
        i <= 8,
    ensures
        run == zero_run_at(groups@, i as int),
        i + run <= 8,
{
    let mut j: usize = i;
    while j < 8 && groups[j] == 0
        invariant
            i <= j <= 8,
            zero_run_at(groups@, i as int) == (j - i) + zero_run_at(groups@, j as int),
        decreases 8 - j,
    {
        j += 1;
    }
    j - i
}

/// Appends the text of the IPv6 address `ip` to `out`.
pub fn push_ipv6(out: &mut Vec<char>, ip: &[u8; 16])
    ensures
        final(out)@ == old(out)@ + ipv6_text(ip@),
{
    let groups: [u16; 8] = [
        ip[0] as u16 * 256 + ip[1] as u16,
        ip[2] as u16 * 256 + ip[3] as u16,
        ip[4] as u16 * 256 + ip[5] as u16,
        ip[6] as u16 * 256 + ip[7] as u16,
        ip[8] as u16 * 256 + ip[9] as u16,
        ip[10] as u16 * 256 + ip[11] as u16,
        ip[12] as u16 * 256 + ip[13] as u16,
        ip[14] as u16 * 256 + ip[15] as u16,
    ];
    assert(groups@ =~= bytes_to_groups(ip@));
    if groups[0] == 0 && groups[1] == 0 && groups[2] == 0 && groups[3] == 0 && groups[4] == 0
        && groups[5] == 0xffff {
        let quad: [u8; 4] = [ip[12], ip[13], ip[14], ip[15]];
        assert(quad@ =~= ip@.skip(12));
        out.push(':');
        out.push(':');
        push_hex(out, 0xffff);
        out.push(':');
        push_ipv4(out, &quad);
        assert(out@ =~= old(out)@ + ipv6_text(ip@));
        return;
    }
    let mut start: usize = 0;
    let mut len: usize = 0;
    let mut i: usize = 0;
    while i < 8
        invariant
            i <= 8,
            (start as int, len as nat) == longest_zero_run(groups@, i as int),
            start + len <= 8,
        decreases 8 - i,
    {
        let here = zero_run(&groups, i);
        if here > len {
            start = i;
            len = here;
        }
        i += 1;
    }
    if len < 2 {
        push_groups(out, &groups, 0, 8);
        assert(groups@.subrange(0, 8) =~= groups@);
    } else {
        push_groups(out, &groups, 0, start);
        out.push(':');
        out.push(':');
        push_groups(out, &groups, start + len, 8);
        assert(groups@.subrange(0, start as int) =~= groups@.take(start as int));
        assert(groups@.subrange(start + len, 8) =~= groups@.skip(start + len));
        assert(out@ =~= old(out)@ + ipv6_text(ip@));
    }
}

} // verus!
