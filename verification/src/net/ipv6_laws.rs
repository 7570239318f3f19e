//! Reading the text of an IPv6 address gives back the address it was
//! written from.

use vstd::prelude::*;
use crate::digits::{
    decimal_text, hex_group_of, hex_text, is_hex_digit, lemma_decimal_text, lemma_hex_text,
};
use crate::net::ipv4::{ipv4_text, lemma_ipv4_chars, lemma_ipv4_text};
use crate::net::ipv6::{
    bytes_to_groups, gap_position, groups_from, groups_of, groups_text, groups_to_bytes,
    groups_valid, ipv6_groups_of, ipv6_of, ipv6_text, is_address_char, is_address_text, is_mapped,
    longest_zero_run, pair, zero_groups, zero_run_at,
};
use crate::search::{has_char, lemma_split_add, lemma_split_plain, split};

verus! {

/// Whether no two colons stand in a row in `s`.
pub open spec fn no_gap(s: Seq<char>) -> bool {
    forall|i: int| 0 <= i && i + 1 < s.len() ==> !(#[trigger] s[i] == ':' && s[i + 1] == ':')
}

/// Whether `s` holds nothing but hexadecimal digits and colons.
pub open spec fn is_groups_text(s: Seq<char>) -> bool {
    forall|i: int| 0 <= i < s.len() ==> is_hex_digit(#[trigger] s[i]) || s[i] == ':'
}

/// The numerals of the groups, one for each.
pub open spec fn group_texts(groups: Seq<u16>) -> Seq<Seq<char>> {
    Seq::new(groups.len(), |k: int| hex_text(groups[k] as nat))
}

/// The text of one or more groups divides at its colons into the numerals
/// of the groups; it neither starts nor ends with a colon and has no two
/// colons in a row.
pub proof fn lemma_groups_text(groups: Seq<u16>)
    requires
        groups.len() >= 1,
    ensures
        split(groups_text(groups), ':') == group_texts(groups),
        groups_text(groups).len() >= 1,
        groups_text(groups)[0] != ':',
        groups_text(groups).last() != ':',
        no_gap(groups_text(groups)),
        is_groups_text(groups_text(groups)),
    decreases groups.len(),
{
    let text = groups_text(groups);
    let numeral = hex_text(groups.last() as nat);
    lemma_hex_text(groups.last() as nat);
    assert(!has_char(numeral, ':'));
    if groups.len() == 1 {
        lemma_split_plain(numeral, ':');
        assert(split(text, ':') =~= group_texts(groups));
    } else {
        let before = groups_text(groups.drop_last());
        lemma_groups_text(groups.drop_last());
        lemma_split_add(before, numeral, ':');
        assert(split(text, ':') =~= group_texts(groups)) by {
            assert(group_texts(groups.drop_last()).push(numeral) =~= group_texts(groups));
        }
        assert(text[0] == before[0]);
        assert(text.last() == numeral.last());
        assert forall|i: int| 0 <= i && i + 1 < text.len() implies !(#[trigger] text[i] == ':'
            && text[i + 1] == ':') by {
            if i + 1 < before.len() {
                assert(text[i] == before[i]);
                assert(text[i + 1] == before[i + 1]);
            } else if i + 1 == before.len() {
                assert(text[i] == before.last());
            } else if i == before.len() {
                assert(text[i + 1] == numeral[0]);
            } else {
                assert(text[i] == numeral[i - before.len() - 1]);
            }
        }
        assert forall|i: int| 0 <= i < text.len() implies is_hex_digit(#[trigger] text[i])
            || text[i] == ':' by {
            if i < before.len() {
                assert(text[i] == before[i]);
            } else if i > before.len() {
                assert(text[i] == numeral[i - before.len() - 1]);
            }
        }
    }
}

/// The text of a series of groups stands for those groups.
pub proof fn lemma_groups_of_text(groups: Seq<u16>, quad: bool)
    ensures
        groups_of(groups_text(groups), quad) == Some(groups),
{
    if groups.len() == 0 {
        assert(groups =~= Seq::<u16>::empty());
    } else {
        lemma_groups_text(groups);
        let parts = split(groups_text(groups), ':');
        let last = parts.last();
        assert(last == hex_text(groups.last() as nat));
        lemma_hex_text(groups.last() as nat);
        assert(!has_char(last, '.'));
        assert forall|k: int| 0 <= k < parts.len() implies hex_group_of(#[trigger] parts[k])
            == Some(groups[k]) by {
            lemma_hex_text(groups[k] as nat);
        }
        assert(groups_from(parts) =~= groups);
    }
}

/// A text without two colons in a row has no gap position.
pub proof fn lemma_gap_none(s: Seq<char>)
    requires
        no_gap(s),
    ensures
        gap_position(s) == s.len(),
    decreases s.len(),
{
    if s.len() >= 2 {
        let rest = s.drop_first();
        assert(!(s[0] == ':' && s[0int + 1] == ':'));
        assert forall|i: int| 0 <= i && i + 1 < rest.len() implies !(#[trigger] rest[i] == ':'
            && rest[i + 1] == ':') by {
            assert(rest[i] == s[i + 1]);
            assert(rest[i + 1] == s[i + 1 + 1]);
            assert(!(s[i + 1] == ':' && s[i + 1 + 1] == ':'));
        }
        lemma_gap_none(rest);
    }
}

/// Two colons put after a text that has no two colons in a row and does
/// not end with one are the first two in a row.
pub proof fn lemma_gap_after(before: Seq<char>, after: Seq<char>)
    requires
        no_gap(before),
        before.len() == 0 || before.last() != ':',
    ensures
        gap_position(before + seq![':', ':'] + after) == before.len(),
    decreases before.len(),
{
    let s = before + seq![':', ':'] + after;
    if before.len() == 0 {
        assert(s[0] == ':' && s[1] == ':');
    } else {
        assert(s[0] == before[0]);
        if before.len() == 1 {
            assert(before[0] == before.last());
        } else {
            assert(s[1] == before[1]);
            assert(!(before[0] == ':' && before[0int + 1] == ':'));
        }
        let rest = before.drop_first();
        assert(s.drop_first() =~= rest + seq![':', ':'] + after);
        assert forall|i: int| 0 <= i && i + 1 < rest.len() implies !(#[trigger] rest[i] == ':'
            && rest[i + 1] == ':') by {
            assert(rest[i] == before[i + 1]);
            assert(rest[i + 1] == before[i + 1 + 1]);
            assert(!(before[i + 1] == ':' && before[i + 1 + 1] == ':'));
        }
        if rest.len() > 0 {
            assert(rest.last() == before.last());
        }
        lemma_gap_after(rest, after);
    }
}

/// A run of zero groups lies within the groups, and its groups are zero.
pub proof fn lemma_zero_run_at(groups: Seq<u16>, i: int)
    requires
        0 <= i <= groups.len(),
    ensures
        i + zero_run_at(groups, i) <= groups.len(),
        forall|k: int| i <= k < i + zero_run_at(groups, i) ==> #[trigger] groups[k] == 0,
    decreases groups.len() - i,
{
    if i < groups.len() && groups[i] == 0 {
        lemma_zero_run_at(groups, i + 1);
    }
}

/// The longest run of zero groups is a run: it starts before `end` and is
/// as long as the zero groups go on from its start.
pub proof fn lemma_longest_zero_run(groups: Seq<u16>, end: int)
    requires
        0 <= end <= groups.len(),
    ensures
        ({
            let (start, len) = longest_zero_run(groups, end);
            &&& 0 <= start <= groups.len()
            &&& len > 0 ==> start < end && len == zero_run_at(groups, start)
        }),
    decreases end,
{
    if end > 0 {
        lemma_longest_zero_run(groups, end - 1);
    }
}

/// Sixteen bytes are the bytes of the groups they form.
pub proof fn lemma_groups_bytes(ip: Seq<u8>)
    requires
        ip.len() == 16,
    ensures
        bytes_to_groups(ip).len() == 8,
        groups_to_bytes(bytes_to_groups(ip)) == ip,
{
    let groups = bytes_to_groups(ip);
    assert forall|i: int| 0 <= i < 16 implies groups_to_bytes(groups)[i] == ip[i] by {
        let k = i / 2;
        assert(groups[k] == pair(ip[2 * k], ip[2 * k + 1]));
    }
    assert(groups_to_bytes(groups) =~= ip);
}

/// A text with two colons in a row stands for the groups before them, as
/// many zero groups as make eight, and the groups behind them.
proof fn lemma_ipv6_groups_with_gap(
    text: Seq<char>,
    head_text: Seq<char>,
    tail_text: Seq<char>,
    head: Seq<u16>,
    tail: Seq<u16>,
)
    requires
        text == head_text + seq![':', ':'] + tail_text,
        gap_position(text) == head_text.len(),
        groups_of(head_text, false) == Some(head),
        groups_of(tail_text, true) == Some(tail),
        head.len() + tail.len() <= 7,
    ensures
        ipv6_groups_of(text) == Some(
            head + zero_groups((8 - head.len() - tail.len()) as nat) + tail,
        ),
{
    assert(text.take(head_text.len() as int) =~= head_text);
    assert(text.skip(head_text.len() as int + 2) =~= tail_text);
}

/// Two parts of the text of an address with two colons between them are
/// the text of an address.
proof fn lemma_address_text_with_gap(head_text: Seq<char>, tail_text: Seq<char>)
    requires
        is_address_text(head_text),
        is_address_text(tail_text),
    ensures
        is_address_text(head_text + seq![':', ':'] + tail_text),
{
    let text = head_text + seq![':', ':'] + tail_text;
    assert forall|i: int| 0 <= i < text.len() implies is_address_char(#[trigger] text[i]) by {
        if i < head_text.len() {
            assert(text[i] == head_text[i]);
        } else if i >= head_text.len() + 2 {
            assert(text[i] == tail_text[i - head_text.len() - 2]);
        }
    }
}

/// The text of groups is the text of an address.
proof fn lemma_groups_address_text(groups: Seq<u16>)
    ensures
        is_address_text(groups_text(groups)),
{
    if groups.len() > 0 {
        lemma_groups_text(groups);
    }
}

/// The marker of a mapped address and a dotted quad, with a colon between
/// them, stand for the marker group and the two groups of the quad.
proof fn lemma_mapped_tail(quad: Seq<u8>)
    requires
        quad.len() == 4,
    ensures
        groups_of(hex_text(0xffff) + seq![':'] + ipv4_text(quad), true) == Some(
            seq![0xffffu16, pair(quad[0], quad[1]), pair(quad[2], quad[3])],
        ),
        is_address_text(hex_text(0xffff) + seq![':'] + ipv4_text(quad)),
{
    let dotted = ipv4_text(quad);
    let marker = hex_text(0xffff);
    let tail = marker + seq![':'] + dotted;
    lemma_ipv4_text(quad);
    lemma_hex_text(0xffff);
    assert(!has_char(marker, ':'));
    lemma_split_plain(marker, ':');
    lemma_split_add(marker, dotted, ':');
    let parts = split(tail, ':');
    assert(parts =~= seq![marker, dotted]);
    lemma_decimal_text(quad[0] as nat);
    assert(dotted[decimal_text(quad[0] as nat).len() as int] == '.');
    assert(has_char(dotted, '.'));
    assert(parts.drop_last() =~= seq![marker]);
    assert(groups_valid(parts.drop_last()));
    assert(groups_from(parts.drop_last()) =~= seq![0xffffu16]);
    assert(parts.last() == dotted);
    assert(seq![0xffffu16].push(pair(quad[0], quad[1])).push(pair(quad[2], quad[3])) =~= seq![
        0xffffu16,
        pair(quad[0], quad[1]),
        pair(quad[2], quad[3]),
    ]);
    assert forall|i: int| 0 <= i < tail.len() implies is_address_char(#[trigger] tail[i]) by {
        if i < marker.len() {
            assert(tail[i] == marker[i]);
        } else if i > marker.len() {
            assert(tail[i] == dotted[i - marker.len() - 1]);
            lemma_ipv4_chars(quad, i - marker.len() - 1);
        }
    }
}

/// The text of a mapped IPv4 address stands for its groups.
proof fn lemma_ipv6_text_mapped(ip: Seq<u8>)
    requires
        ip.len() == 16,
        is_mapped(bytes_to_groups(ip)),
    ensures
        ipv6_groups_of(ipv6_text(ip)) == Some(bytes_to_groups(ip)),
        is_address_text(ipv6_text(ip)),
{
    let groups = bytes_to_groups(ip);
    let quad = ip.skip(12);
    let tail_text = hex_text(0xffff) + seq![':'] + ipv4_text(quad);
    let empty = Seq::<char>::empty();
    let text = empty + seq![':', ':'] + tail_text;
    assert(ipv6_text(ip) =~= text);
    let tail = seq![0xffffu16, pair(quad[0], quad[1]), pair(quad[2], quad[3])];
    lemma_mapped_tail(quad);
    lemma_gap_after(empty, tail_text);
    lemma_ipv6_groups_with_gap(text, empty, tail_text, Seq::<u16>::empty(), tail);
    lemma_address_text_with_gap(empty, tail_text);
    let all = Seq::<u16>::empty() + zero_groups(5) + tail;
    assert(all =~= groups) by {
        assert forall|i: int| 0 <= i < 8 implies all[i] == groups[i] by {
            if i == 6 {
                assert(groups[6] == pair(ip[12], ip[13]));
            } else if i == 7 {
                assert(groups[7] == pair(ip[14], ip[15]));
            }
        }
    }
}

/// Groups written in full stand for themselves.
proof fn lemma_ipv6_text_full(groups: Seq<u16>)
    requires
        groups.len() == 8,
    ensures
        ipv6_groups_of(groups_text(groups)) == Some(groups),
        is_address_text(groups_text(groups)),
{
    lemma_groups_text(groups);
    lemma_gap_none(groups_text(groups));
    lemma_groups_of_text(groups, true);
}

/// Eight groups are the groups before a run of zero groups, the run and
/// the groups behind it.
proof fn lemma_groups_around_run(groups: Seq<u16>, start: int, len: int)
    requires
        groups.len() == 8,
        0 <= start,
        1 <= len,
        start + len <= 8,
        forall|k: int| start <= k < start + len ==> #[trigger] groups[k] == 0,
    ensures
        groups.take(start).len() + groups.skip(start + len).len() <= 7,
        groups.take(start) + zero_groups(
            (8 - groups.take(start).len() - groups.skip(start + len).len()) as nat,
        ) + groups.skip(start + len) == groups,
{
    let head = groups.take(start);
    let tail = groups.skip(start + len);
    assert(head + zero_groups((8 - head.len() - tail.len()) as nat) + tail =~= groups);
}

/// Groups written with two colons in the place of a run of zero groups
/// stand for themselves.
proof fn lemma_ipv6_text_short(groups: Seq<u16>, start: int, len: int)
    requires
        groups.len() == 8,
        0 <= start,
        1 <= len,
        start + len <= 8,
        forall|k: int| start <= k < start + len ==> #[trigger] groups[k] == 0,
    ensures
        ipv6_groups_of(
            groups_text(groups.take(start)) + seq![':', ':'] + groups_text(
                groups.skip(start + len),
            ),
        ) == Some(groups),
        is_address_text(
            groups_text(groups.take(start)) + seq![':', ':'] + groups_text(
                groups.skip(start + len),
            ),
        ),
{
    let head = groups.take(start);
    let tail = groups.skip(start + len);
    let head_text = groups_text(head);
    let tail_text = groups_text(tail);
    if head.len() > 0 {
        lemma_groups_text(head);
    }
    lemma_gap_after(head_text, tail_text);
    lemma_groups_of_text(head, false);
    lemma_groups_of_text(tail, true);
    lemma_groups_around_run(groups, start, len);
    lemma_ipv6_groups_with_gap(
        head_text + seq![':', ':'] + tail_text,
        head_text,
        tail_text,
        head,
        tail,
    );
    lemma_groups_address_text(head);
    lemma_groups_address_text(tail);
    lemma_address_text_with_gap(head_text, tail_text);
}

/// The text of an IPv6 address stands for the groups it was written from.
proof fn lemma_ipv6_text_groups(ip: Seq<u8>)
    requires
        ip.len() == 16,
    ensures
        ipv6_groups_of(ipv6_text(ip)) == Some(bytes_to_groups(ip)),
        is_address_text(ipv6_text(ip)),
{
    let groups = bytes_to_groups(ip);
    assert(groups.len() == 8);
    if is_mapped(groups) {
        lemma_ipv6_text_mapped(ip);
    } else {
        let run = longest_zero_run(groups, 8);
        lemma_longest_zero_run(groups, 8);
        if run.1 < 2 {
            lemma_ipv6_text_full(groups);
        } else {
            lemma_zero_run_at(groups, run.0);
            lemma_ipv6_text_short(groups, run.0, run.1 as int);
        }
    }
}

/// The text of an IPv6 address stands for the bytes it was written from,
/// and holds nothing but hexadecimal digits, colons and dots.
pub proof fn lemma_ipv6_text(ip: Seq<u8>)
    requires
        ip.len() == 16,
    ensures
        ipv6_of(ipv6_text(ip)) == Some(ip),
        is_address_text(ipv6_text(ip)),
{
    lemma_ipv6_text_groups(ip);
    lemma_groups_bytes(ip);
}

} // verus!
