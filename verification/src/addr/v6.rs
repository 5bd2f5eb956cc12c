//! IPv6 addresses as text.
use super::v4::{
    ipv4_of, ipv4_text, lemma_ipv4_round_trip, lemma_ipv4_text_chars, parse_ipv4, push_ipv4, DOT,
};
use super::{Ipv4Addr, Ipv6Addr};
use crate::text::{
    digits, fields, join, lemma_digits_chars, lemma_fields_of_join, lemma_first_index, lemma_value_of_digits,
    push_all, push_digits, read_short_number, split_fields, value, views,
};
use vstd::prelude::*;
use vstd::slice::slice_subrange;

verus! {

/// `:`, which stands between the groups of an address.
pub const COLON: u8 = 0x3a;

/// The 16 bits that one to four hexadecimal digits stand for.
pub open spec fn group_of(s: Seq<u8>) -> Option<u16> {
    if 1 <= s.len() <= 4 {
        match value(s, 16) {
            Some(v) => Some(v as u16),
            None => None,
        }
    } else {
        None
    }
}

/// The groups that the pieces of a text stand for, each piece one group.
pub open spec fn groups_of(p: Seq<Seq<u8>>) -> Option<Seq<u16>>
    decreases p.len(),
{
    if p.len() == 0 {
        Some(Seq::empty())
    } else {
        match (groups_of(p.drop_last()), group_of(p.last())) {
            (Some(g), Some(x)) => Some(g.push(x)),
            _ => None,
        }
    }
}

/// The two groups that the bytes of an IPv4 address make.
pub open spec fn ipv4_groups(ip: Ipv4Addr) -> Seq<u16> {
    seq![
        (ip.octets[0] * 0x100 + ip.octets[1]) as u16,
        (ip.octets[2] * 0x100 + ip.octets[3]) as u16,
    ]
}

/// The groups that the pieces of a text stand for, where the last piece may be an IPv4
/// address and then makes two.
pub open spec fn groups_or_ipv4_of(p: Seq<Seq<u8>>) -> Option<Seq<u16>> {
    if p.len() == 0 {
        Some(Seq::empty())
    } else {
        match ipv4_of(p.last()) {
            Some(ip) => match groups_of(p.drop_last()) {
                Some(g) => Some(g + ipv4_groups(ip)),
                None => None,
            },
            None => groups_of(p),
        }
    }
}

/// The pieces between the colons of a text. An empty text has none.
pub open spec fn pieces(s: Seq<u8>) -> Seq<Seq<u8>> {
    if s.len() == 0 {
        Seq::empty()
    } else {
        fields(s, COLON)
    }
}

/// Whether two colons stand at the place `j`.
pub open spec fn gap_at(s: Seq<u8>, j: int) -> bool {
    0 <= j && j + 1 < s.len() && s[j] == COLON && s[j + 1] == COLON
}

/// The place of the first `::` in a text; the length of the text where there is none.
pub open spec fn gap(s: Seq<u8>) -> int
    decreases s.len(),
{
    if s.len() < 2 {
        s.len() as int
    } else if s[0] == COLON && s[1] == COLON {
        0
    } else {
        1 + gap(s.skip(1))
    }
}

/// `n` groups of zeros.
pub open spec fn zeros(n: nat) -> Seq<u16> {
    Seq::new(n, |i: int| 0u16)
}

/// The address with the given groups.
pub open spec fn ipv6_from(g: Seq<u16>) -> Ipv6Addr {
    Ipv6Addr { segments: [g[0], g[1], g[2], g[3], g[4], g[5], g[6], g[7]] }
}

/// The address that a text stands for: eight groups, or fewer around one `::`, which
/// stands for at least one group of zeros. The last two groups may be written as an IPv4
/// address.
pub open spec fn ipv6_of(s: Seq<u8>) -> Option<Ipv6Addr> {
    let k = gap(s);
    if k < s.len() {
        match (groups_of(pieces(s.take(k))), groups_or_ipv4_of(pieces(s.skip(k + 2)))) {
            (Some(h), Some(t)) => if h.len() + t.len() <= 7 {
                Some(ipv6_from(h + zeros((8 - h.len() - t.len()) as nat) + t))
            } else {
                None
            },
            _ => None,
        }
    } else {
        match groups_or_ipv4_of(pieces(s)) {
            Some(g) => if g.len() == 8 {
                Some(ipv6_from(g))
            } else {
                None
            },
            None => None,
        }
    }
}

/// The number of groups of zeros from the place `i` on.
pub open spec fn zero_run(g: Seq<u16>, i: int) -> int
    decreases g.len() - i,
{
    if 0 <= i < g.len() && g[i] == 0 {
        1 + zero_run(g, i + 1)
    } else {
        0
    }
}

/// Where the longest run of zeros at or behind the place `i` starts, the first of equals,
/// and its length.
pub open spec fn longest_run(g: Seq<u16>, i: int) -> (int, int)
    decreases g.len() - i,
{
    if 0 <= i < g.len() {
        let rest = longest_run(g, i + 1);
        if zero_run(g, i) >= rest.1 {
            (i, zero_run(g, i))
        } else {
            rest
        }
    } else {
        (i, 0)
    }
}

/// Each group as hexadecimal digits.
pub open spec fn group_texts(g: Seq<u16>) -> Seq<Seq<u8>> {
    Seq::new(g.len(), |i: int| digits(g[i] as nat, 16))
}

/// Groups with a colon between each and the next.
pub open spec fn groups_text(g: Seq<u16>) -> Seq<u8> {
    join(group_texts(g), COLON)
}

/// Whether the address stands for an IPv4 address: five groups of zeros and one of ones.
pub open spec fn is_mapped(ip: Ipv6Addr) -> bool {
    ip.segments@.take(6) == zeros(5).push(0xffff)
}

/// The IPv4 address in the last two groups.
pub open spec fn mapped_ipv4(ip: Ipv6Addr) -> Ipv4Addr {
    Ipv4Addr {
        octets: [
            (ip.segments[6] / 0x100) as u8,
            (ip.segments[6] % 0x100) as u8,
            (ip.segments[7] / 0x100) as u8,
            (ip.segments[7] % 0x100) as u8,
        ],
    }
}

/// `::ffff:`, which stands in front of a mapped IPv4 address.
pub const MAPPED_PREFIX: [u8; 7] = [0x3a, 0x3a, 0x66, 0x66, 0x66, 0x66, 0x3a];

/// How an address is written: its groups, with `::` in place of the longest run of two or
/// more groups of zeros; a mapped IPv4 address as such.
pub open spec fn ipv6_text(ip: Ipv6Addr) -> Seq<u8> {
    let g = ip.segments@;
    let (start, n) = longest_run(g, 0);
    if is_mapped(ip) {
        MAPPED_PREFIX@ + ipv4_text(mapped_ipv4(ip))
    } else if n >= 2 {
        groups_text(g.take(start)) + seq![COLON, COLON] + groups_text(g.skip(start + n))
    } else {
        groups_text(g)
    }
}

/// A run of zeros lies within the groups, and all of it is zeros.
proof fn lemma_zero_run(g: Seq<u16>, i: int)
    requires
        0 <= i <= g.len(),
    ensures
        0 <= zero_run(g, i) <= g.len() - i,
        forall|j: int| i <= j < i + zero_run(g, i) ==> g[j] == 0,
    decreases g.len() - i,
{
    if i < g.len() && g[i] == 0 {
        lemma_zero_run(g, i + 1);
    }
}

/// The longest run lies within the groups, and all of it is zeros.
pub proof fn lemma_longest_run(g: Seq<u16>, i: int)
    requires
        0 <= i <= g.len(),
    ensures
        i <= longest_run(g, i).0,
        0 <= longest_run(g, i).1 <= g.len() - longest_run(g, i).0,
        forall|j: int|
            longest_run(g, i).0 <= j < longest_run(g, i).0 + longest_run(g, i).1 ==> g[j] == 0,
    decreases g.len() - i,
{
    if i < g.len() {
        lemma_zero_run(g, i);
        lemma_longest_run(g, i + 1);
    }
}

/// No other run is longer, and none in front is as long.
pub proof fn lemma_longest_run_is_longest(g: Seq<u16>, i: int, j: int)
    requires
        0 <= i <= j < g.len(),
    ensures
        zero_run(g, j) <= longest_run(g, i).1,
        zero_run(g, j) == longest_run(g, i).1 ==> longest_run(g, i).0 <= j,
    decreases g.len() - i,
{
    lemma_longest_run(g, i + 1);
    if i < j {
        lemma_longest_run_is_longest(g, i + 1, j);
    }
}

pub proof fn lemma_gap(s: Seq<u8>)
    ensures
        0 <= gap(s) <= s.len(),
        gap(s) < s.len() ==> gap_at(s, gap(s)),
        forall|j: int| 0 <= j < gap(s) ==> !gap_at(s, j),
    decreases s.len(),
{
    if s.len() >= 2 && !(s[0] == COLON && s[1] == COLON) {
        lemma_gap(s.skip(1));
        let rest = s.skip(1);
        assert forall|j: int| 0 <= j < gap(s) implies !gap_at(s, j) by {
            if j > 0 {
                assert(!gap_at(rest, j - 1));
            }
        }
        assert(gap(s) < s.len() ==> gap_at(rest, gap(s) - 1));
    }
}

pub proof fn lemma_gap_is(s: Seq<u8>, k: int)
    requires
        0 <= k <= s.len(),
        k < s.len() ==> gap_at(s, k),
        forall|j: int| 0 <= j < k ==> !gap_at(s, j),
    ensures
        gap(s) == k,
{
    lemma_gap(s);
    if gap(s) < k {
        assert(!gap_at(s, gap(s)));
    }
}

/// A group is written with at most four digits.
proof fn lemma_group_round_trip(x: u16)
    ensures
        group_of(digits(x as nat, 16)) == Some(x),
{
    lemma_value_of_digits(x as nat, 16);
    let n = x as nat;
    reveal_with_fuel(digits, 5);
    assert(n / 16 / 16 / 16 / 16 == 0);
    assert(digits(n, 16).len() <= 4);
    lemma_digits_chars(n, 16);
}

proof fn lemma_groups_round_trip(g: Seq<u16>)
    ensures
        groups_of(group_texts(g)) == Some(g),
    decreases g.len(),
{
    if g.len() > 0 {
        lemma_groups_round_trip(g.drop_last());
        lemma_group_round_trip(g.last());
        assert(group_texts(g).drop_last() =~= group_texts(g.drop_last()));
        assert(g.drop_last().push(g.last()) =~= g);
    } else {
        assert(g =~= Seq::empty());
    }
}

/// A text without a dot is no IPv4 address.
proof fn lemma_ipv4_has_dot(s: Seq<u8>)
    requires
        !s.contains(DOT),
    ensures
        ipv4_of(s) is None,
{
    lemma_first_index(s, DOT);
    assert(fields(s, DOT) =~= seq![s]);
}

proof fn lemma_groups_or_ipv4_round_trip(g: Seq<u16>)
    ensures
        groups_or_ipv4_of(group_texts(g)) == Some(g),
{
    lemma_groups_round_trip(g);
    if g.len() > 0 {
        let last = group_texts(g).last();
        lemma_digits_chars(g.last() as nat, 16);
        assert(!last.contains(DOT));
        lemma_ipv4_has_dot(last);
    } else {
        assert(g =~= Seq::empty());
    }
}

proof fn lemma_pieces_round_trip(g: Seq<u16>)
    ensures
        pieces(groups_text(g)) == group_texts(g),
{
    let p = group_texts(g);
    if g.len() > 0 {
        assert forall|i: int| 0 <= i < p.len() implies !(#[trigger] p[i]).contains(COLON) by {
            lemma_digits_chars(g[i] as nat, 16);
        }
        lemma_fields_of_join(p, COLON);
        lemma_digits_chars(g[0] as nat, 16);
        assert(p[0].len() > 0);
        assert(groups_text(g).len() > 0);
    } else {
        assert(p =~= Seq::empty());
    }
}

/// Written groups neither start nor end with a colon, nor hold two in a row.
proof fn lemma_groups_text_plain(g: Seq<u16>)
    ensures
        ({
            let s = groups_text(g);
            &&& s.len() > 0 <==> g.len() > 0
            &&& s.len() > 0 ==> s[0] != COLON && s.last() != COLON
            &&& forall|j: int| !gap_at(s, j)
        }),
    decreases g.len(),
{
    let s = groups_text(g);
    let p = group_texts(g);
    if g.len() > 0 {
        lemma_digits_chars(g[0] as nat, 16);
        let n = p[0].len() as int;
        if g.len() > 1 {
            let rest = g.skip(1);
            let t = groups_text(rest);
            lemma_groups_text_plain(rest);
            assert(p.skip(1) =~= group_texts(rest));
            assert(s == p[0] + seq![COLON] + t);
            assert forall|j: int| !gap_at(s, j) by {
                if 0 <= j < n {
                    assert(s[j] == p[0][j]);
                } else if j == n {
                    assert(s[j + 1] == t[0]);
                } else if j > n && j + 1 < s.len() {
                    assert(s[j] == t[j - n - 1]);
                    assert(s[j + 1] == t[j - n]);
                    assert(!gap_at(t, j - n - 1));
                }
            }
            assert(s.last() == t.last());
        } else {
            assert(s == p[0]);
        }
    }
}

/// An address is written in hexadecimal digits, colons and dots.
pub proof fn lemma_ipv6_text_chars(ip: Ipv6Addr, b: u8)
    requires
        b != DOT,
        b != COLON,
        !(0x30 <= b <= 0x39),
        !(0x61 <= b <= 0x66),
    ensures
        !ipv6_text(ip).contains(b),
{
    let g = ip.segments@;
    let (start, n) = longest_run(g, 0);
    lemma_longest_run(g, 0);
    lemma_groups_text_chars(g, b);
    lemma_groups_text_chars(g.take(start), b);
    lemma_groups_text_chars(g.skip(start + n), b);
    lemma_ipv4_text_chars(mapped_ipv4(ip), b);
    let s = ipv6_text(ip);
    assert forall|j: int| 0 <= j < s.len() implies s[j] != b by {
        if is_mapped(ip) {
            if j >= 7 {
                assert(s[j] == ipv4_text(mapped_ipv4(ip))[j - 7]);
            }
        } else if n >= 2 {
            let h = groups_text(g.take(start));
            let t = groups_text(g.skip(start + n));
            if j < h.len() {
                assert(s[j] == h[j]);
            } else if j >= h.len() + 2 {
                assert(s[j] == t[j - h.len() - 2]);
            }
        }
    }
}

proof fn lemma_groups_text_chars(g: Seq<u16>, b: u8)
    requires
        b != COLON,
        !(0x30 <= b <= 0x39),
        !(0x61 <= b <= 0x66),
    ensures
        !groups_text(g).contains(b),
{
    let p = group_texts(g);
    assert forall|i: int| 0 <= i < p.len() implies !(#[trigger] p[i]).contains(b) by {
        lemma_digits_chars(g[i] as nat, 16);
    }
    crate::text::lemma_join_lacks(p, COLON, b);
}

proof fn lemma_mapped_round_trip(ip: Ipv6Addr)
    requires
        is_mapped(ip),
    ensures
        ipv6_of(ipv6_text(ip)) == Some(ip),
{
    let s = ipv6_text(ip);
    let v4 = mapped_ipv4(ip);
    assert(gap_at(s, 0));
    lemma_gap_is(s, 0);
    assert(s.take(0) =~= Seq::empty());
    let ones = digits(0xffff, 16);
    assert(ones =~= seq![0x66u8, 0x66u8, 0x66u8, 0x66u8]) by {
        reveal_with_fuel(digits, 5);
    }
    let p = seq![ones, ipv4_text(v4)];
    reveal_with_fuel(join, 3);
    assert(p.skip(1) =~= seq![ipv4_text(v4)]);
    assert(s.skip(2) =~= join(p, COLON));
    lemma_ipv4_text_chars(v4, COLON);
    assert(!ones.contains(COLON));
    lemma_fields_of_join(p, COLON);
    lemma_ipv4_round_trip(v4);
    lemma_group_round_trip(0xffff);
    reveal_with_fuel(groups_of, 2);
    assert(p.drop_last() =~= seq![ones]);
    assert(p.drop_last().drop_last() =~= Seq::empty());
    assert(groups_of(p.drop_last()) == Some(Seq::<u16>::empty().push(0xffff)));
    assert(ipv4_groups(v4) =~= seq![ip.segments[6], ip.segments[7]]);
    let t = Seq::<u16>::empty().push(0xffff) + ipv4_groups(v4);
    assert(groups_or_ipv4_of(pieces(s.skip(2))) == Some(t));
    let all = Seq::<u16>::empty() + zeros(5) + t;
    assert(all =~= ip.segments@) by {
        assert forall|i: int| 0 <= i < 6 implies ip.segments@[i] == zeros(5).push(0xffff)[i] by {
            assert(ip.segments@.take(6)[i] == ip.segments@[i]);
        }
    }
    assert(ipv6_from(all).segments =~= ip.segments);
}

/// Groups around a `::` read back with zeros between them.
proof fn lemma_compressed_round_trip(hg: Seq<u16>, tg: Seq<u16>)
    requires
        hg.len() + tg.len() <= 7,
    ensures
        ipv6_of(groups_text(hg) + seq![COLON, COLON] + groups_text(tg)) == Some(
            ipv6_from(hg + zeros((8 - hg.len() - tg.len()) as nat) + tg),
        ),
{
    let h = groups_text(hg);
    let t = groups_text(tg);
    let s = h + seq![COLON, COLON] + t;
    lemma_groups_text_plain(hg);
    assert forall|j: int| 0 <= j < h.len() implies !gap_at(s, j) by {
        assert(s[j] == h[j]);
        assert(!gap_at(h, j));
        if j + 1 < h.len() {
            assert(s[j + 1] == h[j + 1]);
        }
    }
    assert(gap_at(s, h.len() as int));
    lemma_gap_is(s, h.len() as int);
    assert(s.take(h.len() as int) =~= h);
    assert(s.skip(h.len() as int + 2) =~= t);
    lemma_pieces_round_trip(hg);
    lemma_pieces_round_trip(tg);
    lemma_groups_round_trip(hg);
    lemma_groups_or_ipv4_round_trip(tg);
}

/// Eight groups read back as they are.
proof fn lemma_full_round_trip(g: Seq<u16>)
    requires
        g.len() == 8,
    ensures
        ipv6_of(groups_text(g)) == Some(ipv6_from(g)),
{
    let s = groups_text(g);
    lemma_groups_text_plain(g);
    assert forall|j: int| 0 <= j < s.len() implies !gap_at(s, j) by {}
    lemma_gap_is(s, s.len() as int);
    lemma_pieces_round_trip(g);
    lemma_groups_or_ipv4_round_trip(g);
}

/// Reading a written address gives the address.
pub proof fn lemma_ipv6_round_trip(ip: Ipv6Addr)
    ensures
        ipv6_of(ipv6_text(ip)) == Some(ip),
{
    let g = ip.segments@;
    let (start, n) = longest_run(g, 0);
    assert(ipv6_from(g).segments =~= ip.segments);
    if is_mapped(ip) {
        lemma_mapped_round_trip(ip);
    } else if n >= 2 {
        lemma_longest_run(g, 0);
        let hg = g.take(start);
        let tg = g.skip(start + n);
        lemma_compressed_round_trip(hg, tg);
        assert(hg + zeros((8 - hg.len() - tg.len()) as nat) + tg =~= g);
    } else {
        lemma_full_round_trip(g);
    }
}

fn parse_group(s: &[u8]) -> (group: Option<u16>)
    ensures
        group == group_of(s@),
{
    if s.len() < 1 || s.len() > 4 {
        return None;
    }
    match read_short_number(s, 16) {
        Some(v) => Some(v as u16),
        None => None,
    }
}

/// Pieces of which some are no groups are no groups.
proof fn lemma_groups_prefix(p: Seq<Seq<u8>>, k: int)
    requires
        0 <= k <= p.len(),
        groups_of(p.take(k)) is None,
    ensures
        groups_of(p) is None,
    decreases p.len() - k,
{
    if k == p.len() {
        assert(p.take(k) =~= p);
    } else {
        assert(p.take(k + 1).drop_last() =~= p.take(k));
        lemma_groups_prefix(p, k + 1);
    }
}

/// Reads groups with a colon between each and the next, the last two as an IPv4 address
/// where `ipv4` allows it.
fn parse_groups(s: &[u8], ipv4: bool) -> (groups: Option<Vec<u16>>)
    ensures
        groups is Some <==> (if ipv4 {
            groups_or_ipv4_of(pieces(s@))
        } else {
            groups_of(pieces(s@))
        }) is Some,
        groups matches Some(g) ==> (if ipv4 {
            groups_or_ipv4_of(pieces(s@))
        } else {
            groups_of(pieces(s@))
        }) == Some(g@),
{
    let mut groups: Vec<u16> = Vec::new();
    if s.len() == 0 {
        assert(groups@ =~= Seq::empty());
        return Some(groups);
    }
    let parts = split_fields(s, COLON);
    let ghost p = pieces(s@);
    assert(views(parts@) == p);
    assert forall|j: int| 0 <= j < parts@.len() implies (#[trigger] parts@[j])@ == p[j] by {
        assert(views(parts@)[j] == p[j]);
    }
    let last: usize = parts.len() - 1;
    let tail = if ipv4 {
        parse_ipv4(parts[last])
    } else {
        None
    };
    assert(parts@[last as int]@ == p.last());
    let count: usize = if tail.is_some() {
        last
    } else {
        parts.len()
    };
    let mut i: usize = 0;
    assert(p.take(0) =~= Seq::empty());
    assert(groups@ =~= Seq::empty());
    while i < count
        invariant
            i <= count <= parts@.len(),
            parts@.len() == p.len(),
            forall|j: int| 0 <= j < parts@.len() ==> (#[trigger] parts@[j])@ == p[j],
            groups_of(p.take(i as int)) == Some(groups@),
            count == p.len() || count == p.len() - 1,
            tail is Some <==> count == p.len() - 1,
            tail is Some ==> ipv4 && ipv4_of(p.last()) is Some,
            tail is None ==> !ipv4 || ipv4_of(p.last()) is None,
            p == pieces(s@),
        decreases count - i,
    {
        assert(p.take(i + 1).drop_last() =~= p.take(i as int));
        match parse_group(parts[i]) {
            Some(x) => {
                groups.push(x);
            },
            None => {
                proof {
                    lemma_groups_prefix(p, i + 1);
                    if tail is Some {
                        assert(p.drop_last().take(i + 1) =~= p.take(i + 1));
                        lemma_groups_prefix(p.drop_last(), i + 1);
                    }
                }
                return None;
            },
        }
        i += 1;
    }
    match tail {
        Some(ip) => {
            assert(p.take(count as int) =~= p.drop_last());
            let ghost front = groups@;
            groups.push(ip.octets[0] as u16 * 0x100 + ip.octets[1] as u16);
            groups.push(ip.octets[2] as u16 * 0x100 + ip.octets[3] as u16);
            assert(groups@ =~= front + ipv4_groups(ip));
        },
        None => {
            assert(p.take(count as int) =~= p);
        },
    }
    Some(groups)
}

/// Finds the first `::`.
fn find_gap(s: &[u8]) -> (k: usize)
    ensures
        k == gap(s@),
{
    let mut k: usize = 0;
    while k < s.len()
        invariant
            k <= s@.len(),
            forall|j: int| 0 <= j < k ==> !gap_at(s@, j),
        decreases s@.len() - k,
    {
        if s.len() - k >= 2 && s[k] == COLON && s[k + 1] == COLON {
            proof {
                lemma_gap_is(s@, k as int);
            }
            return k;
        }
        k += 1;
    }
    proof {
        lemma_gap_is(s@, k as int);
    }
    k
}

/// Reads an address.
pub fn parse_ipv6(s: &[u8]) -> (ip: Option<Ipv6Addr>)
    ensures
        ip == ipv6_of(s@),
{
    let k = find_gap(s);
    proof {
        lemma_gap(s@);
    }
    if k < s.len() {
        let head = parse_groups(slice_subrange(s, 0, k), false);
        let tail = parse_groups(slice_subrange(s, k + 2, s.len()), true);
        assert(s@.subrange(0, k as int) =~= s@.take(k as int));
        assert(s@.subrange(k + 2, s@.len() as int) =~= s@.skip(k + 2));
        match (head, tail) {
            (Some(h), Some(t)) => {
                if h.len() > 7 || t.len() > 7 - h.len() {
                    return None;
                }
                let mut segments: [u16; 8] = [0; 8];
                let ghost all = h@ + zeros((8 - h@.len() - t@.len()) as nat) + t@;
                let mut i: usize = 0;
                while i < h.len()
                    invariant
                        i <= h@.len() <= 7,
                        forall|j: int| 0 <= j < i ==> #[trigger] segments@[j] == h@[j],
                        forall|j: int| i <= j < 8 ==> #[trigger] segments@[j] == 0,
                    decreases h@.len() - i,
                {
                    segments[i] = h[i];
                    i += 1;
                }
                let base: usize = 8 - t.len();
                let mut j: usize = 0;
                while j < t.len()
                    invariant
                        j <= t@.len(),
                        h@.len() + t@.len() <= 7,
                        base == 8 - t@.len(),
                        forall|m: int| 0 <= m < h@.len() ==> #[trigger] segments@[m] == h@[m],
                        forall|m: int| h@.len() <= m < base ==> #[trigger] segments@[m] == 0,
                        forall|m: int|
                            base <= m < base + j ==> #[trigger] segments@[m] == t@[m - base],
                    decreases t@.len() - j,
                {
                    segments[base + j] = t[j];
                    j += 1;
                }
                let ip = Ipv6Addr { segments };
                assert(ip.segments@ =~= all);
                assert(ipv6_from(all).segments =~= ip.segments);
                Some(ip)
            },
            _ => None,
        }
    } else {
        match parse_groups(s, true) {
            Some(g) => {
                if g.len() == 8 {
                    Some(Ipv6Addr { segments: [g[0], g[1], g[2], g[3], g[4], g[5], g[6], g[7]] })
                } else {
                    None
                }
            },
            None => None,
        }
    }
}

/// Appends the groups from `from` up to `to`, with a colon between each and the next.
fn push_groups(out: &mut Vec<u8>, segments: &[u16; 8], from: usize, to: usize)
    requires
        from <= to <= 8,
    ensures
        final(out)@ == old(out)@ + groups_text(segments@.subrange(from as int, to as int)),
    decreases to - from,
{
    let ghost g = segments@.subrange(from as int, to as int);
    let ghost p = group_texts(g);
    if from < to {
        push_digits(out, segments[from], 16);
        assert(p[0] == digits(segments@[from as int] as nat, 16));
        if from + 1 < to {
            out.push(COLON);
            push_groups(out, segments, from + 1, to);
            assert(p.skip(1) =~= group_texts(segments@.subrange(from + 1, to as int)));
        }
    }
    assert(out@ =~= old(out)@ + groups_text(g));
}

/// Appends an address.
pub fn push_ipv6(out: &mut Vec<u8>, ip: &Ipv6Addr)
    ensures
        final(out)@ == old(out)@ + ipv6_text(*ip),
{
    let s = &ip.segments;
    let ghost g = ip.segments@;
    if s[0] == 0 && s[1] == 0 && s[2] == 0 && s[3] == 0 && s[4] == 0 && s[5] == 0xffff {
        assert(g.take(6) =~= zeros(5).push(0xffff));
        push_all(out, &MAPPED_PREFIX);
        let v4 = Ipv4Addr {
            octets: [
                (s[6] / 0x100) as u8,
                (s[6] % 0x100) as u8,
                (s[7] / 0x100) as u8,
                (s[7] % 0x100) as u8,
            ],
        };
        push_ipv4(out, &v4);
        assert(out@ =~= old(out)@ + ipv6_text(*ip));
        return ;
    }
    proof {
        if is_mapped(*ip) {
            let m = zeros(5).push(0xffff);
            assert(g.take(6)[0] == m[0] && g.take(6)[1] == m[1] && g.take(6)[2] == m[2] && g.take(
                6,
            )[3] == m[3] && g.take(6)[4] == m[4] && g.take(6)[5] == m[5]);
        }
    }
    let mut i: usize = 8;
    let mut run: usize = 0;
    let mut best_start: usize = 8;
    let mut best: usize = 0;
    while i > 0
        invariant
            i <= 8,
            g == s@,
            run == zero_run(g, i as int),
            (best_start as int, best as int) == longest_run(g, i as int),
            run <= 8 - i,
        decreases i,
    {
        i -= 1;
        run = if s[i] == 0 {
            run + 1
        } else {
            0
        };
        if run >= best {
            best_start = i;
            best = run;
        }
    }
    proof {
        lemma_longest_run(g, 0);
    }
    if best >= 2 {
        push_groups(out, s, 0, best_start);
        out.push(COLON);
        out.push(COLON);
        push_groups(out, s, best_start + best, 8);
        assert(g.subrange(0, best_start as int) =~= g.take(best_start as int));
        assert(g.subrange(best_start + best, 8) =~= g.skip(best_start + best));
    } else {
        push_groups(out, s, 0, 8);
        assert(g.subrange(0, 8) =~= g);
    }
    assert(out@ =~= old(out)@ + ipv6_text(*ip));
}

} // verus!
