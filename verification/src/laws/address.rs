//! What addresses and ports in text stand for, and how they are written.
use super::number::{
    all_digits, is_written, law_leading_zeros, law_number_is_sum, law_number_written, sum, worth,
};
use super::words::{
    are_words, ascii, lemma_fields_are_words, lemma_spelled_fields, lemma_spelled_front,
    lemma_spelled_is_join, spelled,
};
use crate::addr::port::{parse_port, port_of, scan, PortError};
use crate::addr::v4::{
    ipv4_of, ipv4_text, lemma_ipv4_round_trip, lemma_octet_round_trip, octet_of, octet_texts,
    parse_ipv4, push_ipv4,
};
use crate::addr::v6::{
    gap, gap_at, group_of, group_texts, groups_of, groups_or_ipv4_of, groups_text, ipv4_groups,
    ipv6_from, ipv6_of, ipv6_text, is_mapped, lemma_gap_is, lemma_longest_run,
    lemma_longest_run_is_longest, longest_run, mapped_ipv4, parse_ipv6, pieces, push_ipv6,
    zero_run, zeros, MAPPED_PREFIX,
};
use crate::addr::{IpAddr, Ipv4Addr, Ipv6Addr, SocketAddr, SocketAddrV4, SocketAddrV6};
use crate::text::{digits, fields, value};
use vstd::arithmetic::power::pow;
use vstd::prelude::*;

verus! {

/// The part of a text that holds the digits of a port: all but a plus sign in front of
/// something.
pub open spec fn port_digits(s: Seq<u8>) -> Seq<u8> {
    if s.len() > 1 && s[0] == '+' as int {
        s.skip(1)
    } else {
        s
    }
}

/// Whether `port` is what a text stands for: what its decimal digits are worth. A text that
/// is no port is empty, or it has digits that are worth too much before anything else
/// comes, or it has something else.
pub open spec fn is_port(s: Seq<u8>, port: Result<u16, PortError>) -> bool {
    let d = port_digits(s);
    &&& port is Ok <==> s.len() > 0 && all_digits(d, 10) && sum(d, 10) <= 65535
    &&& port matches Ok(n) ==> n == sum(d, 10)
    &&& port == Err::<u16, PortError>(PortError::Empty) <==> s.len() == 0
    &&& port == Err::<u16, PortError>(PortError::TooLarge) <==> exists|k: int|
        0 <= k <= d.len() && all_digits(#[trigger] d.take(k), 10) && sum(d.take(k), 10) > 65535
}

/// A port is what its decimal digits are worth.
pub proof fn law_port_text(s: Seq<u8>)
    ensures
        is_port(s, port_of(s)),
{
    let d = port_digits(s);
    if s.len() > 0 {
        assert(d.skip(0) =~= d);
        assert(d.take(0) =~= Seq::empty());
        assert(port_of(s) == scan(d, 0)) by {
            if s =~= seq!['+' as u8] {
                assert(d[0] == '+' as int);
            }
        }
        crate::addr::port::lemma_scan_value(d, 0, 0);
        law_number_is_sum(d, 10);
        lemma_scan_too_large(d, 0, 0);
        lemma_scan_not_empty(d, 0);
    } else {
        assert forall|k: int| 0 <= k <= d.len() implies sum(#[trigger] d.take(k), 10) <= 65535 by {
            assert(d.take(k) =~= Seq::empty());
        }
    }
}

/// Reading a port gives what its decimal digits are worth, whatever the text.
pub proof fn law_port(s: &[u8], port: Result<u16, PortError>)
    requires
        call_ensures(parse_port, (s,), port),
    ensures
        call_requires(parse_port, (s,)),
        is_port(s@, port),
{
    law_port_text(s@);
}

proof fn lemma_scan_not_empty(d: Seq<u8>, acc: nat)
    ensures
        scan(d, acc) != Err::<u16, PortError>(PortError::Empty),
    decreases d.len(),
{
    if d.len() > 0 {
        if let Some(x) = crate::text::digit_value(d[0], 10) {
            lemma_scan_not_empty(d.skip(1), acc * 10 + x);
        }
    }
}

proof fn lemma_scan_too_large(d: Seq<u8>, k: int, acc: nat)
    requires
        0 <= k <= d.len(),
        value(d.take(k), 10) == Some(acc),
        acc <= 0xffff,
        forall|j: int| 0 <= j <= k ==> !(all_digits(#[trigger] d.take(j), 10) && sum(d.take(j), 10) > 65535),
    ensures
        scan(d.skip(k), acc) == Err::<u16, PortError>(PortError::TooLarge) <==> exists|j: int|
            0 <= j <= d.len() && all_digits(#[trigger] d.take(j), 10) && sum(d.take(j), 10) > 65535,
    decreases d.len() - k,
{
    if k < d.len() {
        let rest = d.skip(k);
        let next = d.take(k + 1);
        assert(next.drop_last() =~= d.take(k));
        assert(next.last() == d[k]);
        assert(rest[0] == d[k]);
        assert(rest.skip(1) =~= d.skip(k + 1));
        law_number_is_sum(next, 10);
        if value(next, 10) is None {
            assert forall|j: int| k < j <= d.len() implies !all_digits(#[trigger] d.take(j), 10) by {
                if all_digits(d.take(j), 10) {
                    assert forall|i: int| 0 <= i < next.len() implies worth(#[trigger] next[i], 10)
                        >= 0 by {
                        assert(next[i] == d.take(j)[i]);
                    }
                }
            }
        } else if value(next, 10)->0 > 0xffff {
            assert(all_digits(d.take(k + 1), 10) && sum(d.take(k + 1), 10) > 65535);
        } else {
            lemma_scan_too_large(d, k + 1, value(next, 10)->0);
        }
    }
}

/// How the four bytes of an address are written: as decimal numbers with dots between.
pub open spec fn dotted(a: u8, b: u8, c: u8, d: u8) -> Seq<u8> {
    digits(a as nat, 10) + seq!['.' as u8] + digits(b as nat, 10) + seq!['.' as u8] + digits(
        c as nat,
        10,
    ) + seq!['.' as u8] + digits(d as nat, 10)
}

proof fn lemma_ipv4_text_is_dotted(ip: Ipv4Addr)
    ensures
        ipv4_text(ip) == dotted(ip.octets[0], ip.octets[1], ip.octets[2], ip.octets[3]),
{
    let p = octet_texts(ip);
    reveal_with_fuel(crate::text::join, 5);
    assert(p.skip(1).skip(1) =~= p.skip(2));
    assert(p.skip(2).skip(1) =~= p.skip(3));
    assert(ipv4_text(ip) =~= dotted(ip.octets[0], ip.octets[1], ip.octets[2], ip.octets[3]));
}

/// A byte is read from its one written form and from nothing else.
pub proof fn law_octet(s: Seq<u8>, n: u8)
    ensures
        octet_of(s) == Some(n) <==> is_written(s, n as int, 10),
{
    law_number_written(n as nat, 10);
    lemma_octet_round_trip(n);
    law_number_is_sum(s, 10);
    if octet_of(s) == Some(n) {
        assert(sum(s, 10) == n);
        assert forall|i: int| 0 <= i < s.len() implies !('A' as int <= #[trigger] s[i] <= 'F' as int) by {
            assert(worth(s[i], 10) >= 0);
        }
    }
}

/// An IPv4 address is read from its one written form and from nothing else.
pub proof fn law_ipv4_text(s: Seq<u8>, a: u8, b: u8, c: u8, d: u8)
    ensures
        ipv4_of(s) == Some(Ipv4Addr { octets: [a, b, c, d] }) <==> s == dotted(a, b, c, d),
        ipv4_of(s) matches Some(ip) ==> s == dotted(
            ip.octets[0],
            ip.octets[1],
            ip.octets[2],
            ip.octets[3],
        ),
{
    lemma_ipv4_of_is_dotted(s, Ipv4Addr { octets: [a, b, c, d] });
    if let Some(ip) = ipv4_of(s) {
        lemma_ipv4_of_is_dotted(s, ip);
    }
}

/// Reading an IPv4 address gives it for its one written form, and nothing for all else.
pub proof fn law_ipv4_read(s: &[u8], ip: Option<Ipv4Addr>, a: u8, b: u8, c: u8, d: u8)
    requires
        call_ensures(parse_ipv4, (s,), ip),
    ensures
        call_requires(parse_ipv4, (s,)),
        ip == Some(Ipv4Addr { octets: [a, b, c, d] }) <==> s@ == dotted(a, b, c, d),
        ip matches Some(ip) ==> s@ == dotted(
            ip.octets[0],
            ip.octets[1],
            ip.octets[2],
            ip.octets[3],
        ),
{
    law_ipv4_text(s@, a, b, c, d);
}

proof fn lemma_ipv4_of_is_dotted(s: Seq<u8>, ip: Ipv4Addr)
    ensures
        ipv4_of(s) == Some(ip) <==> s == dotted(
            ip.octets[0],
            ip.octets[1],
            ip.octets[2],
            ip.octets[3],
        ),
{
    lemma_ipv4_text_is_dotted(ip);
    lemma_ipv4_round_trip(ip);
    if ipv4_of(s) == Some(ip) {
        let p = fields(s, crate::addr::v4::DOT);
        lemma_fields_are_words(s, crate::addr::v4::DOT);
        lemma_spelled_is_join(p, crate::addr::v4::DOT);
        assert forall|i: int| 0 <= i < 4 implies #[trigger] p[i] == digits(ip.octets[i] as nat, 10) by {
            law_octet(p[i], ip.octets[i]);
            law_number_written(ip.octets[i] as nat, 10);
        }
        assert(p =~= octet_texts(ip));
    }
}

/// What is appended for an IPv4 address is its written form.
pub proof fn law_ipv4_written(out: &mut Vec<u8>, ip: &Ipv4Addr)
    requires
        call_ensures(push_ipv4, (out, ip), ()),
    ensures
        final(out)@ == old(out)@ + dotted(ip.octets[0], ip.octets[1], ip.octets[2], ip.octets[3]),
{
    lemma_ipv4_text_is_dotted(*ip);
}

/// Whether a text is a group of an IPv6 address: one to four hexadecimal digits, in either
/// case and with or without zeros in front, which are worth `n`.
pub open spec fn is_group(s: Seq<u8>, n: int) -> bool {
    1 <= s.len() <= 4 && all_digits(s, 16) && sum(s, 16) == n
}

proof fn lemma_sum_bound(s: Seq<u8>, base: int)
    requires
        2 <= base,
        all_digits(s, base),
    ensures
        0 <= sum(s, base) < pow(base, s.len()),
    decreases s.len(),
{
    reveal(pow);
    if s.len() > 0 {
        let rest = s.skip(1);
        assert forall|i: int| 0 <= i < rest.len() implies worth(#[trigger] rest[i], base) >= 0 by {
            assert(rest[i] == s[i + 1]);
        }
        lemma_sum_bound(rest, base);
        let p = pow(base, rest.len());
        let w = worth(s[0], base);
        assert(0 <= w <= base - 1);
        assert(pow(base, s.len()) == base * p);
        assert(0 <= w * p <= (base - 1) * p && (base - 1) * p + p == base * p) by (nonlinear_arith)
            requires
                0 <= w <= base - 1,
                p > 0,
        ;
    }
}

/// A group is what its hexadecimal digits are worth.
pub proof fn law_group(s: Seq<u8>, n: u16)
    ensures
        group_of(s) == Some(n) <==> is_group(s, n as int),
{
    law_number_is_sum(s, 16);
    if 1 <= s.len() <= 4 && all_digits(s, 16) {
        lemma_sum_bound(s, 16);
        assert(pow(16, 4) == 65536 && pow(16, 3) == 4096 && pow(16, 2) == 256 && pow(16, 1) == 16) by {
            reveal_with_fuel(pow, 5);
        }
    }
}

/// Zeros in front do not change a group.
pub proof fn law_group_leading_zeros(front: Seq<u8>, s: Seq<u8>, n: u16)
    requires
        forall|i: int| 0 <= i < front.len() ==> #[trigger] front[i] == '0' as int,
        is_written(s, n as int, 16),
        front.len() + s.len() <= 4,
    ensures
        group_of(front + s) == Some(n),
{
    law_leading_zeros(front, s, 16);
    law_number_is_sum(s, 16);
    law_number_is_sum(front + s, 16);
    law_group(front + s, n);
}

/// Whether words are groups, one each.
pub open spec fn are_groups(words: Seq<Seq<u8>>, g: Seq<u16>) -> bool {
    words.len() == g.len() && forall|i: int|
        0 <= i < g.len() ==> is_group(#[trigger] words[i], g[i] as int)
}

/// Whether words are groups, one each, where the last may be an IPv4 address in place of
/// two groups.
pub open spec fn are_groups_or_ipv4(words: Seq<Seq<u8>>, g: Seq<u16>) -> bool {
    are_groups(words, g) || {
        &&& words.len() > 0 && g.len() == words.len() + 1
        &&& are_groups(words.drop_last(), g.take(g.len() - 2))
        &&& exists|a: u8, b: u8, c: u8, d: u8|
            words.last() == #[trigger] dotted(a, b, c, d) && g[g.len() - 2] == 256 * a + b && g[g.len()
                - 1] == 256 * c + d
    }
}

proof fn lemma_groups_of(words: Seq<Seq<u8>>, g: Seq<u16>)
    ensures
        groups_of(words) == Some(g) <==> are_groups(words, g),
    decreases words.len(),
{
    if words.len() == 0 {
        if g.len() == 0 {
            assert(g =~= Seq::empty());
        }
    } else {
        let front = words.drop_last();
        if g.len() > 0 {
            lemma_groups_of(front, g.drop_last());
            law_group(words.last(), g.last());
            assert(g.drop_last().push(g.last()) =~= g);
            if are_groups(words, g) {
                assert forall|i: int| 0 <= i < front.len() implies is_group(
                    #[trigger] front[i],
                    g.drop_last()[i] as int,
                ) by {
                    assert(front[i] == words[i]);
                }
                assert(is_group(words[words.len() - 1], g[g.len() - 1] as int));
            } else if are_groups(front, g.drop_last()) && is_group(words.last(), g.last() as int) {
                assert forall|i: int| 0 <= i < g.len() implies is_group(
                    #[trigger] words[i],
                    g[i] as int,
                ) by {
                    if i < g.len() - 1 {
                        assert(front[i] == words[i]);
                    }
                }
            }
        }
        if groups_of(words) == Some(g) {
            let h = groups_of(front)->0;
            let x = group_of(words.last())->0;
            assert(g == h.push(x));
            assert(g.drop_last() =~= h);
        }
    }
}

proof fn lemma_groups_or_ipv4_of(words: Seq<Seq<u8>>, g: Seq<u16>)
    ensures
        groups_or_ipv4_of(words) == Some(g) <==> are_groups_or_ipv4(words, g),
{
    lemma_groups_of(words, g);
    if words.len() == 0 {
        if g.len() == 0 {
            assert(g =~= Seq::empty());
        }
    } else {
        let last = words.last();
        match ipv4_of(last) {
            Some(ip) => {
                let (a, b, c, d) = (ip.octets[0], ip.octets[1], ip.octets[2], ip.octets[3]);
                lemma_ipv4_of_is_dotted(last, ip);
                assert(last == dotted(a, b, c, d));
                let w = digits(a as nat, 10);
                assert(last[w.len() as int] == '.' as int);
                if are_groups(words, g) {
                    assert(is_group(words[words.len() - 1], g[words.len() - 1] as int));
                    assert(worth(last[w.len() as int], 16) >= 0);
                }
                if g.len() >= 2 {
                    let front = g.take(g.len() - 2);
                    lemma_groups_of(words.drop_last(), front);
                    if are_groups_or_ipv4(words, g) {
                        let (a1, b1, c1, d1) = choose|a1: u8, b1: u8, c1: u8, d1: u8|
                            words.last() == #[trigger] dotted(a1, b1, c1, d1) && g[g.len() - 2] == 256
                                * a1 + b1 && g[g.len() - 1] == 256 * c1 + d1;
                        let other = Ipv4Addr { octets: [a1, b1, c1, d1] };
                        lemma_ipv4_of_is_dotted(last, other);
                        assert(other == ip);
                        assert(front + ipv4_groups(ip) =~= g);
                    }
                }
                if groups_or_ipv4_of(words) == Some(g) {
                    let h = groups_of(words.drop_last())->0;
                    assert(g == h + ipv4_groups(ip));
                    assert(g.take(g.len() - 2) =~= h);
                    lemma_groups_of(words.drop_last(), h);
                }
            },
            None => {
                if are_groups_or_ipv4(words, g) && !are_groups(words, g) {
                    let (a, b, c, d) = choose|a: u8, b: u8, c: u8, d: u8|
                        words.last() == #[trigger] dotted(a, b, c, d) && g[g.len() - 2] == 256 * a + b
                            && g[g.len() - 1] == 256 * c + d;
                    lemma_ipv4_of_is_dotted(last, Ipv4Addr { octets: [a, b, c, d] });
                }
            },
        }
    }
}

/// Whether two colons stand at the place `j`.
pub open spec fn colons_at(s: Seq<u8>, j: int) -> bool {
    0 <= j && j + 1 < s.len() && s[j] == ':' as int && s[j + 1] == ':' as int
}

proof fn lemma_pieces(words: Seq<Seq<u8>>)
    requires
        are_words(words, ':' as u8),
        !(words.len() == 1 && words[0].len() == 0),
    ensures
        pieces(spelled(words, ':' as u8)) == words,
{
    let s = spelled(words, ':' as u8);
    if words.len() == 0 {
        assert(words =~= Seq::empty());
    } else {
        lemma_spelled_fields(words, ':' as u8);
        if words.len() > 1 {
            lemma_spelled_front(words, ':' as u8);
        }
        assert(s.len() > 0);
    }
}

proof fn lemma_from(g: Seq<u16>, ip: Ipv6Addr)
    requires
        g.len() == 8,
    ensures
        ipv6_from(g) == ip <==> g == ip.segments@,
{
    assert(ipv6_from(g).segments@ =~= g);
    if g == ip.segments@ {
        assert(ipv6_from(g).segments =~= ip.segments);
    }
}

/// A text without two colons in a row is read as an IPv6 address where its words are the
/// eight groups of the address, the last two of them as an IPv4 address or not.
pub proof fn law_ipv6_text_full(t: Seq<u8>, words: Seq<Seq<u8>>, of: Ipv6Addr)
    requires
        t == spelled(words, ':' as u8),
        words.len() > 0,
        are_words(words, ':' as u8),
        forall|j: int| !colons_at(t, j),
    ensures
        ipv6_of(t) == Some(of) <==> are_groups_or_ipv4(words, of.segments@),
{
    assert forall|j: int| 0 <= j < t.len() implies !gap_at(t, j) by {
        assert(!colons_at(t, j));
    }
    lemma_gap_is(t, t.len() as int);
    let g = of.segments@;
    if words.len() == 1 && words[0].len() == 0 {
        assert(t =~= Seq::empty());
        assert(!are_groups(words, g));
        assert(!are_groups_or_ipv4(words, g));
    } else {
        lemma_pieces(words);
        lemma_groups_or_ipv4_of(words, g);
        lemma_from(g, of);
        if let Some(h) = groups_or_ipv4_of(words) {
            if h.len() == 8 {
                lemma_from(h, of);
            }
        }
    }
}

/// A text with two colons in a row is read as an IPv6 address where the words in front of
/// the first such place and behind it are the first and the last groups of the address,
/// the last two of all as an IPv4 address or not, and between them there is at least one
/// group, and all of them are zero.
pub proof fn law_ipv6_text_gap(
    t: Seq<u8>,
    head: Seq<Seq<u8>>,
    tail: Seq<Seq<u8>>,
    of: Ipv6Addr,
)
    requires
        t == spelled(head, ':' as u8) + seq![':' as u8, ':' as u8] + spelled(tail, ':' as u8),
        are_words(head, ':' as u8),
        are_words(tail, ':' as u8),
        !(head.len() == 1 && head[0].len() == 0),
        !(tail.len() == 1 && tail[0].len() == 0),
        forall|j: int| 0 <= j < spelled(head, ':' as u8).len() ==> !colons_at(t, j),
    ensures
        ipv6_of(t) == Some(of) <==> exists|k: int|
            {
                &&& head.len() < k <= 8
                &&& are_groups(head, of.segments@.take(head.len() as int))
                &&& forall|i: int| head.len() <= i < k ==> of.segments@[i] == 0
                &&& are_groups_or_ipv4(tail, #[trigger] of.segments@.skip(k))
            },
{
    let n = spelled(head, ':' as u8).len() as int;
    let g = of.segments@;
    assert forall|j: int| 0 <= j < n implies !gap_at(t, j) by {
        assert(!colons_at(t, j));
    }
    assert(gap_at(t, n));
    lemma_gap_is(t, n);
    assert(t.take(n) =~= spelled(head, ':' as u8));
    assert(t.skip(n + 2) =~= spelled(tail, ':' as u8));
    lemma_pieces(head);
    lemma_pieces(tail);
    if ipv6_of(t) == Some(of) {
        let h = groups_of(head)->0;
        let e = groups_or_ipv4_of(tail)->0;
        let k = 8 - e.len();
        let all = h + zeros((8 - h.len() - e.len()) as nat) + e;
        lemma_from(all, of);
        lemma_groups_of(head, h);
        lemma_groups_or_ipv4_of(tail, e);
        assert(g.take(head.len() as int) =~= h);
        assert(g.skip(k) =~= e);
        assert(are_groups_or_ipv4(tail, g.skip(k)));
    }
    if exists|k: int|
        {
            &&& head.len() < k <= 8
            &&& are_groups(head, g.take(head.len() as int))
            &&& forall|i: int| head.len() <= i < k ==> g[i] == 0
            &&& are_groups_or_ipv4(tail, #[trigger] g.skip(k))
        } {
        let k = choose|k: int|
            {
                &&& head.len() < k <= 8
                &&& are_groups(head, g.take(head.len() as int))
                &&& forall|i: int| head.len() <= i < k ==> g[i] == 0
                &&& are_groups_or_ipv4(tail, #[trigger] g.skip(k))
            };
        let h = g.take(head.len() as int);
        let e = g.skip(k);
        lemma_groups_of(head, h);
        lemma_groups_or_ipv4_of(tail, e);
        let all = h + zeros((8 - h.len() - e.len()) as nat) + e;
        assert(all =~= g);
        lemma_from(all, of);
    }
}

/// Reading an IPv6 address gives what its text stands for, whatever the text.
pub proof fn law_ipv6_read(s: &[u8], ip: Option<Ipv6Addr>, of: Ipv6Addr)
    requires
        call_ensures(parse_ipv6, (s,), ip),
    ensures
        call_requires(parse_ipv6, (s,)),
        ip == ipv6_of(s@),
{
}

/// Every text has either no two colons in a row or a first place where they stand, and
/// words around it.
pub proof fn law_ipv6_text_forms(t: Seq<u8>)
    ensures
        (exists|words: Seq<Seq<u8>>|
            words.len() > 0 && are_words(words, ':' as u8) && t == #[trigger] spelled(words, ':' as u8))
            && (forall|j: int| !#[trigger] colons_at(t, j)) || exists|
            head: Seq<Seq<u8>>,
            tail: Seq<Seq<u8>>,
        |
            {
                &&& t == #[trigger] spelled(head, ':' as u8) + seq![':' as u8, ':' as u8]
                    + #[trigger] spelled(tail, ':' as u8)
                &&& are_words(head, ':' as u8) && are_words(tail, ':' as u8)
                &&& !(head.len() == 1 && head[0].len() == 0)
                &&& !(tail.len() == 1 && tail[0].len() == 0)
                &&& forall|j: int|
                    0 <= j < spelled(head, ':' as u8).len() ==> !#[trigger] colons_at(t, j)
            },
{
    crate::addr::v6::lemma_gap(t);
    let k = gap(t);
    assert forall|j: int| 0 <= j < k implies !#[trigger] colons_at(t, j) by {
        assert(!gap_at(t, j));
    }
    if k < t.len() {
        let head = pieces(t.take(k));
        let tail = pieces(t.skip(k + 2));
        lemma_fields_are_words(t.take(k), ':' as u8);
        lemma_fields_are_words(t.skip(k + 2), ':' as u8);
        assert(spelled(head, ':' as u8) =~= t.take(k));
        assert(spelled(tail, ':' as u8) =~= t.skip(k + 2));
        assert(t =~= spelled(head, ':' as u8) + seq![':' as u8, ':' as u8] + spelled(
            tail,
            ':' as u8,
        ));
        if head.len() == 1 && head[0].len() == 0 {
            assert(t.take(k).len() == 0);
        }
        if tail.len() == 1 && tail[0].len() == 0 {
            assert(t.skip(k + 2).len() == 0);
        }
    } else {
        lemma_fields_are_words(t, ':' as u8);
    }
}

/// Groups as they are written: hexadecimal numbers with a colon between each and the next.
pub open spec fn coloned(g: Seq<u16>) -> Seq<u8> {
    spelled(Seq::new(g.len(), |i: int| digits(g[i] as nat, 16)), ':' as u8)
}

/// Whether the groups from `i` on, `n` of them, are all zero.
pub open spec fn zero_groups(g: Seq<u16>, i: int, n: int) -> bool {
    0 <= i && 0 <= n && i + n <= g.len() && forall|j: int| i <= j < i + n ==> g[j] == 0
}

proof fn lemma_zero_run_at_least(g: Seq<u16>, i: int, n: int)
    requires
        zero_groups(g, i, n),
    ensures
        zero_run(g, i) >= n,
    decreases n,
{
    if n > 0 {
        lemma_zero_run_at_least(g, i + 1, n - 1);
    } else if 0 <= i < g.len() && g[i] == 0 {
        lemma_zero_run_not_negative(g, i);
    }
}

proof fn lemma_zero_run_not_negative(g: Seq<u16>, i: int)
    ensures
        zero_run(g, i) >= 0,
    decreases g.len() - i,
{
    if 0 <= i < g.len() && g[i] == 0 {
        lemma_zero_run_not_negative(g, i + 1);
    }
}

/// What is appended for an IPv6 address: an address that stands for an IPv4 address as
/// `::ffff:` and that; otherwise its groups, with `::` in place of the longest run of two
/// or more groups of zeros, the first of equally long ones.
pub proof fn law_ipv6_written(out: &mut Vec<u8>, ip: &Ipv6Addr, i: int, n: int)
    requires
        call_ensures(push_ipv6, (out, ip), ()),
    ensures
        ({
            let g = ip.segments@;
            let mapped = zero_groups(g, 0, 5) && g[5] == 0xffff;
            &&& mapped ==> final(out)@ == old(out)@ + ascii("::ffff:"@) + dotted(
                (g[6] / 256) as u8,
                (g[6] % 256) as u8,
                (g[7] / 256) as u8,
                (g[7] % 256) as u8,
            )
            &&& !mapped && 2 <= n && zero_groups(g, i, n) && (forall|j: int, m: int| #[trigger]
                zero_groups(g, j, m) ==> m < n || m == n && i <= j) ==> final(out)@ == old(out)@
                + coloned(g.take(i)) + ascii("::"@) + coloned(g.skip(i + n))
            &&& !mapped && (forall|j: int| !#[trigger] zero_groups(g, j, 2)) ==> final(out)@ == old(
                out,
            )@ + coloned(g)
        }),
{
    let g = ip.segments@;
    reveal_strlit("::ffff:");
    reveal_strlit("::");
    assert(ascii("::ffff:"@) =~= MAPPED_PREFIX@);
    assert(ascii("::"@) =~= seq![':' as u8, ':' as u8]);
    let mapped = zero_groups(g, 0, 5) && g[5] == 0xffff;
    assert(mapped <==> is_mapped(*ip)) by {
        if mapped {
            assert(g.take(6) =~= zeros(5).push(0xffff));
        }
        if is_mapped(*ip) {
            assert forall|j: int| 0 <= j < 6 implies g[j] == zeros(5).push(0xffff)[j] by {
                assert(g.take(6)[j] == g[j]);
            }
        }
    }
    lemma_ipv4_text_is_dotted(mapped_ipv4(*ip));
    lemma_coloned(g);
    let (start, len) = longest_run(g, 0);
    lemma_longest_run(g, 0);
    assert(zero_groups(g, start, len));
    if 2 <= n && zero_groups(g, i, n) && (forall|j: int, m: int| #[trigger]
        zero_groups(g, j, m) ==> m < n || m == n && i <= j) {
        lemma_zero_run_at_least(g, i, n);
        lemma_longest_run_is_longest(g, 0, i);
        assert(start == i && len == n);
        lemma_coloned(g.take(i));
        lemma_coloned(g.skip(i + n));
    }
    if forall|j: int| !#[trigger] zero_groups(g, j, 2) {
        if len >= 2 {
            assert(zero_groups(g, start, 2));
        }
    }
    if mapped {
        assert(final(out)@ =~= old(out)@ + ascii("::ffff:"@) + dotted(
            (g[6] / 256) as u8,
            (g[6] % 256) as u8,
            (g[7] / 256) as u8,
            (g[7] % 256) as u8,
        ));
    } else if len >= 2 {
        assert(final(out)@ =~= old(out)@ + groups_text(g.take(start)) + seq![':' as u8, ':' as u8]
            + groups_text(g.skip(start + len)));
    }
}

proof fn lemma_coloned(g: Seq<u16>)
    ensures
        coloned(g) == groups_text(g),
{
    let p = Seq::new(g.len(), |i: int| digits(g[i] as nat, 16));
    assert(p =~= group_texts(g));
    lemma_spelled_is_join(p, ':' as u8);
}

pub proof fn lemma_ip_text(addr: SocketAddr)
    ensures
        addr.ip_text() == match addr {
            SocketAddr::V4(a) => dotted(
                a.ip.octets[0],
                a.ip.octets[1],
                a.ip.octets[2],
                a.ip.octets[3],
            ),
            SocketAddr::V6(a) => ipv6_text(a.ip),
        },
{
    if let SocketAddr::V4(a) = addr {
        lemma_ipv4_text_is_dotted(a.ip);
    }
}

/// A socket address keeps the IP address and the port that it is made of, and nothing else.
pub proof fn law_socket_addr(ip: IpAddr, port: u16, addr: SocketAddr)
    requires
        call_ensures(SocketAddr::new, (ip, port), addr),
    ensures
        ip matches IpAddr::V4(ip) ==> addr == SocketAddr::V4(SocketAddrV4 { ip, port }),
        ip matches IpAddr::V6(ip) ==> addr == SocketAddr::V6(
            SocketAddrV6 { ip, port, flowinfo: 0, scope_id: 0 },
        ),
{
}

} // verus!
