//! IPv4 addresses as text.
use super::Ipv4Addr;
use crate::text::{
    digits, fields, join, lemma_digits_chars, lemma_fields_of_join, lemma_value_of_digits, push_digits,
    read_short_number, split_fields, value, views,
};
use vstd::prelude::*;

verus! {

/// `.`, which stands between the bytes of an address.
pub const DOT: u8 = 0x2e;

/// The byte that a decimal number of one to three digits stands for. A zero leads only
/// where it stands alone.
pub open spec fn octet_of(s: Seq<u8>) -> Option<u8> {
    if 1 <= s.len() <= 3 && (s.len() == 1 || s[0] != 0x30) {
        match value(s, 10) {
            Some(v) => if v <= 0xff {
                Some(v as u8)
            } else {
                None
            },
            None => None,
        }
    } else {
        None
    }
}

/// The address that a text stands for: four bytes with a dot between each and the next.
pub open spec fn ipv4_of(s: Seq<u8>) -> Option<Ipv4Addr> {
    let p = fields(s, DOT);
    if p.len() == 4 {
        match (octet_of(p[0]), octet_of(p[1]), octet_of(p[2]), octet_of(p[3])) {
            (Some(a), Some(b), Some(c), Some(d)) => Some(Ipv4Addr { octets: [a, b, c, d] }),
            _ => None,
        }
    } else {
        None
    }
}

/// The pieces of a written address.
pub open spec fn octet_texts(ip: Ipv4Addr) -> Seq<Seq<u8>> {
    Seq::new(4, |i: int| digits(ip.octets[i] as nat, 10))
}

/// How an address is written.
pub open spec fn ipv4_text(ip: Ipv4Addr) -> Seq<u8> {
    join(octet_texts(ip), DOT)
}

/// A byte is written with at most three digits, and no zero in front.
pub proof fn lemma_octet_round_trip(n: u8)
    ensures
        octet_of(digits(n as nat, 10)) == Some(n),
{
    lemma_value_of_digits(n as nat, 10);
    let s = digits(n as nat, 10);
    reveal_with_fuel(digits, 4);
    if n >= 100 {
        assert(s =~= seq![
            crate::text::digit_char((n / 10 / 10) as nat),
            crate::text::digit_char((n / 10 % 10) as nat),
            crate::text::digit_char((n % 10) as nat),
        ]);
    } else if n >= 10 {
        assert(s =~= seq![
            crate::text::digit_char((n / 10) as nat),
            crate::text::digit_char((n % 10) as nat),
        ]);
    }
}

/// An address is written in digits and dots.
pub proof fn lemma_ipv4_text_chars(ip: Ipv4Addr, b: u8)
    requires
        b != DOT,
        !(0x30 <= b <= 0x39),
        !(0x61 <= b <= 0x66),
    ensures
        !ipv4_text(ip).contains(b),
{
    let p = octet_texts(ip);
    assert forall|i: int| 0 <= i < p.len() implies !(#[trigger] p[i]).contains(b) by {
        lemma_digits_chars(ip.octets[i] as nat, 10);
    }
    crate::text::lemma_join_lacks(p, DOT, b);
}

/// Reading a written address gives the address.
pub proof fn lemma_ipv4_round_trip(ip: Ipv4Addr)
    ensures
        ipv4_of(ipv4_text(ip)) == Some(ip),
{
    let p = octet_texts(ip);
    assert forall|i: int| 0 <= i < p.len() implies !(#[trigger] p[i]).contains(DOT) by {
        lemma_digits_chars(ip.octets[i] as nat, 10);
    }
    lemma_fields_of_join(p, DOT);
    lemma_octet_round_trip(ip.octets[0]);
    lemma_octet_round_trip(ip.octets[1]);
    lemma_octet_round_trip(ip.octets[2]);
    lemma_octet_round_trip(ip.octets[3]);
    assert(ip.octets =~= [ip.octets[0], ip.octets[1], ip.octets[2], ip.octets[3]]);
}

fn parse_octet(s: &[u8]) -> (octet: Option<u8>)
    ensures
        octet == octet_of(s@),
{
    if s.len() < 1 || s.len() > 3 || (s.len() > 1 && s[0] == 0x30) {
        return None;
    }
    match read_short_number(s, 10) {
        Some(v) => if v <= 0xff {
            Some(v as u8)
        } else {
            None
        },
        None => None,
    }
}

/// Reads an address.
pub fn parse_ipv4(s: &[u8]) -> (ip: Option<Ipv4Addr>)
    ensures
        ip == ipv4_of(s@),
{
    let p = split_fields(s, DOT);
    assert(views(p@).len() == p@.len());
    if p.len() != 4 {
        return None;
    }
    assert(views(p@)[0] == p@[0]@ && views(p@)[1] == p@[1]@ && views(p@)[2] == p@[2]@ && views(
        p@,
    )[3] == p@[3]@);
    match (parse_octet(p[0]), parse_octet(p[1]), parse_octet(p[2]), parse_octet(p[3])) {
        (Some(a), Some(b), Some(c), Some(d)) => Some(Ipv4Addr { octets: [a, b, c, d] }),
        _ => None,
    }
}

/// Appends an address.
pub fn push_ipv4(out: &mut Vec<u8>, ip: &Ipv4Addr)
    ensures
        final(out)@ == old(out)@ + ipv4_text(*ip),
{
    push_digits(out, ip.octets[0] as u16, 10);
    out.push(DOT);
    push_digits(out, ip.octets[1] as u16, 10);
    out.push(DOT);
    push_digits(out, ip.octets[2] as u16, 10);
    out.push(DOT);
    push_digits(out, ip.octets[3] as u16, 10);
    proof {
        reveal_with_fuel(join, 4);
        let p = octet_texts(*ip);
        assert(p.skip(1).skip(1) =~= p.skip(2));
        assert(p.skip(2).skip(1) =~= p.skip(3));
        assert(out@ =~= old(out)@ + ipv4_text(*ip));
    }
}

} // verus!
