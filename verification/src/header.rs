//! The text of a version 1 header: one line of words, ended by CR LF.
use crate::addr::port::{parse_port, port_of, PortError};
use crate::addr::v4::{ipv4_of, parse_ipv4};
use crate::addr::v6::{ipv6_of, parse_ipv6};
use crate::addr::{AddrParseError, IpAddr, SocketAddr};
use crate::error::{is_proxy_error, proxy_error, Error};
use crate::text::{digits, join, push_all, push_digits, views};
use vstd::prelude::*;
use vstd::utf8::valid_utf8;

verus! {

/// The longest text that is searched for the end of a header.
pub const MAX_HEADER_SIZE: usize = 536;

/// The length of the shortest header.
pub const MIN_HEADER_SIZE: usize = 15;

pub const CR: u8 = 0x0d;

pub const LF: u8 = 0x0a;

pub const SPACE: u8 = 0x20;

/// `PROXY`
pub const PROXY: [u8; 5] = [0x50, 0x52, 0x4f, 0x58, 0x59];

/// `UNKNOWN`
pub const UNKNOWN: [u8; 7] = [0x55, 0x4e, 0x4b, 0x4e, 0x4f, 0x57, 0x4e];

/// `TCP4`
pub const TCP4: [u8; 4] = [0x54, 0x43, 0x50, 0x34];

/// `TCP6`
pub const TCP6: [u8; 4] = [0x54, 0x43, 0x50, 0x36];

/// The family that the addresses of a header belong to.
#[derive(Clone, Copy, Debug, PartialEq, Eq, Structural)]
pub enum Family {
    V4,
    V6,
}

/// What is wrong with the line of a header.
#[derive(Clone, Copy, Debug, PartialEq, Eq)]
pub enum HeaderFault {
    WrongTag,
    TooFewParts,
    Address(AddrParseError),
    Port(PortError),
    Invalid,
}

/// The place of the first CR LF in `s` at or behind the place `from`.
pub open spec fn eol_from(s: Seq<u8>, from: int) -> Option<int>
    decreases s.len() - from,
{
    if from + 1 >= s.len() {
        None
    } else if s[from] == CR && s[from + 1] == LF {
        Some(from)
    } else {
        eol_from(s, from + 1)
    }
}

/// What a buffer holds of a header whose end is searched for.
pub enum Framing {
    /// The end of the line has not come yet.
    More,
    /// The end of the line does not come.
    NoEol,
    /// The line ends at `eol` and is not UTF-8.
    NotUtf8 { eol: int },
    /// The line ends at `eol`.
    Line { eol: int },
}

/// What the buffer `s` holds of a header whose end is searched for from `from` on.
pub open spec fn framing(s: Seq<u8>, from: int) -> Framing {
    match eol_from(s, from) {
        Some(eol) => if valid_utf8(s.take(eol)) {
            Framing::Line { eol }
        } else {
            Framing::NotUtf8 { eol }
        },
        None => if s.len() < MAX_HEADER_SIZE {
            Framing::More
        } else {
            Framing::NoEol
        },
    }
}

/// Where the search goes on once there is more than `s`: the last byte may be the first of
/// the two that end a line.
pub open spec fn resume_at(s: Seq<u8>) -> int {
    if s.len() == 0 {
        0
    } else {
        s.len() - 1
    }
}

/// Where the search goes on after the buffer `s`, which was searched from `from` on.
pub open spec fn next_position(s: Seq<u8>, from: int) -> int {
    if framing(s, from) is More {
        resume_at(s)
    } else {
        from
    }
}

/// The IP address of the given family that a text stands for.
pub open spec fn ip_of(s: Seq<u8>, family: Family) -> Result<IpAddr, HeaderFault> {
    match family {
        Family::V4 => match ipv4_of(s) {
            Some(ip) => Ok(IpAddr::V4(ip)),
            None => Err(HeaderFault::Address(AddrParseError::Ipv4)),
        },
        Family::V6 => match ipv6_of(s) {
            Some(ip) => Ok(IpAddr::V6(ip)),
            None => Err(HeaderFault::Address(AddrParseError::Ipv6)),
        },
    }
}

/// The socket address that two words stand for, an address and a port.
pub open spec fn socket_addr_of(ip: Seq<u8>, port: Seq<u8>, family: Family) -> Result<
    SocketAddr,
    HeaderFault,
> {
    match (ip_of(ip, family), port_of(port)) {
        (Err(e), _) => Err(e),
        (_, Err(e)) => Err(HeaderFault::Port(e)),
        (Ok(ip), Ok(port)) => Ok(SocketAddr::spec_new(ip, port)),
    }
}

/// The addresses that the words of a header name: source and destination address, then
/// source and destination port. Of two faults that of the source counts.
pub open spec fn addresses_of(parts: Seq<Seq<u8>>, family: Family) -> Result<
    (SocketAddr, SocketAddr),
    HeaderFault,
> {
    match (
        socket_addr_of(parts[2], parts[4], family),
        socket_addr_of(parts[3], parts[5], family),
    ) {
        (Err(e), _) => Err(e),
        (_, Err(e)) => Err(e),
        (Ok(source), Ok(destination)) => Ok((source, destination)),
    }
}

/// Whether an error tells of a fault in a line that holds the text `line`.
pub open spec fn reports(e: Error, fault: HeaderFault, line: Seq<char>) -> bool {
    match fault {
        HeaderFault::WrongTag => is_proxy_error(e, "Protocol tag is wrong"@),
        HeaderFault::TooFewParts => is_proxy_error(e, "At least two parts are needed"@),
        HeaderFault::Address(a) => e == Error::IPAddress(a),
        HeaderFault::Port(p) => e == Error::Port(p),
        HeaderFault::Invalid => is_proxy_error(e, "Invalid proxy header v1: "@ + line),
    }
}

/// The words of a line without addresses.
pub open spec fn unknown_words() -> Seq<Seq<u8>> {
    seq![PROXY@, UNKNOWN@]
}

/// The words of a line with addresses.
pub open spec fn address_words(
    family: Family,
    source: SocketAddr,
    destination: SocketAddr,
) -> Seq<Seq<u8>> {
    seq![
        PROXY@,
        match family {
            Family::V4 => TCP4@,
            Family::V6 => TCP6@,
        },
        source.ip_text(),
        destination.ip_text(),
        digits(source.spec_port() as nat, 10),
        digits(destination.spec_port() as nat, 10),
    ]
}

/// A line of words.
pub open spec fn line_of(words: Seq<Seq<u8>>) -> Seq<u8> {
    join(words, SPACE) + seq![CR, LF]
}

/// What the search for the end of a line finds.
pub proof fn lemma_eol_from(s: Seq<u8>, from: int)
    requires
        0 <= from,
    ensures
        eol_from(s, from) matches Some(e) ==> from <= e && e + 1 < s.len() && s[e] == CR && s[e + 1]
            == LF,
    decreases s.len() - from,
{
    if from + 1 < s.len() && !(s[from] == CR && s[from + 1] == LF) {
        lemma_eol_from(s, from + 1);
    }
}

/// The search passes over what holds no end of a line.
pub proof fn lemma_eol_skip(s: Seq<u8>, from: int, to: int)
    requires
        0 <= from <= to < s.len(),
        forall|j: int| from <= j < to ==> !(#[trigger] eol_at(s, j)),
    ensures
        eol_from(s, from) == eol_from(s, to),
    decreases to - from,
{
    if from < to {
        assert(!eol_at(s, from));
        lemma_eol_skip(s, from + 1, to);
    }
}

/// Whether a CR LF stands at the place `j`.
pub open spec fn eol_at(s: Seq<u8>, j: int) -> bool {
    0 <= j && j + 1 < s.len() && s[j] == CR && s[j + 1] == LF
}

/// Before what the search finds there is no end of a line; where it finds nothing there
/// is none at all.
pub proof fn lemma_eol_first(s: Seq<u8>, from: int, j: int)
    requires
        0 <= from <= j,
        eol_from(s, from) matches Some(e) ==> j < e,
    ensures
        !eol_at(s, j),
    decreases j - from,
{
    if from < j && from + 1 < s.len() {
        lemma_eol_first(s, from + 1, j);
    }
}

/// Finds the first CR LF at or behind the place `from`.
pub fn find_eol(s: &[u8], from: usize) -> (eol: Option<usize>)
    requires
        from <= s@.len(),
    ensures
        eol is Some <==> eol_from(s@, from as int) is Some,
        eol matches Some(e) ==> eol_from(s@, from as int) == Some(e as int) && e + 1 < s@.len(),
{
    let mut i: usize = from;
    while i < s.len()
        invariant
            from <= i <= s@.len(),
            eol_from(s@, from as int) == eol_from(s@, i as int),
        decreases s@.len() - i,
    {
        if s.len() - i >= 2 && s[i] == CR && s[i + 1] == LF {
            return Some(i);
        }
        i += 1;
    }
    None
}

fn parse_ip(s: &[u8], family: Family) -> (ip: Result<IpAddr, HeaderFault>)
    ensures
        ip == ip_of(s@, family),
{
    match family {
        Family::V4 => match parse_ipv4(s) {
            Some(ip) => Ok(IpAddr::V4(ip)),
            None => Err(HeaderFault::Address(AddrParseError::Ipv4)),
        },
        Family::V6 => match parse_ipv6(s) {
            Some(ip) => Ok(IpAddr::V6(ip)),
            None => Err(HeaderFault::Address(AddrParseError::Ipv6)),
        },
    }
}

/// Reads the addresses that the words of a header name.
pub fn parse_addresses(parts: &Vec<&[u8]>, family: Family) -> (addresses: Result<
    (SocketAddr, SocketAddr),
    HeaderFault,
>)
    requires
        parts@.len() >= 6,
    ensures
        addresses == addresses_of(views(parts@), family),
{
    let ghost p = views(parts@);
    assert(p[2] == parts@[2]@ && p[3] == parts@[3]@ && p[4] == parts@[4]@ && p[5] == parts@[5]@);
    let source_ip = match parse_ip(parts[2], family) {
        Ok(ip) => ip,
        Err(e) => {
            return Err(e);
        },
    };
    let source_port: u16 = match parse_port(parts[4]) {
        Ok(port) => port,
        Err(e) => {
            return Err(HeaderFault::Port(e));
        },
    };
    let destination_ip = match parse_ip(parts[3], family) {
        Ok(ip) => ip,
        Err(e) => {
            return Err(e);
        },
    };
    let destination_port: u16 = match parse_port(parts[5]) {
        Ok(port) => port,
        Err(e) => {
            return Err(HeaderFault::Port(e));
        },
    };
    Ok((
        SocketAddr::new(source_ip, source_port),
        SocketAddr::new(destination_ip, destination_port),
    ))
}

/// The error that tells of a fault.
pub(crate) fn fault_error(fault: HeaderFault, line: &str) -> (e: Error)
    ensures
        reports(e, fault, line@),
{
    match fault {
        HeaderFault::WrongTag => proxy_error("Protocol tag is wrong"),
        HeaderFault::TooFewParts => proxy_error("At least two parts are needed"),
        HeaderFault::Address(a) => Error::IPAddress(a),
        HeaderFault::Port(p) => Error::Port(p),
        HeaderFault::Invalid => Error::Proxy("Invalid proxy header v1: ".to_owned().concat(line)),
    }
}

/// The line without addresses.
pub fn unknown_line() -> (line: Vec<u8>)
    ensures
        line@ == line_of(unknown_words()),
{
    let mut line: Vec<u8> = Vec::new();
    push_all(&mut line, &PROXY);
    line.push(SPACE);
    push_all(&mut line, &UNKNOWN);
    line.push(CR);
    line.push(LF);
    proof {
        reveal_with_fuel(join, 2);
        assert(unknown_words().skip(1) =~= seq![UNKNOWN@]);
        assert(line@ =~= line_of(unknown_words()));
    }
    line
}

/// The line with addresses.
pub fn address_line(family: Family, source: &SocketAddr, destination: &SocketAddr) -> (line: Vec<
    u8,
>)
    ensures
        line@ == line_of(address_words(family, *source, *destination)),
{
    let mut line: Vec<u8> = Vec::new();
    push_all(&mut line, &PROXY);
    line.push(SPACE);
    match family {
        Family::V4 => push_all(&mut line, &TCP4),
        Family::V6 => push_all(&mut line, &TCP6),
    }
    line.push(SPACE);
    source.push_ip(&mut line);
    line.push(SPACE);
    destination.push_ip(&mut line);
    line.push(SPACE);
    push_digits(&mut line, source.port(), 10);
    line.push(SPACE);
    push_digits(&mut line, destination.port(), 10);
    line.push(CR);
    line.push(LF);
    proof {
        let w = address_words(family, *source, *destination);
        lemma_join_six(w, SPACE);
        assert(line@ =~= line_of(w));
    }
    line
}

/// Six words joined.
pub proof fn lemma_join_six(w: Seq<Seq<u8>>, sep: u8)
    requires
        w.len() == 6,
    ensures
        join(w, sep) == w[0] + seq![sep] + w[1] + seq![sep] + w[2] + seq![sep] + w[3] + seq![sep]
            + w[4] + seq![sep] + w[5],
{
    reveal_with_fuel(join, 7);
    assert(w.skip(1).skip(1) =~= w.skip(2));
    assert(w.skip(2).skip(1) =~= w.skip(3));
    assert(w.skip(3).skip(1) =~= w.skip(4));
    assert(w.skip(4).skip(1) =~= w.skip(5));
    assert(join(w, sep) =~= w[0] + seq![sep] + w[1] + seq![sep] + w[2] + seq![sep] + w[3]
        + seq![sep] + w[4] + seq![sep] + w[5]);
}

} // verus!
