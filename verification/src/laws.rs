//! What holds of headers as a whole.
use crate::accept::{accepted, calls_for, leaves, stage, AcceptorView, Action, Stage, V1_TAG};
use crate::addr::port::lemma_port_round_trip;
use crate::addr::v4::{ipv4_text, lemma_ipv4_round_trip, lemma_ipv4_text_chars, octet_texts};
use crate::addr::v6::{
    group_texts, groups_text, ipv6_text, is_mapped, lemma_ipv6_round_trip, lemma_ipv6_text_chars,
    lemma_longest_run, longest_run, mapped_ipv4,
};
use crate::addr::{Ipv4Addr, Ipv6Addr, SocketAddr, SocketAddrV4, SocketAddrV6};
use crate::codec::v2::proto::{
    header_bytes, header_of, ip4_bytes, ip4_of, ip6_bytes, ip6_of, segments_bytes, segments_of,
    u16_bytes, u16_of, Header, HeaderV2Fault, SIZE_HEADER,
};
use crate::codec::v2::{v2_addresses, v2_bytes, v2_step, Found, Pending, Step, SIGNATURE};
use crate::codec::{v1_answers, v1_info, v1_rest, v1_text, ProxyInfo, SocketType};
use crate::error::Error;
use crate::header::{
    address_words, addresses_of, eol_at, eol_from, framing, lemma_eol_first, lemma_eol_from,
    lemma_eol_skip, lemma_join_six, line_of, next_position, resume_at, socket_addr_of,
    unknown_words, Family, Framing, HeaderFault, CR, LF, MAX_HEADER_SIZE, MIN_HEADER_SIZE, PROXY,
    SPACE, TCP4, TCP6, UNKNOWN,
};
use crate::proxy::line_info;
use crate::stream::handed_out;
use crate::text::{digits, fields, join, lemma_digits_chars, lemma_fields_of_join, lemma_join_lacks};
use vstd::prelude::*;
use vstd::utf8::{
    is_leading_byte_width_1, partial_valid_utf8, partial_valid_utf8_extend_ascii_block,
};

pub mod address;
pub mod binary;
pub mod connection;
pub mod line;
pub mod number;
pub mod reading;
pub mod words;

verus! {

/// Whether a socket address is an IP address and a port alone, as every IPv4 one is.
pub open spec fn is_bare(addr: SocketAddr) -> bool {
    match addr {
        SocketAddr::V4(_) => true,
        SocketAddr::V6(a) => a.flowinfo == 0 && a.scope_id == 0,
    }
}

/// Whether a header can tell all of `info`: the addresses are those that the type of
/// transport calls for, without flow labels and scopes, for which a header has no room.
pub open spec fn is_plain(info: ProxyInfo) -> bool {
    match (info.socket_type, info.original_source, info.original_destination) {
        (SocketType::Ipv4, Some(SocketAddr::V4(_)), Some(SocketAddr::V4(_))) => true,
        (SocketType::Ipv6, Some(SocketAddr::V6(a)), Some(SocketAddr::V6(b))) => {
            &&& a.flowinfo == 0 && a.scope_id == 0
            &&& b.flowinfo == 0 && b.scope_id == 0
        },
        (SocketType::Unknown, None, None) => true,
        _ => false,
    }
}

/// Bytes that no word of a header holds.
spec fn is_foreign(b: u8) -> bool {
    b == SPACE || b == CR || b > 0x7f
}

proof fn lemma_ip_text_lacks(addr: SocketAddr, b: u8)
    requires
        is_foreign(b),
    ensures
        !addr.ip_text().contains(b),
{
    match addr {
        SocketAddr::V4(a) => lemma_ipv4_text_chars(a.ip, b),
        SocketAddr::V6(a) => lemma_ipv6_text_chars(a.ip, b),
    }
}

proof fn lemma_keywords_lack(b: u8)
    requires
        is_foreign(b),
    ensures
        !PROXY@.contains(b),
        !UNKNOWN@.contains(b),
        !TCP4@.contains(b),
        !TCP6@.contains(b),
{
    assert(PROXY@ =~= seq![0x50u8, 0x52u8, 0x4fu8, 0x58u8, 0x59u8]);
    assert(UNKNOWN@ =~= seq![0x55u8, 0x4eu8, 0x4bu8, 0x4eu8, 0x4fu8, 0x57u8, 0x4eu8]);
    assert(TCP4@ =~= seq![0x54u8, 0x43u8, 0x50u8, 0x34u8]);
    assert(TCP6@ =~= seq![0x54u8, 0x43u8, 0x50u8, 0x36u8]);
}

proof fn lemma_words_lack(family: Family, source: SocketAddr, destination: SocketAddr, b: u8)
    requires
        is_foreign(b),
    ensures
        forall|i: int|
            0 <= i < 6 ==> !(#[trigger] address_words(family, source, destination)[i]).contains(b),
        forall|i: int| 0 <= i < 2 ==> !(#[trigger] unknown_words()[i]).contains(b),
{
    lemma_keywords_lack(b);
    lemma_ip_text_lacks(source, b);
    lemma_ip_text_lacks(destination, b);
    lemma_digits_chars(source.spec_port() as nat, 10);
    lemma_digits_chars(destination.spec_port() as nat, 10);
    let w = address_words(family, source, destination);
    assert(!w[4].contains(b));
    assert(!w[5].contains(b));
}

/// A line of words without foreign bytes is found as it was written.
proof fn lemma_line_framing(words: Seq<Seq<u8>>, rest: Seq<u8>)
    requires
        words.len() > 0,
        forall|i: int, b: u8|
            0 <= i < words.len() && is_foreign(b) ==> !(#[trigger] words[i].contains(b)),
    ensures
        framing(line_of(words) + rest, 0) == (Framing::Line { eol: join(words, SPACE).len() as int }),
        (line_of(words) + rest).take(join(words, SPACE).len() as int) == join(words, SPACE),
        (line_of(words) + rest).skip(join(words, SPACE).len() + 2int) == rest,
        fields(join(words, SPACE), SPACE) == words,
{
    let line = join(words, SPACE);
    let s = line_of(words) + rest;
    let n = line.len() as int;
    assert forall|i: int| 0 <= i < words.len() implies !(#[trigger] words[i]).contains(CR) by {
        assert(is_foreign(CR));
    }
    lemma_join_lacks(words, SPACE, CR);
    assert forall|j: int| 0 <= j < n implies !(#[trigger] eol_at(s, j)) by {
        assert(s[j] == line[j]);
        assert(line.contains(line[j]));
    }
    lemma_eol_skip(s, 0, n);
    assert(s[n] == CR && s[n + 1] == LF);
    assert(s.take(n) =~= line);
    assert(s.skip(n + 2) =~= rest);
    assert forall|j: int| 0 <= j < n implies #[trigger] is_leading_byte_width_1(line[j]) by {
        let b = line[j];
        if b > 0x7f {
            assert forall|i: int| 0 <= i < words.len() implies !(#[trigger] words[i]).contains(b) by {
                assert(is_foreign(b));
            }
            lemma_join_lacks(words, SPACE, b);
            assert(line.contains(b));
        }
    }
    assert(line.subrange(0, 0) =~= Seq::empty());
    assert(partial_valid_utf8(line, 0));
    partial_valid_utf8_extend_ascii_block(line, 0, n);
    assert(line.subrange(0, n) =~= line);
    assert forall|i: int| 0 <= i < words.len() implies !(#[trigger] words[i]).contains(SPACE) by {
        assert(is_foreign(SPACE));
    }
    lemma_fields_of_join(words, SPACE);
}

proof fn lemma_socket_addr_round_trip(addr: SocketAddr, family: Family)
    requires
        is_bare(addr),
        family == Family::V4 <==> addr is V4,
    ensures
        socket_addr_of(addr.ip_text(), digits(addr.spec_port() as nat, 10), family) == Ok::<
            SocketAddr,
            HeaderFault,
        >(addr),
{
    lemma_port_round_trip(addr.spec_port());
    match addr {
        SocketAddr::V4(a) => lemma_ipv4_round_trip(a.ip),
        SocketAddr::V6(a) => lemma_ipv6_round_trip(a.ip),
    }
}

/// The words of a line with addresses tell those addresses.
proof fn lemma_address_words_info(family: Family, source: SocketAddr, destination: SocketAddr)
    requires
        is_bare(source),
        is_bare(destination),
        family == Family::V4 <==> source is V4,
        family == Family::V4 <==> destination is V4,
        fields(join(address_words(family, source, destination), SPACE), SPACE) == address_words(
            family,
            source,
            destination,
        ),
    ensures
        v1_info(join(address_words(family, source, destination), SPACE)) == Ok::<
            ProxyInfo,
            HeaderFault,
        >(ProxyInfo::known(family, source, destination)),
{
    let w = address_words(family, source, destination);
    lemma_socket_addr_round_trip(source, family);
    lemma_socket_addr_round_trip(destination, family);
    assert(w[0] == PROXY@);
    assert(w[2] == source.ip_text());
    assert(w[3] == destination.ip_text());
    assert(addresses_of(w, family) == Ok::<(SocketAddr, SocketAddr), HeaderFault>(
        (source, destination),
    ));
    assert(UNKNOWN@.len() == 7 && TCP4@.len() == 4 && TCP6@.len() == 4);
    assert(TCP4@[3] == 0x34 && TCP6@[3] == 0x36);
}

/// A line with addresses is found as it was written.
proof fn lemma_address_line(
    family: Family,
    source: SocketAddr,
    destination: SocketAddr,
    rest: Seq<u8>,
)
    ensures
        ({
            let w = address_words(family, source, destination);
            let n = join(w, SPACE).len() as int;
            &&& framing(line_of(w) + rest, 0) == (Framing::Line { eol: n })
            &&& (line_of(w) + rest).take(n) == join(w, SPACE)
            &&& (line_of(w) + rest).skip(n + 2) == rest
            &&& fields(join(w, SPACE), SPACE) == w
        }),
{
    let w = address_words(family, source, destination);
    assert forall|i: int, b: u8| 0 <= i < w.len() && is_foreign(b) implies !(
    #[trigger] w[i].contains(b)) by {
        lemma_words_lack(family, source, destination, b);
    }
    lemma_line_framing(w, rest);
}

/// A line without addresses is found as it was written, and tells that nothing is known.
proof fn lemma_unknown_line(rest: Seq<u8>)
    ensures
        ({
            let w = unknown_words();
            let n = join(w, SPACE).len() as int;
            &&& framing(line_of(w) + rest, 0) == (Framing::Line { eol: n })
            &&& (line_of(w) + rest).take(n) == join(w, SPACE)
            &&& (line_of(w) + rest).skip(n + 2) == rest
            &&& fields(join(w, SPACE), SPACE) == w
            &&& v1_info(join(w, SPACE)) == Ok::<ProxyInfo, HeaderFault>(ProxyInfo::unknown())
        }),
{
    let w = unknown_words();
    assert forall|i: int, b: u8| 0 <= i < w.len() && is_foreign(b) implies !(
    #[trigger] w[i].contains(b)) by {
        lemma_keywords_lack(b);
    }
    lemma_line_framing(w, rest);
}

#[verifier::spinoff_prover]
#[verifier::rlimit(40)]
proof fn lemma_v1_known(
    family: Family,
    source: SocketAddr,
    destination: SocketAddr,
    rest: Seq<u8>,
)
    requires
        is_bare(source),
        is_bare(destination),
        family == Family::V4 <==> source is V4,
        family == Family::V4 <==> destination is V4,
    ensures
        reads_back(ProxyInfo::known(family, source, destination), rest),
{
    let info = ProxyInfo::known(family, source, destination);
    let w = address_words(family, source, destination);
    let s = v1_text(info) + rest;
    let n = join(w, SPACE).len() as int;
    assert(v1_text(info) == line_of(w));
    assert(v1_text(info).len() == n + 2);
    lemma_address_line(family, source, destination, rest);
    lemma_address_words_info(family, source, destination);
    assert(framing(s, 0) == (Framing::Line { eol: n }));
    assert(s.take(n) == join(w, SPACE));
    assert(v1_info(s.take(n)) == Ok::<ProxyInfo, HeaderFault>(info));
    assert(s.skip(n + 2) == rest);
    assert(v1_rest(s, framing(s, 0)) == rest);
}

proof fn lemma_v1_unknown(rest: Seq<u8>)
    ensures
        reads_back(ProxyInfo::unknown(), rest),
{
    assert(v1_text(ProxyInfo::unknown()) == line_of(unknown_words()));
    lemma_unknown_line(rest);
}

/// Whether a version 1 header for `info` in front of `rest` is read as what it is.
spec fn reads_back(info: ProxyInfo, rest: Seq<u8>) -> bool {
    let s = v1_text(info) + rest;
    let n = v1_text(info).len() - 2;
    &&& framing(s, 0) == (Framing::Line { eol: n })
    &&& v1_info(s.take(n)) == Ok::<ProxyInfo, HeaderFault>(info)
    &&& v1_rest(s, framing(s, 0)) == rest
}

/// What a version 1 header was written for is read back from it, and what follows the
/// header stays in the buffer.
pub proof fn law_v1_round_trip(info: ProxyInfo, rest: Seq<u8>)
    requires
        is_plain(info),
    ensures
        forall|answer: Result<Option<ProxyInfo>, Error>| #[trigger]
            v1_answers(
                v1_text(info) + rest,
                framing(v1_text(info) + rest, 0),
                answer,
            ) ==> answer == Ok::<
                Option<ProxyInfo>,
                Error,
            >(Some(info)),
        v1_rest(v1_text(info) + rest, framing(v1_text(info) + rest, 0)) == rest,
{
    match (info.original_source, info.original_destination) {
        (Some(source), Some(destination)) => {
            let family = if source is V4 {
                Family::V4
            } else {
                Family::V6
            };
            lemma_v1_known(family, source, destination, rest);
        },
        _ => {
            lemma_v1_unknown(rest);
        },
    }
}

/// A version 1 header may come in pieces: what has come without its end is kept, and
/// decoding goes on with what comes next as if all had come at once.
pub proof fn law_v1_pieces(s: Seq<u8>, from: int, t: Seq<u8>)
    requires
        0 <= from <= resume_at(s),
        framing(s, from) is More,
    ensures
        v1_rest(s, framing(s, from)) == s,
        framing(s + t, next_position(s, from)) == framing(s + t, from),
{
    let all = s + t;
    if s.len() > 0 && all.len() > 0 {
        assert forall|j: int| from <= j < s.len() - 1 implies !(#[trigger] eol_at(all, j)) by {
            lemma_eol_first(s, from, j);
            assert(all[j] == s[j] && all[j + 1] == s[j + 1]);
        }
        lemma_eol_skip(all, from, s.len() - 1);
    }
}

/// Of a version 1 header whose end stands within the first bytes that are searched, no
/// part without the whole end is refused.
pub proof fn law_v1_part_of_header(s: Seq<u8>, n: int, from: int)
    requires
        eol_from(s, 0) matches Some(e) && e + 2 <= MAX_HEADER_SIZE && n < e + 2,
        0 <= n <= s.len(),
        0 <= from,
    ensures
        framing(s.take(n), from) is More,
{
    let e = eol_from(s, 0)->0;
    let part = s.take(n);
    lemma_eol_from(s, 0);
    lemma_eol_from(part, from);
    if let Some(k) = eol_from(part, from) {
        assert(eol_at(s, k)) by {
            assert(part[k] == s[k] && part[k + 1] == s[k + 1]);
        }
        lemma_eol_first(s, 0, k);
    }
}

/// The pieces one behind the other.
pub open spec fn joined(pieces: Seq<Seq<u8>>) -> Seq<u8>
    decreases pieces.len(),
{
    if pieces.len() == 0 {
        Seq::empty()
    } else {
        joined(pieces.drop_last()) + pieces.last()
    }
}

/// Where a version 1 codec goes on that has decoded after each of the pieces.
pub open spec fn v1_position(pieces: Seq<Seq<u8>>) -> int
    decreases pieces.len(),
{
    if pieces.len() == 0 {
        0
    } else {
        next_position(joined(pieces), v1_position(pieces.drop_last()))
    }
}

/// Whether a version 1 codec that decodes after each of the pieces asks for more each time.
pub open spec fn v1_waits(pieces: Seq<Seq<u8>>) -> bool
    decreases pieces.len(),
{
    pieces.len() == 0 || {
        &&& v1_waits(pieces.drop_last())
        &&& framing(joined(pieces), v1_position(pieces.drop_last())) is More
    }
}

proof fn lemma_v1_position(pieces: Seq<Seq<u8>>)
    requires
        v1_waits(pieces),
    ensures
        v1_position(pieces) == resume_at(joined(pieces)),
{
}

/// However many pieces a version 1 header comes in, the last of them gives what all of
/// them at once would give.
pub proof fn law_v1_many_pieces(pieces: Seq<Seq<u8>>, last: Seq<u8>)
    requires
        v1_waits(pieces),
    ensures
        framing(joined(pieces) + last, v1_position(pieces)) == framing(joined(pieces) + last, 0),
    decreases pieces.len(),
{
    if pieces.len() > 0 {
        let front = pieces.drop_last();
        let s = joined(pieces);
        lemma_v1_position(front);
        lemma_v1_position(pieces);
        law_v1_pieces(s, v1_position(front), last);
        law_v1_many_pieces(front, pieces.last() + last);
        assert(joined(front) + (pieces.last() + last) =~= s + last);
    }
}

/// A version 1 header whose end stands within the first bytes that are searched may come
/// in any pieces: the codec asks for more until the end has come, and then gives what it
/// would have given for all at once.
pub proof fn law_v1_any_pieces(pieces: Seq<Seq<u8>>, last: Seq<u8>)
    requires
        eol_from(joined(pieces) + last, 0) matches Some(e) && e + 2 <= MAX_HEADER_SIZE
            && joined(pieces).len() < e + 2,
    ensures
        v1_waits(pieces),
        framing(joined(pieces) + last, v1_position(pieces)) == framing(joined(pieces) + last, 0),
    decreases pieces.len(),
{
    lemma_any_pieces_wait(pieces, last);
    law_v1_many_pieces(pieces, last);
}

proof fn lemma_any_pieces_wait(pieces: Seq<Seq<u8>>, last: Seq<u8>)
    requires
        eol_from(joined(pieces) + last, 0) matches Some(e) && e + 2 <= MAX_HEADER_SIZE
            && joined(pieces).len() < e + 2,
    ensures
        v1_waits(pieces),
    decreases pieces.len(),
{
    if pieces.len() > 0 {
        let front = pieces.drop_last();
        let s = joined(pieces);
        let all = s + last;
        assert(joined(front) + (pieces.last() + last) =~= all);
        lemma_any_pieces_wait(front, pieces.last() + last);
        lemma_v1_position(front);
        assert(all.take(s.len() as int) =~= s);
        law_v1_part_of_header(all, s.len() as int, v1_position(front));
    }
}

proof fn lemma_digits_len(n: nat)
    requires
        n <= 0xffff,
    ensures
        1 <= digits(n, 10).len() <= 5,
        n <= 0xff ==> digits(n, 10).len() <= 3,
        1 <= digits(n, 16).len() <= 4,
{
    reveal_with_fuel(digits, 6);
    assert(n / 10 / 10 / 10 / 10 < 10);
    assert(n <= 0xff ==> n / 10 / 10 < 10);
    assert(n / 16 / 16 / 16 < 16);
}

proof fn lemma_ipv4_text_len(ip: Ipv4Addr)
    ensures
        7 <= ipv4_text(ip).len() <= 15,
{
    let p = octet_texts(ip);
    reveal_with_fuel(join, 5);
    assert(p.skip(1).skip(1) =~= p.skip(2));
    assert(p.skip(2).skip(1) =~= p.skip(3));
    lemma_digits_len(ip.octets[0] as nat);
    lemma_digits_len(ip.octets[1] as nat);
    lemma_digits_len(ip.octets[2] as nat);
    lemma_digits_len(ip.octets[3] as nat);
    assert(ipv4_text(ip).len() == p[0].len() + p[1].len() + p[2].len() + p[3].len() + 3);
}

proof fn lemma_groups_text_len(g: Seq<u16>)
    ensures
        groups_text(g).len() <= 5 * g.len(),
        g.len() > 0 ==> 2 * g.len() - 1 <= groups_text(g).len() <= 5 * g.len() - 1,
    decreases g.len(),
{
    if g.len() > 0 {
        lemma_digits_len(g[0] as nat);
        lemma_groups_text_len(g.skip(1));
        assert(group_texts(g).skip(1) =~= group_texts(g.skip(1)));
        assert(group_texts(g)[0] == digits(g[0] as nat, 16));
    }
}

proof fn lemma_ipv6_text_len(ip: Ipv6Addr)
    ensures
        2 <= ipv6_text(ip).len() <= 39,
{
    let g = ip.segments@;
    let (start, n) = longest_run(g, 0);
    lemma_longest_run(g, 0);
    lemma_groups_text_len(g);
    if is_mapped(ip) {
        lemma_ipv4_text_len(mapped_ipv4(ip));
    } else if n >= 2 {
        lemma_groups_text_len(g.take(start));
        lemma_groups_text_len(g.skip(start + n));
    }
}

proof fn lemma_ip_text_len(addr: SocketAddr)
    ensures
        2 <= addr.ip_text().len() <= 39,
{
    match addr {
        SocketAddr::V4(a) => lemma_ipv4_text_len(a.ip),
        SocketAddr::V6(a) => lemma_ipv6_text_len(a.ip),
    }
}

/// Every version 1 header that is written is at least as long as the shortest and well
/// within the bytes that are searched for its end.
pub proof fn law_v1_length(info: ProxyInfo)
    ensures
        MIN_HEADER_SIZE <= v1_text(info).len() <= 104 < MAX_HEADER_SIZE,
{
    let family = if info.socket_type is Ipv4 {
        Family::V4
    } else {
        Family::V6
    };
    let source = info.original_source->0;
    let destination = info.original_destination->0;
    let w = address_words(family, source, destination);
    lemma_ip_text_len(source);
    lemma_ip_text_len(destination);
    lemma_digits_len(source.spec_port() as nat);
    lemma_digits_len(destination.spec_port() as nat);
    lemma_join_six(w, SPACE);
    assert(w[0].len() == 5 && w[1].len() == 4);
    reveal_with_fuel(join, 2);
    assert(unknown_words().skip(1) =~= seq![UNKNOWN@]);
}

/// What a version 2 header was written for is read back from it, and what follows the
/// header stays in the buffer.
pub proof fn law_v2_round_trip(info: ProxyInfo, rest: Seq<u8>)
    requires
        is_plain(info),
    ensures
        v2_step(None, v2_bytes(info) + rest) == (Step {
            found: Found::Info(info),
            pending: None,
            rest,
        }),
{
    let s = v2_bytes(info) + rest;
    let h = Header::spec_new(info.socket_type);
    assert(s.take(SIZE_HEADER as int) =~= header_bytes(h));
    assert(header_bytes(h).take(12) =~= SIGNATURE@);
    assert(header_of(header_bytes(h)) == Ok::<Header, HeaderV2Fault>(h));
    let body = s.skip(SIZE_HEADER as int);
    let a = v2_addresses(info)->0;
    assert(body =~= a + rest);
    assert(a.len() == h.len);
    assert(body.take(h.len as int) =~= a);
    assert(body.skip(h.len as int) =~= rest);
    match (info.original_source, info.original_destination) {
        (Some(SocketAddr::V4(source)), Some(SocketAddr::V4(destination))) => {
            lemma_ip4_round_trip(source, destination);
        },
        (Some(SocketAddr::V6(source)), Some(SocketAddr::V6(destination))) => {
            lemma_ip6_round_trip(source, destination);
        },
        _ => {},
    }
}

proof fn lemma_u16_round_trip(n: u16)
    ensures
        u16_of(u16_bytes(n)[0], u16_bytes(n)[1]) == n,
{
}

proof fn lemma_ip4_round_trip(source: SocketAddrV4, destination: SocketAddrV4)
    ensures
        ip4_of(ip4_bytes(source, destination)) == Some((source, destination)),
{
    let s = ip4_bytes(source, destination);
    lemma_u16_round_trip(source.port);
    lemma_u16_round_trip(destination.port);
    assert(source.ip.octets =~= [s[0], s[1], s[2], s[3]]);
    assert(destination.ip.octets =~= [s[4], s[5], s[6], s[7]]);
}

proof fn lemma_segments_round_trip(ip: Ipv6Addr, s: Seq<u8>, at: int)
    requires
        0 <= at,
        at + 16 <= s.len(),
        s.subrange(at, at + 16) == segments_bytes(ip),
    ensures
        segments_of(s, at) == ip,
{
    assert forall|i: int| 0 <= i < 8 implies u16_of(
        #[trigger] s[at + 2 * i],
        s[at + 2 * i + 1],
    ) == ip.segments@[i] by {
        assert(s.subrange(at, at + 16)[2 * i] == s[at + 2 * i]);
        assert(s.subrange(at, at + 16)[2 * i + 1] == s[at + 2 * i + 1]);
        lemma_u16_round_trip(ip.segments[i]);
    }
    assert(s[at + 2 * 0] == s[at]);
    assert(s[at + 2 * 1] == s[at + 2]);
    assert(s[at + 2 * 2] == s[at + 4]);
    assert(s[at + 2 * 3] == s[at + 6]);
    assert(s[at + 2 * 4] == s[at + 8]);
    assert(s[at + 2 * 5] == s[at + 10]);
    assert(s[at + 2 * 6] == s[at + 12]);
    assert(s[at + 2 * 7] == s[at + 14]);
    assert(segments_of(s, at).segments =~= ip.segments);
}

proof fn lemma_ip6_round_trip(source: SocketAddrV6, destination: SocketAddrV6)
    requires
        source.flowinfo == 0 && source.scope_id == 0,
        destination.flowinfo == 0 && destination.scope_id == 0,
    ensures
        ip6_of(ip6_bytes(source, destination)) == Some((source, destination)),
{
    let s = ip6_bytes(source, destination);
    assert(s.subrange(0, 16) =~= segments_bytes(source.ip));
    assert(s.subrange(16, 32) =~= segments_bytes(destination.ip));
    lemma_segments_round_trip(source.ip, s, 0);
    lemma_segments_round_trip(destination.ip, s, 16);
    lemma_u16_round_trip(source.port);
    lemma_u16_round_trip(destination.port);
}

/// A version 2 header may come in pieces: decoding goes on with what comes next as if all
/// had come at once.
pub proof fn law_v2_pieces(pending: Option<Pending>, s: Seq<u8>, t: Seq<u8>)
    requires
        pending matches Some(p) ==> 0 <= p.remains,
        v2_step(pending, s).found is More,
    ensures
        v2_step(v2_step(pending, s).pending, v2_step(pending, s).rest + t) == v2_step(
            pending,
            s + t,
        ),
{
    let all = s + t;
    if pending is None && s.len() >= SIZE_HEADER {
        let n = SIZE_HEADER as int;
        assert(all.take(n) =~= s.take(n));
        assert(all.skip(n) =~= s.skip(n) + t);
    }
}

/// The line of a header that starts as it should tells the same to both decoders of
/// version 1.
pub proof fn law_decoders_agree(line: Seq<u8>)
    requires
        fields(line, SPACE)[0] == PROXY@,
    ensures
        line_info(line) == v1_info(line),
{
}

/// The header that a connector writes is taken by an acceptor of version 1 headers for
/// what it was written for, and what follows it stays in the stream, behind the header if
/// that is passed on.
pub proof fn law_connect_accept(settings: AcceptorView, info: ProxyInfo, rest: Seq<u8>)
    requires
        is_plain(info),
        settings.support_v1,
    ensures
        ({
            let s = v1_text(info) + rest;
            let stage = stage(settings, None, s, false);
            &&& forall|answer: Result<Action, Error>| #[trigger]
                calls_for(stage, s, answer) ==> answer == accepted(
                    info.original_source,
                    info.original_destination,
                )
            &&& leaves(stage, s, settings.pass_proxy_header) == if settings.pass_proxy_header {
                s
            } else {
                rest
            }
        }),
{
    let s = v1_text(info) + rest;
    law_v1_length(info);
    lemma_v1_text_start(info);
    assert(s.take(6) =~= v1_text(info).take(6));
    lemma_accepts_written(info, rest);
}

/// A header that is written tells the decoder in front of a stream what it was written for.
proof fn lemma_accepts_written(info: ProxyInfo, rest: Seq<u8>)
    requires
        is_plain(info),
    ensures
        ({
            let s = v1_text(info) + rest;
            let n = v1_text(info).len() - 2;
            &&& framing(s, 0) == (Framing::Line { eol: n })
            &&& line_info(s.take(n)) == Ok::<ProxyInfo, HeaderFault>(info)
            &&& s.skip(n + 2) == rest
        }),
{
    let s = v1_text(info) + rest;
    let n = v1_text(info).len() - 2;
    let w = match (info.original_source, info.original_destination) {
        (Some(source), Some(destination)) => {
            let family = if source is V4 {
                Family::V4
            } else {
                Family::V6
            };
            lemma_v1_known(family, source, destination, rest);
            lemma_address_line(family, source, destination, rest);
            address_words(family, source, destination)
        },
        _ => {
            lemma_v1_unknown(rest);
            lemma_unknown_line(rest);
            unknown_words()
        },
    };
    assert(s.take(n) == join(w, SPACE));
    assert(w[0] == PROXY@);
    law_decoders_agree(s.take(n));
    assert(s.skip(n + 2) =~= rest);
}

/// Every version 1 header starts with the tag.
proof fn lemma_v1_text_start(info: ProxyInfo)
    ensures
        v1_text(info).len() >= 6,
        v1_text(info).take(6) == V1_TAG@,
{
    let family = if info.socket_type is Ipv4 {
        Family::V4
    } else {
        Family::V6
    };
    let w = if info.socket_type is Unknown {
        unknown_words()
    } else {
        address_words(family, info.original_source->0, info.original_destination->0)
    };
    assert(v1_text(info) == line_of(w));
    assert(w[0] == PROXY@);
    assert(join(w, SPACE) == PROXY@ + seq![SPACE] + join(w.skip(1), SPACE));
    assert(v1_text(info).take(6) =~= PROXY@ + seq![SPACE]);
    assert(V1_TAG@ =~= PROXY@ + seq![SPACE]);
}

/// A connection without a header of a supported version is passed on untouched, or refused
/// where a header is required.
pub proof fn law_without_header(
    settings: AcceptorView,
    s: Seq<u8>,
    ended: bool,
    answer: Result<Action, Error>,
)
    requires
        s.len() >= MIN_HEADER_SIZE || ended,
        s.len() >= MIN_HEADER_SIZE ==> !(settings.support_v1 && s.take(6) == V1_TAG@) && !(
        settings.support_v2 && s.take(12) == SIGNATURE@),
        calls_for(stage(settings, None, s, ended), s, answer),
    ensures
        if settings.require_proxy_header {
            answer is Err
        } else {
            answer == accepted(None, None)
        },
        leaves(stage(settings, None, s, ended), s, settings.pass_proxy_header) == s,
{
}

/// Where accepting a connection goes on after `s` has come.
pub open spec fn accept_position(
    settings: AcceptorView,
    position: Option<int>,
    s: Seq<u8>,
) -> Option<int> {
    match stage(settings, position, s, false) {
        Stage::V1 { from } => Some(next_position(s, from)),
        _ => position,
    }
}

/// The start of a connection may come in pieces: as long as more is asked for, nothing is
/// used up, and it goes on with what comes next as if all had come at once.
pub proof fn law_accept_pieces(
    settings: AcceptorView,
    position: Option<int>,
    s: Seq<u8>,
    t: Seq<u8>,
    answer: Result<Action, Error>,
)
    requires
        position matches Some(from) ==> 0 <= from <= resume_at(s),
        calls_for(stage(settings, position, s, false), s, Ok(Action::Read)),
    ensures
        ({
            let next = stage(settings, accept_position(settings, position, s), s + t, false);
            let whole = stage(settings, position, s + t, false);
            &&& leaves(stage(settings, position, s, false), s, settings.pass_proxy_header) == s
            &&& calls_for(next, s + t, answer) == calls_for(whole, s + t, answer)
            &&& leaves(next, s + t, settings.pass_proxy_header) == leaves(
                whole,
                s + t,
                settings.pass_proxy_header,
            )
        }),
{
    if let Stage::V1 { from } = stage(settings, position, s, false) {
        law_v1_pieces(s, from, t);
        if position is None {
            assert((s + t).take(6) =~= s.take(6));
        }
    }
}

/// How accepting a connection comes out.
pub struct Outcome {
    /// How it stands when no more is asked for.
    pub stage: Stage,
    /// What the buffer holds then.
    pub held: Seq<u8>,
    /// What has not been read then.
    pub unread: Seq<u8>,
}

/// Whether more is asked for at a stage when the buffer holds `s`.
pub open spec fn asks_for_more(stage: Stage, s: Seq<u8>) -> bool {
    calls_for(stage, s, Ok(Action::Read))
}

/// How accepting comes out that has come to `position` with `s`, where the connection goes
/// on with the pieces, one read each, and ends behind them.
pub open spec fn outcome(
    settings: AcceptorView,
    position: Option<int>,
    s: Seq<u8>,
    pieces: Seq<Seq<u8>>,
) -> Outcome
    decreases pieces.len(),
{
    let now = stage(settings, position, s, false);
    if !asks_for_more(now, s) {
        Outcome { stage: now, held: s, unread: joined(pieces) }
    } else if pieces.len() == 0 {
        Outcome {
            stage: stage(settings, accept_position(settings, position, s), s, true),
            held: s,
            unread: Seq::empty(),
        }
    } else {
        outcome(
            settings,
            accept_position(settings, position, s),
            s + pieces[0],
            pieces.skip(1),
        )
    }
}

/// Whether the end of a version 1 header that an acceptor finds in front of `s`, if it has
/// one, stands within the first bytes that are searched.
pub open spec fn ends_in_reach(settings: AcceptorView, s: Seq<u8>) -> bool {
    stage(settings, None, s, false) is V1 ==> (eol_from(s, 0) matches Some(e) ==> e + 2
        <= MAX_HEADER_SIZE)
}

/// Whether `position` is one to which accepting comes with `s`.
pub open spec fn fits(settings: AcceptorView, position: Option<int>, s: Seq<u8>) -> bool {
    position matches Some(from) ==> {
        &&& stage(settings, None, s, false) is V1
        &&& framing(s, from) == framing(s, 0)
    }
}

pub proof fn lemma_joined_front(pieces: Seq<Seq<u8>>)
    requires
        pieces.len() > 0,
    ensures
        joined(pieces) == pieces[0] + joined(pieces.skip(1)),
    decreases pieces.len(),
{
    if pieces.len() == 1 {
        assert(joined(pieces.drop_last()) =~= Seq::empty());
        assert(joined(pieces.skip(1)) =~= Seq::empty());
        assert(joined(pieces) =~= pieces[0] + joined(pieces.skip(1)));
    } else {
        lemma_joined_front(pieces.drop_last());
        assert(pieces.drop_last().skip(1) =~= pieces.skip(1).drop_last());
        assert(joined(pieces) =~= pieces[0] + (joined(pieces.skip(1).drop_last())
            + pieces.last()));
    }
}

/// What was found of a header does not change with what follows.
proof fn lemma_found_stays(s: Seq<u8>, t: Seq<u8>)
    requires
        !(framing(s, 0) is More),
        eol_from(s + t, 0) matches Some(e) ==> e + 2 <= MAX_HEADER_SIZE,
    ensures
        framing(s + t, 0) == framing(s, 0),
        eol_from(s, 0) matches Some(e) ==> (s + t).take(e) == s.take(e) && s.skip(e + 2) + t == (s
            + t).skip(e + 2),
{
    let all = s + t;
    lemma_eol_from(s, 0);
    lemma_eol_from(all, 0);
    match eol_from(s, 0) {
        Some(e) => {
            assert forall|j: int| 0 <= j < e implies !(#[trigger] eol_at(all, j)) by {
                lemma_eol_first(s, 0, j);
                assert(all[j] == s[j] && all[j + 1] == s[j + 1]);
            }
            lemma_eol_skip(all, 0, e);
            assert(all[e] == s[e] && all[e + 1] == s[e + 1]);
            assert(all.take(e) =~= s.take(e));
            assert(s.skip(e + 2) + t =~= all.skip(e + 2));
        },
        None => {
            if let Some(e) = eol_from(all, 0) {
                assert(all[e] == s[e] && all[e + 1] == s[e + 1]);
                lemma_eol_first(s, 0, e);
                assert(eol_at(s, e));
            }
        },
    }
}

/// What is decided does not change with what follows.
proof fn lemma_decision_stays(
    settings: AcceptorView,
    position: Option<int>,
    s: Seq<u8>,
    t: Seq<u8>,
    answer: Result<Action, Error>,
)
    requires
        fits(settings, position, s),
        ends_in_reach(settings, s + t),
        !asks_for_more(stage(settings, position, s, false), s),
    ensures
        ({
            let now = stage(settings, position, s, false);
            let whole = stage(settings, None, s + t, false);
            &&& !asks_for_more(whole, s + t)
            &&& calls_for(now, s, answer) == calls_for(whole, s + t, answer)
            &&& leaves(now, s, settings.pass_proxy_header) + t == leaves(
                whole,
                s + t,
                settings.pass_proxy_header,
            )
        }),
{
    assert((s + t).take(6) =~= s.take(6));
    assert((s + t).take(12) =~= s.take(12));
    if stage(settings, None, s, false) is V1 {
        lemma_found_stays(s, t);
    }
}

pub proof fn lemma_outcome(
    settings: AcceptorView,
    position: Option<int>,
    s: Seq<u8>,
    pieces: Seq<Seq<u8>>,
    answer: Result<Action, Error>,
)
    requires
        fits(settings, position, s),
        ends_in_reach(settings, s + joined(pieces)),
    ensures
        ({
            let o = outcome(settings, position, s, pieces);
            let whole = outcome(settings, None, s + joined(pieces), seq![]);
            &&& calls_for(o.stage, o.held, answer) == calls_for(whole.stage, whole.held, answer)
            &&& leaves(o.stage, o.held, settings.pass_proxy_header) + o.unread == leaves(
                whole.stage,
                whole.held,
                settings.pass_proxy_header,
            )
        }),
    decreases pieces.len(),
{
    let t = joined(pieces);
    let now = stage(settings, position, s, false);
    assert(joined(seq![]) =~= Seq::<u8>::empty());
    if !asks_for_more(now, s) {
        lemma_decision_stays(settings, position, s, t, answer);
    } else if pieces.len() == 0 {
        assert(s + t =~= s);
        assert(s + Seq::<u8>::empty() =~= s);
    } else {
        let p = pieces[0];
        lemma_joined_front(pieces);
        assert(s + t =~= (s + p) + joined(pieces.skip(1)));
        if now is V1 {
            assert((s + p).take(6) =~= s.take(6));
            law_v1_pieces(s, 0, p);
        }
        lemma_outcome(
            settings,
            accept_position(settings, position, s),
            s + p,
            pieces.skip(1),
            answer,
        );
    }
}

/// The start of a connection may come in any pieces: it is accepted with the same
/// addresses, or refused with the same error, as if all had come in one, and the stream
/// goes on with the same bytes. A version 1 header is to end within the first bytes that
/// are searched.
pub proof fn law_accept_any_pieces(
    settings: AcceptorView,
    pieces: Seq<Seq<u8>>,
    answer: Result<Action, Error>,
)
    requires
        ends_in_reach(settings, joined(pieces)),
    ensures
        ({
            let o = outcome(settings, None, seq![], pieces);
            let whole = outcome(settings, None, seq![], seq![joined(pieces)]);
            &&& calls_for(o.stage, o.held, answer) == calls_for(whole.stage, whole.held, answer)
            &&& leaves(o.stage, o.held, settings.pass_proxy_header) + o.unread == leaves(
                whole.stage,
                whole.held,
                settings.pass_proxy_header,
            ) + whole.unread
        }),
{
    let all = joined(pieces);
    assert(seq![] + all =~= all);
    lemma_outcome(settings, None, seq![], pieces, answer);
    lemma_joined_front(seq![all]);
    assert(seq![all].skip(1) =~= seq![]);
    assert(joined(seq![all]) =~= all);
    lemma_outcome(settings, None, seq![], seq![all], answer);
}

/// In whatever pieces the header comes that a connector writes, an acceptor of version 1
/// headers takes it for what it was written for, and the stream goes on with what follows
/// it, behind the header if that is passed on.
pub proof fn law_connect_accept_any_pieces(
    settings: AcceptorView,
    info: ProxyInfo,
    rest: Seq<u8>,
    pieces: Seq<Seq<u8>>,
)
    requires
        is_plain(info),
        settings.support_v1,
        joined(pieces) == v1_text(info) + rest,
    ensures
        ({
            let o = outcome(settings, None, seq![], pieces);
            &&& forall|answer: Result<Action, Error>| #[trigger]
                calls_for(o.stage, o.held, answer) ==> answer == accepted(
                    info.original_source,
                    info.original_destination,
                )
            &&& leaves(o.stage, o.held, settings.pass_proxy_header) + o.unread
                == if settings.pass_proxy_header {
                v1_text(info) + rest
            } else {
                rest
            }
        }),
{
    let s = v1_text(info) + rest;
    let o = outcome(settings, None, seq![], pieces);
    let now = stage(settings, None, s, false);
    law_v1_length(info);
    lemma_accepts_written(info, rest);
    law_connect_accept(settings, info, rest);
    assert(seq![] + s =~= s);
    assert(!asks_for_more(now, s));
    assert(joined(seq![]) =~= Seq::<u8>::empty());
    lemma_outcome(settings, None, seq![], pieces, Ok(Action::Read));
    assert forall|answer: Result<Action, Error>| #[trigger]
        calls_for(o.stage, o.held, answer) implies answer == accepted(
        info.original_source,
        info.original_destination,
    ) by {
        lemma_outcome(settings, None, seq![], pieces, answer);
        assert(calls_for(now, s, answer));
    }
}

/// What reads with the given room hand out, one behind the other.
pub open spec fn read_out(held: Seq<u8>, rooms: Seq<nat>) -> Seq<u8>
    decreases rooms.len(),
{
    if rooms.len() == 0 {
        Seq::empty()
    } else {
        let n = handed_out(held, rooms[0]);
        held.take(n) + read_out(held.skip(n), rooms.skip(1))
    }
}

/// What reads with the given room leave held back.
pub open spec fn left_held(held: Seq<u8>, rooms: Seq<nat>) -> Seq<u8>
    decreases rooms.len(),
{
    if rooms.len() == 0 {
        held
    } else {
        left_held(held.skip(handed_out(held, rooms[0])), rooms.skip(1))
    }
}

/// Reads hand out what was held back in its order, and lose none of it.
pub proof fn law_reads_in_order(held: Seq<u8>, rooms: Seq<nat>)
    ensures
        read_out(held, rooms) + left_held(held, rooms) == held,
    decreases rooms.len(),
{
    if rooms.len() > 0 {
        let n = handed_out(held, rooms[0]);
        law_reads_in_order(held.skip(n), rooms.skip(1));
        assert(held.take(n) + held.skip(n) =~= held);
        assert(read_out(held, rooms) + left_held(held, rooms) =~= held.take(n) + (read_out(
            held.skip(n),
            rooms.skip(1),
        ) + left_held(held.skip(n), rooms.skip(1))));
    } else {
        assert(read_out(held, rooms) + held =~= held);
    }
}

} // verus!
