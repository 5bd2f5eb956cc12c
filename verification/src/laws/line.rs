//! Version 1 headers, word by word.
use super::address::dotted;
use super::binary::refused;
use super::words::{are_words, ascii, lemma_spelled_fields, spelled};
use crate::addr::port::port_of;
use crate::addr::v4::ipv4_of;
use crate::addr::v6::{ipv6_of, ipv6_text};
use crate::addr::{AddrParseError, Ipv4Addr, Ipv6Addr, SocketAddr, SocketAddrV4, SocketAddrV6};
use crate::buffer::contents;
use crate::codec::{required_header, ProxyInfo, ProxyProtocolCodecV1, SocketType};
use crate::error::{utf8_fault, Error};
use crate::header::{
    address_words, eol_at, eol_from, find_eol, lemma_eol_first, lemma_eol_from, lemma_join_six,
    line_of, unknown_words, Family, PROXY, SPACE, TCP4, TCP6, UNKNOWN,
};
use crate::proxy;
use crate::text::{digits, join};
use bytes::BytesMut;
use vstd::prelude::*;
use vstd::utf8::{decode_utf8, valid_utf8};

verus! {

/// Whether a CR LF stands at the place `j`.
pub open spec fn crlf_at(s: Seq<u8>, j: int) -> bool {
    0 <= j && j + 1 < s.len() && s[j] == 13 && s[j + 1] == 10
}

/// Whether no CR LF stands at the place `from` or behind it.
pub open spec fn no_end(s: Seq<u8>, from: int) -> bool {
    forall|j: int| from <= j ==> !#[trigger] crlf_at(s, j)
}

/// Whether `e` is the first place of a CR LF from the place `from` on.
pub open spec fn first_end(s: Seq<u8>, from: int, e: int) -> bool {
    from <= e && crlf_at(s, e) && forall|j: int| from <= j < e ==> !#[trigger] crlf_at(s, j)
}

pub proof fn lemma_ends(s: Seq<u8>, from: int)
    requires
        0 <= from,
    ensures
        eol_from(s, from) is None <==> no_end(s, from),
        eol_from(s, from) matches Some(e) ==> first_end(s, from, e),
        forall|e: int| #[trigger] first_end(s, from, e) ==> eol_from(s, from) == Some(e),
{
    lemma_eol_from(s, from);
    match eol_from(s, from) {
        Some(e) => {
            assert(crlf_at(s, e));
            assert forall|j: int| from <= j < e implies !#[trigger] crlf_at(s, j) by {
                lemma_eol_first(s, from, j);
                assert(!eol_at(s, j));
            }
            assert forall|f: int| #[trigger] first_end(s, from, f) implies f == e by {
                if f < e {
                    assert(!crlf_at(s, f));
                }
            }
        },
        None => {
            assert forall|j: int| from <= j implies !#[trigger] crlf_at(s, j) by {
                lemma_eol_first(s, from, j);
                assert(!eol_at(s, j));
            }
        },
    }
}

/// The end of a line is found where it first stands, and only there.
pub proof fn law_find_eol(s: &[u8], from: usize, eol: Option<usize>)
    requires
        call_ensures(find_eol, (s, from), eol),
    ensures
        eol is None <==> no_end(s@, from as int),
        eol matches Some(e) ==> first_end(s@, from as int, e as int),
{
    lemma_ends(s@, from as int);
}

/// Whether an answer tells that nothing is known.
pub open spec fn tells_unknown(answer: Result<Option<ProxyInfo>, Error>) -> bool {
    answer matches Ok(Some(info)) && info.socket_type == SocketType::Unknown
        && info.original_source is None && info.original_destination is None
}

/// Whether an answer tells of a TCP connection over IPv4 with the given ends.
pub open spec fn tells_v4(
    answer: Result<Option<ProxyInfo>, Error>,
    source: (Ipv4Addr, u16),
    destination: (Ipv4Addr, u16),
) -> bool {
    answer matches Ok(Some(info)) && info.socket_type == SocketType::Ipv4 && info.original_source
        == Some(SocketAddr::V4(SocketAddrV4 { ip: source.0, port: source.1 }))
        && info.original_destination == Some(
        SocketAddr::V4(SocketAddrV4 { ip: destination.0, port: destination.1 }),
    )
}

/// Whether an answer tells of a TCP connection over IPv6 with the given ends.
pub open spec fn tells_v6(
    answer: Result<Option<ProxyInfo>, Error>,
    source: (Ipv6Addr, u16),
    destination: (Ipv6Addr, u16),
) -> bool {
    answer matches Ok(Some(info)) && info.socket_type == SocketType::Ipv6 && info.original_source
        == Some(
        SocketAddr::V6(SocketAddrV6 { ip: source.0, port: source.1, flowinfo: 0, scope_id: 0 }),
    ) && info.original_destination == Some(
        SocketAddr::V6(
            SocketAddrV6 { ip: destination.0, port: destination.1, flowinfo: 0, scope_id: 0 },
        ),
    )
}

/// Whether an answer, and whether the line is taken from the buffer, is right for a line
/// with the given words, whatever the first is. The words behind the second are source and
/// destination address, source and destination port; of several faults that of the source
/// counts, and of one end that of the address.
pub open spec fn right_for(
    words: Seq<Seq<u8>>,
    text: Seq<char>,
    answer: Result<Option<ProxyInfo>, Error>,
    taken: bool,
) -> bool {
    let v4 = words.len() == 6 && words[1] == ascii("TCP4"@);
    let v6 = words.len() == 6 && words[1] == ascii("TCP6"@);
    let unknown = words.len() > 1 && words[1] == ascii("UNKNOWN"@);
    &&& words.len() == 1 ==> !taken && refused(answer, "At least two parts are needed"@)
    &&& unknown ==> taken && tells_unknown(answer)
    &&& v4 ==> match (ipv4_of(words[2]), port_of(words[4]), ipv4_of(words[3]), port_of(words[5])) {
        (Some(a), Ok(p), Some(b), Ok(q)) => taken && tells_v4(answer, (a, p), (b, q)),
        (Some(_), Ok(_), Some(_), Err(e)) => !taken && answer == Err::<Option<ProxyInfo>, Error>(
            Error::Port(e),
        ),
        (Some(_), Err(e), _, _) => !taken && answer == Err::<Option<ProxyInfo>, Error>(
            Error::Port(e),
        ),
        _ => !taken && answer == Err::<Option<ProxyInfo>, Error>(
            Error::IPAddress(AddrParseError::Ipv4),
        ),
    }
    &&& v6 ==> match (ipv6_of(words[2]), port_of(words[4]), ipv6_of(words[3]), port_of(words[5])) {
        (Some(a), Ok(p), Some(b), Ok(q)) => taken && tells_v6(answer, (a, p), (b, q)),
        (Some(_), Ok(_), Some(_), Err(e)) => !taken && answer == Err::<Option<ProxyInfo>, Error>(
            Error::Port(e),
        ),
        (Some(_), Err(e), _, _) => !taken && answer == Err::<Option<ProxyInfo>, Error>(
            Error::Port(e),
        ),
        _ => !taken && answer == Err::<Option<ProxyInfo>, Error>(
            Error::IPAddress(AddrParseError::Ipv6),
        ),
    }
    &&& words.len() > 1 && !unknown && !v4 && !v6 ==> taken && refused(
        answer,
        "Invalid proxy header v1: "@ + text,
    )
}

pub proof fn lemma_keywords()
    ensures
        ascii("PROXY"@) == PROXY@,
        ascii("UNKNOWN"@) == UNKNOWN@,
        ascii("TCP4"@) == TCP4@,
        ascii("TCP6"@) == TCP6@,
        TCP4@ != TCP6@,
        UNKNOWN@ != TCP4@,
        UNKNOWN@ != TCP6@,
{
    reveal_strlit("PROXY");
    reveal_strlit("UNKNOWN");
    reveal_strlit("TCP4");
    reveal_strlit("TCP6");
    assert(ascii("PROXY"@) =~= PROXY@);
    assert(ascii("UNKNOWN"@) =~= UNKNOWN@);
    assert(ascii("TCP4"@) =~= TCP4@);
    assert(ascii("TCP6"@) =~= TCP6@);
    assert(TCP4@[3] == 0x34 && TCP6@[3] == 0x36);
    assert(UNKNOWN@.len() == 7 && TCP4@.len() == 4 && TCP6@.len() == 4);
}

/// As long as no end of a line has come, more is asked for and all is kept; where so much
/// has come without one that a header would have ended, that is an error.
pub proof fn law_v1_waits_for_end(
    codec: &mut ProxyProtocolCodecV1,
    buf: &mut BytesMut,
    answer: Result<Option<ProxyInfo>, Error>,
)
    requires
        0 <= old(codec).position() <= contents(*old(buf)).len(),
        call_ensures(ProxyProtocolCodecV1::decode, (codec, buf), answer),
    ensures
        ({
            let s = contents(*old(buf));
            let from = old(codec).position();
            &&& answer == Ok::<Option<ProxyInfo>, Error>(None) <==> no_end(s, from) && s.len() < 536
            &&& no_end(s, from) ==> contents(*final(buf)) == s
            &&& no_end(s, from) && s.len() >= 536 ==> refused(
                answer,
                "Proxy header v1 does not contain EOL"@,
            )
            &&& no_end(s, from) && s.len() < 536 ==> final(codec).position() == if s.len() == 0 {
                0
            } else {
                s.len() - 1
            }
            &&& !(no_end(s, from) && s.len() < 536) ==> final(codec).position() == from
        }),
{
    lemma_ends(contents(*old(buf)), old(codec).position());
}

/// A line that has ended is answered for its words: the first is the tag. What follows the
/// line stays in the buffer, and so does the line where it is refused for its tag, an
/// address, a port or a lack of words.
pub proof fn law_v1_line(
    codec: &mut ProxyProtocolCodecV1,
    buf: &mut BytesMut,
    answer: Result<Option<ProxyInfo>, Error>,
    e: int,
    words: Seq<Seq<u8>>,
)
    requires
        0 <= old(codec).position(),
        call_ensures(ProxyProtocolCodecV1::decode, (codec, buf), answer),
        first_end(contents(*old(buf)), old(codec).position(), e),
        contents(*old(buf)).take(e) == spelled(words, ' ' as u8),
        words.len() > 0,
        are_words(words, ' ' as u8),
    ensures
        ({
            let s = contents(*old(buf));
            let line = s.take(e);
            let rest = contents(*final(buf));
            &&& rest == s || rest == s.skip(e + 2)
            &&& !valid_utf8(line) ==> rest == s && answer == Err::<Option<ProxyInfo>, Error>(
                Error::Utf8(utf8_fault(line)),
            )
            &&& valid_utf8(line) && words[0] != ascii("PROXY"@) ==> rest == s && refused(
                answer,
                "Protocol tag is wrong"@,
            )
            &&& valid_utf8(line) && words[0] == ascii("PROXY"@) ==> right_for(
                words,
                decode_utf8(line),
                answer,
                rest == s.skip(e + 2),
            )
        }),
{
    let s = contents(*old(buf));
    lemma_ends(s, old(codec).position());
    lemma_spelled_fields(words, ' ' as u8);
    lemma_keywords();
    assert(s.skip(e + 2).len() < s.len());
}

/// The decoder in front of a stream waits for the end of a line as the other does.
pub proof fn law_proxy_waits_for_end(
    codec: &mut proxy::ProxyProtocolCodecV1,
    buf: &mut BytesMut,
    answer: Result<Option<ProxyInfo>, Error>,
)
    requires
        0 <= old(codec).position() <= contents(*old(buf)).len(),
        call_ensures(proxy::ProxyProtocolCodecV1::decode, (codec, buf), answer),
    ensures
        ({
            let s = contents(*old(buf));
            let from = old(codec).position();
            &&& answer == Ok::<Option<ProxyInfo>, Error>(None) <==> no_end(s, from) && s.len() < 536
            &&& no_end(s, from) ==> contents(*final(buf)) == s
            &&& no_end(s, from) && s.len() >= 536 ==> refused(
                answer,
                "Proxy header v1 does not contain EOL"@,
            )
            &&& no_end(s, from) && s.len() < 536 ==> final(codec).position() == if s.len() == 0 {
                0
            } else {
                s.len() - 1
            }
            &&& !(no_end(s, from) && s.len() < 536) ==> final(codec).position() == from
        }),
{
    lemma_ends(contents(*old(buf)), old(codec).position());
}

/// The decoder in front of a stream answers a line for its words, whatever the first is,
/// and leaves it in the buffer where it is to be passed on.
pub proof fn law_proxy_line(
    codec: &mut proxy::ProxyProtocolCodecV1,
    buf: &mut BytesMut,
    answer: Result<Option<ProxyInfo>, Error>,
    e: int,
    words: Seq<Seq<u8>>,
)
    requires
        0 <= old(codec).position(),
        call_ensures(proxy::ProxyProtocolCodecV1::decode, (codec, buf), answer),
        first_end(contents(*old(buf)), old(codec).position(), e),
        contents(*old(buf)).take(e) == spelled(words, ' ' as u8),
        words.len() > 0,
        are_words(words, ' ' as u8),
    ensures
        ({
            let s = contents(*old(buf));
            let line = s.take(e);
            let rest = contents(*final(buf));
            let pass = old(codec).passes_header();
            &&& rest == s || rest == s.skip(e + 2) && !pass
            &&& !valid_utf8(line) ==> rest == s && answer == Err::<Option<ProxyInfo>, Error>(
                Error::Utf8(utf8_fault(line)),
            )
            &&& valid_utf8(line) && !pass ==> right_for(
                words,
                decode_utf8(line),
                answer,
                rest == s.skip(e + 2),
            )
            &&& valid_utf8(line) && pass ==> right_for(words, decode_utf8(line), answer, true)
                || right_for(words, decode_utf8(line), answer, false)
        }),
        final(codec).passes_header() == old(codec).passes_header(),
{
    let s = contents(*old(buf));
    lemma_ends(s, old(codec).position());
    lemma_spelled_fields(words, ' ' as u8);
    lemma_keywords();
    assert(s.skip(e + 2).len() < s.len());
}

/// How the IP address of a socket address is written in a header.
pub open spec fn ip_written(addr: SocketAddr) -> Seq<u8> {
    match addr {
        SocketAddr::V4(a) => dotted(
            a.ip.octets[0],
            a.ip.octets[1],
            a.ip.octets[2],
            a.ip.octets[3],
        ),
        SocketAddr::V6(a) => ipv6_text(a.ip),
    }
}

/// How the port of a socket address is written in a header.
pub open spec fn port_written(addr: SocketAddr) -> Seq<u8> {
    match addr {
        SocketAddr::V4(a) => digits(a.port as nat, 10),
        SocketAddr::V6(a) => digits(a.port as nat, 10),
    }
}

/// A header that starts with the given words: behind them source and destination address,
/// source and destination port, CR LF.
pub open spec fn line_written(start: Seq<char>, source: SocketAddr, destination: SocketAddr) -> Seq<u8> {
    ascii(start) + ip_written(source) + ascii(" "@) + ip_written(destination) + ascii(" "@)
        + port_written(source) + ascii(" "@) + port_written(destination) + seq![13u8, 10u8]
}

/// What is appended for a version 1 header.
pub proof fn law_v1_written(
    codec: &mut ProxyProtocolCodecV1,
    item: ProxyInfo,
    header: &mut BytesMut,
    done: Result<(), Error>,
)
    requires
        call_ensures(ProxyProtocolCodecV1::encode, (codec, item, header), done),
        item.socket_type != SocketType::Unknown ==> item.original_source is Some
            && item.original_destination is Some,
    ensures
        done is Ok,
        final(codec).position() == old(codec).position(),
        contents(*final(header)) == contents(*old(header)) + match item.socket_type {
            SocketType::Unknown => ascii("PROXY UNKNOWN"@) + seq![13u8, 10u8],
            SocketType::Ipv4 => line_written(
                "PROXY TCP4 "@,
                item.original_source->0,
                item.original_destination->0,
            ),
            SocketType::Ipv6 => line_written(
                "PROXY TCP6 "@,
                item.original_source->0,
                item.original_destination->0,
            ),
        },
{
    lemma_v1_text(item);
}

pub proof fn lemma_v1_text(item: ProxyInfo)
    ensures
        crate::codec::v1_text(item) == match item.socket_type {
            SocketType::Unknown => ascii("PROXY UNKNOWN"@) + seq![13u8, 10u8],
            SocketType::Ipv4 => line_written(
                "PROXY TCP4 "@,
                item.original_source->0,
                item.original_destination->0,
            ),
            SocketType::Ipv6 => line_written(
                "PROXY TCP6 "@,
                item.original_source->0,
                item.original_destination->0,
            ),
        },
{
    lemma_keywords();
    reveal_strlit("PROXY UNKNOWN");
    reveal_strlit("PROXY TCP4 ");
    reveal_strlit("PROXY TCP6 ");
    reveal_strlit(" ");
    assert(ascii(" "@) =~= seq![SPACE]);
    assert(ascii("PROXY UNKNOWN"@) =~= PROXY@ + seq![SPACE] + UNKNOWN@);
    assert(ascii("PROXY TCP4 "@) =~= PROXY@ + seq![SPACE] + TCP4@ + seq![SPACE]);
    assert(ascii("PROXY TCP6 "@) =~= PROXY@ + seq![SPACE] + TCP6@ + seq![SPACE]);
    let a = item.original_source->0;
    let b = item.original_destination->0;
    super::address::lemma_ip_text(a);
    super::address::lemma_ip_text(b);
    match item.socket_type {
        SocketType::Unknown => {
            reveal_with_fuel(join, 3);
            assert(unknown_words().skip(1) =~= seq![UNKNOWN@]);
            assert(line_of(unknown_words()) =~= ascii("PROXY UNKNOWN"@) + seq![13u8, 10u8]);
        },
        SocketType::Ipv4 => {
            let w = address_words(Family::V4, a, b);
            lemma_join_six(w, SPACE);
            assert(line_of(w) =~= line_written("PROXY TCP4 "@, a, b));
        },
        SocketType::Ipv6 => {
            let w = address_words(Family::V6, a, b);
            lemma_join_six(w, SPACE);
            assert(line_of(w) =~= line_written("PROXY TCP6 "@, a, b));
        },
    }
}

/// Decoders can be used on every buffer that is not shorter than it was left, and an
/// encoder on every buffer with room, for all information with the addresses that its
/// type calls for.
pub proof fn law_v1_any_buffer(
    codec: &mut ProxyProtocolCodecV1,
    other: &mut proxy::ProxyProtocolCodecV1,
    item: ProxyInfo,
    buf: &mut BytesMut,
)
    ensures
        old(codec).position() <= contents(*old(buf)).len() ==> call_requires(
            ProxyProtocolCodecV1::decode,
            (codec, buf),
        ),
        old(other).position() <= contents(*old(buf)).len() ==> call_requires(
            proxy::ProxyProtocolCodecV1::decode,
            (other, buf),
        ),
        contents(*old(buf)).len() + 104 <= isize::MAX && (item.socket_type != SocketType::Unknown
            ==> item.original_source is Some && item.original_destination is Some) ==> call_requires(
            ProxyProtocolCodecV1::encode,
            (codec, item, buf),
        ),
{
    super::law_v1_length(item);
}

/// Decoders and encoders start at the front of the buffer.
pub proof fn law_v1_starts(
    codec: ProxyProtocolCodecV1,
    other: proxy::ProxyProtocolCodecV1,
    pass_header: bool,
    passing: proxy::ProxyProtocolCodecV1,
)
    requires
        call_ensures(ProxyProtocolCodecV1::new, (), codec),
        call_ensures(proxy::ProxyProtocolCodecV1::new, (), other),
        call_ensures(proxy::ProxyProtocolCodecV1::new_with_pass_header, (pass_header,), passing),
    ensures
        codec.position() == 0,
        other.position() == 0 && !other.passes_header(),
        passing.position() == 0 && passing.passes_header() == pass_header,
{
}

/// A header that is asked for is the one that was decoded, and it is an error that there
/// is none.
pub proof fn law_required_header(decoded: Option<ProxyInfo>, info: Result<ProxyInfo, Error>)
    requires
        call_ensures(required_header, (decoded,), info),
    ensures
        decoded matches Some(i) ==> info == Ok::<ProxyInfo, Error>(i),
        decoded is None ==> refused(info, "Proxy header is missing"@),
{
}

} // verus!
