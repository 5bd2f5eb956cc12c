//! Version 2 headers, byte by byte.
use crate::addr::SocketAddr;
use crate::buffer::contents;
use crate::codec::v2::proto::{segments_bytes, segments_of};
use crate::codec::v2::{v2_bytes, Pending, ProxyProtocolCodecV2, SIGNATURE};
use crate::codec::{ProxyInfo, SocketType};
use crate::error::Error;
use bytes::BytesMut;
use vstd::prelude::*;

verus! {

/// Whether an answer is the error that the protocol is broken, told in the given words.
pub open spec fn refused<T>(answer: Result<T, Error>, text: Seq<char>) -> bool {
    answer matches Err(Error::Proxy(m)) && m@ == text
}

/// Whether bytes start as every version 2 header does.
pub open spec fn is_signed(s: Seq<u8>) -> bool {
    s.len() >= 12 && s.take(12) == seq![
        0x0du8, 0x0au8, 0x0du8, 0x0au8, 0x00u8, 0x0du8, 0x0au8, 0x51u8, 0x55u8, 0x49u8, 0x54u8, 0x0au8,
    ]
}

/// The number at the place `i`, high byte first.
pub open spec fn number_at(s: Seq<u8>, i: int) -> int {
    256 * s[i] + s[i + 1]
}

/// The type of transport that a byte stands for.
pub open spec fn transport_of(b: u8) -> SocketType {
    if b == 0x11 {
        SocketType::Ipv4
    } else if b == 0x21 {
        SocketType::Ipv6
    } else {
        SocketType::Unknown
    }
}

/// Whether bytes start with a fixed part that is as it should be.
pub open spec fn has_fixed_part(s: Seq<u8>) -> bool {
    s.len() >= 16 && is_signed(s) && (s[12] == 0x20 || s[12] == 0x21)
}

/// Whether a socket address is the IPv4 address at the place `i` and the port at the place
/// `j`.
pub open spec fn is_v4_at(addr: Option<SocketAddr>, s: Seq<u8>, i: int, j: int) -> bool {
    addr matches Some(SocketAddr::V4(a)) && a.ip.octets@ == s.subrange(i, i + 4) && a.port
        == number_at(s, j)
}

/// Whether a socket address is the IPv6 address at the place `i` and the port at the place
/// `j`, without flow label and scope.
pub open spec fn is_v6_at(addr: Option<SocketAddr>, s: Seq<u8>, i: int, j: int) -> bool {
    addr matches Some(SocketAddr::V6(a)) && a.port == number_at(s, j) && a.flowinfo == 0
        && a.scope_id == 0 && forall|k: int|
        0 <= k < 8 ==> #[trigger] a.ip.segments@[k] == number_at(s, i + 2 * k)
}

proof fn lemma_signature()
    ensures
        SIGNATURE@ == seq![
            0x0du8, 0x0au8, 0x0du8, 0x0au8, 0x00u8, 0x0du8, 0x0au8, 0x51u8, 0x55u8, 0x49u8, 0x54u8, 0x0au8,
        ],
{
    assert(SIGNATURE@ =~= seq![
        0x0du8, 0x0au8, 0x0du8, 0x0au8, 0x00u8, 0x0du8, 0x0au8, 0x51u8, 0x55u8, 0x49u8, 0x54u8, 0x0au8,
    ]);
}

/// Whatever header is found at the front of a buffer, all of it leaves the buffer and
/// nothing else: the fixed part and as many bytes as that announces, those behind the
/// addresses included. Until they have all come nothing is answered.
pub proof fn law_v2_length(
    codec: &mut ProxyProtocolCodecV2,
    buf: &mut BytesMut,
    answer: Result<Option<ProxyInfo>, Error>,
)
    requires
        old(codec).pending() is None,
        call_ensures(ProxyProtocolCodecV2::decode, (codec, buf), answer),
    ensures
        ({
            let s = contents(*old(buf));
            let n = number_at(s, 14);
            &&& answer matches Ok(Some(_)) ==> has_fixed_part(s) && s.len() >= 16 + n && contents(
                *final(buf),
            ) == s.skip(16 + n) && final(codec).pending() is None
            &&& answer == Ok::<Option<ProxyInfo>, Error>(None) <==> s.len() < 16 || has_fixed_part(s)
                && s.len() < 16 + n
            &&& s.len() < 16 ==> contents(*final(buf)) == s && final(codec).pending() is None
            &&& has_fixed_part(s) && s.len() < 16 + n ==> contents(*final(buf)) == s.skip(16)
            &&& has_fixed_part(s) && s.len() >= 16 + n ==> contents(*final(buf)) == s.skip(16 + n)
            &&& has_fixed_part(s) && !(answer matches Ok(Some(_))) ==> (final(codec).pending()
                matches Some(p) && p.remains == n && p.socket_type == transport_of(s[13]))
        }),
{
    let s = contents(*old(buf));
    lemma_signature();
    if s.len() >= 16 {
        let n = number_at(s, 14);
        assert(s.take(16).take(12) =~= s.take(12));
        if s.len() >= 16 + n {
            assert(s.skip(16).skip(n) =~= s.skip(16 + n));
        }
    }
}

/// What a version 2 header tells stands at fixed places: addresses of TCP connections
/// behind the fixed part, and behind them the ports. Of other connections nothing is told.
pub proof fn law_v2_tells(
    codec: &mut ProxyProtocolCodecV2,
    buf: &mut BytesMut,
    answer: Result<Option<ProxyInfo>, Error>,
)
    requires
        old(codec).pending() is None,
        call_ensures(ProxyProtocolCodecV2::decode, (codec, buf), answer),
        has_fixed_part(contents(*old(buf))),
        contents(*old(buf)).len() >= 16 + number_at(contents(*old(buf)), 14),
    ensures
        ({
            let s = contents(*old(buf));
            let n = number_at(s, 14);
            &&& s[13] == 0x11 && n >= 12 ==> (answer matches Ok(Some(info)) && info.socket_type
                == SocketType::Ipv4 && is_v4_at(info.original_source, s, 16, 24) && is_v4_at(
                info.original_destination,
                s,
                20,
                26,
            ))
            &&& s[13] == 0x21 && n >= 36 ==> (answer matches Ok(Some(info)) && info.socket_type
                == SocketType::Ipv6 && is_v6_at(info.original_source, s, 16, 48) && is_v6_at(
                info.original_destination,
                s,
                32,
                50,
            ))
            &&& s[13] != 0x11 && s[13] != 0x21 ==> (answer matches Ok(Some(info)) && info.socket_type
                == SocketType::Unknown && info.original_source is None && info.original_destination
                is None)
            &&& s[13] == 0x11 && n < 12 ==> refused(
                answer,
                "Proxy header v2 is too short for V4 addresses"@,
            )
            &&& s[13] == 0x21 && n < 36 ==> refused(
                answer,
                "Proxy header v2 is too short for V6 addresses"@,
            )
        }),
{
    let s = contents(*old(buf));
    let n = number_at(s, 14);
    lemma_signature();
    assert(s.take(16).take(12) =~= s.take(12));
    let data = s.skip(16).take(n);
    assert(data =~= s.subrange(16, 16 + n));
    if s[13] == 0x11 && n >= 12 {
        assert([data[0], data[1], data[2], data[3]]@ =~= s.subrange(16, 20));
        assert([data[4], data[5], data[6], data[7]]@ =~= s.subrange(20, 24));
    }
    if s[13] == 0x21 && n >= 36 {
        assert(data.subrange(0, 16) =~= s.subrange(16, 32));
        assert(data.subrange(16, 32) =~= s.subrange(32, 48));
        lemma_segments(data, 0, s, 16);
        lemma_segments(data, 16, s, 32);
    }
}

proof fn lemma_segments(data: Seq<u8>, at: int, s: Seq<u8>, i: int)
    requires
        0 <= at,
        at + 16 <= data.len(),
        0 <= i,
        i + 16 <= s.len(),
        data.subrange(at, at + 16) == s.subrange(i, i + 16),
    ensures
        forall|k: int|
            0 <= k < 8 ==> #[trigger] segments_of(data, at).segments@[k] == number_at(s, i + 2 * k),
{
    assert forall|k: int| 0 <= k < 16 implies #[trigger] data.subrange(at, at + 16)[k] == s[i + k] by {
        assert(data.subrange(at, at + 16)[k] == s.subrange(i, i + 16)[k]);
    }
    let d = data.subrange(at, at + 16);
    assert(d[0] == data[at] && d[1] == data[at + 1] && d[2] == data[at + 2] && d[3] == data[at + 3]
        && d[4] == data[at + 4] && d[5] == data[at + 5] && d[6] == data[at + 6] && d[7] == data[at
        + 7]);
    assert(d[8] == data[at + 8] && d[9] == data[at + 9] && d[10] == data[at + 10] && d[11]
        == data[at + 11] && d[12] == data[at + 12] && d[13] == data[at + 13] && d[14] == data[at
        + 14] && d[15] == data[at + 15]);
}

/// A fixed part that is not as it should be is refused for the first thing that is wrong,
/// and stays in the buffer.
pub proof fn law_v2_refuses(
    codec: &mut ProxyProtocolCodecV2,
    buf: &mut BytesMut,
    answer: Result<Option<ProxyInfo>, Error>,
)
    requires
        old(codec).pending() is None,
        call_ensures(ProxyProtocolCodecV2::decode, (codec, buf), answer),
        contents(*old(buf)).len() >= 16,
        !has_fixed_part(contents(*old(buf))),
    ensures
        ({
            let s = contents(*old(buf));
            &&& !is_signed(s) ==> refused(answer, "Signature of proxy header v2 is wrong"@)
            &&& is_signed(s) && !(0x20 <= s[12] <= 0x2f) ==> refused(
                answer,
                "Version of proxy header v2 is not supported"@,
            )
            &&& is_signed(s) && 0x22 <= s[12] <= 0x2f ==> refused(
                answer,
                "Command of proxy header v2 is not supported"@,
            )
            &&& contents(*final(buf)) == s
            &&& final(codec).pending() is None
        }),
{
    let s = contents(*old(buf));
    lemma_signature();
    assert(s.take(16).take(12) =~= s.take(12));
}

/// Behind a fixed part, as many bytes as it announces are waited for, and then they leave
/// the buffer and nothing else does, whatever they tell.
pub proof fn law_v2_pending(
    codec: &mut ProxyProtocolCodecV2,
    buf: &mut BytesMut,
    answer: Result<Option<ProxyInfo>, Error>,
    p: Pending,
)
    requires
        old(codec).pending() == Some(p),
        call_ensures(ProxyProtocolCodecV2::decode, (codec, buf), answer),
    ensures
        ({
            let s = contents(*old(buf));
            &&& answer == Ok::<Option<ProxyInfo>, Error>(None) <==> s.len() < p.remains
            &&& s.len() < p.remains ==> contents(*final(buf)) == s
            &&& s.len() >= p.remains ==> contents(*final(buf)) == s.skip(p.remains)
            &&& answer matches Ok(Some(info)) ==> info.socket_type == p.socket_type
                && final(codec).pending() is None
            &&& !(answer matches Ok(Some(_))) ==> final(codec).pending() == Some(p)
        }),
{
}

/// A decoder can be used on every buffer, and an encoder on every buffer with room.
pub proof fn law_v2_any_buffer(
    codec: &mut ProxyProtocolCodecV2,
    item: ProxyInfo,
    buf: &mut BytesMut,
)
    ensures
        call_requires(ProxyProtocolCodecV2::decode, (codec, buf)),
        contents(*old(buf)).len() + 52 <= isize::MAX ==> call_requires(
            ProxyProtocolCodecV2::encode,
            (codec, item, buf),
        ),
{
}

/// Whether two answers are the same, errors in the same words.
pub open spec fn alike(a: Result<Option<ProxyInfo>, Error>, b: Result<Option<ProxyInfo>, Error>) -> bool {
    match (a, b) {
        (Ok(a), Ok(b)) => a == b,
        (Err(Error::Proxy(a)), Err(Error::Proxy(b))) => a@ == b@,
        _ => false,
    }
}

/// A decoder that asked for more goes on, with what comes next behind what it left, as if
/// all had come at once.
pub proof fn law_v2_goes_on(
    codec: &mut ProxyProtocolCodecV2,
    buf: &mut BytesMut,
    first: Result<Option<ProxyInfo>, Error>,
    next_codec: &mut ProxyProtocolCodecV2,
    next_buf: &mut BytesMut,
    next: Result<Option<ProxyInfo>, Error>,
    whole_codec: &mut ProxyProtocolCodecV2,
    whole_buf: &mut BytesMut,
    whole: Result<Option<ProxyInfo>, Error>,
    t: Seq<u8>,
)
    requires
        call_ensures(ProxyProtocolCodecV2::decode, (codec, buf), first),
        first == Ok::<Option<ProxyInfo>, Error>(None),
        old(next_codec).pending() == final(codec).pending(),
        contents(*old(next_buf)) == contents(*final(buf)) + t,
        call_ensures(ProxyProtocolCodecV2::decode, (next_codec, next_buf), next),
        old(whole_codec).pending() == old(codec).pending(),
        contents(*old(whole_buf)) == contents(*old(buf)) + t,
        call_ensures(ProxyProtocolCodecV2::decode, (whole_codec, whole_buf), whole),
        old(codec).pending() matches Some(p) ==> 0 <= p.remains,
    ensures
        alike(next, whole),
        contents(*final(next_buf)) == contents(*final(whole_buf)),
        final(next_codec).pending() == final(whole_codec).pending(),
{
    super::law_v2_pieces(old(codec).pending(), contents(*old(buf)), t);
}

/// What is appended for a version 2 header: the fixed part for the type of transport, and
/// the addresses and ports at their places. Where addresses of that type are not there,
/// that is an error.
pub proof fn law_v2_written(
    codec: &mut ProxyProtocolCodecV2,
    item: ProxyInfo,
    buf: &mut BytesMut,
    done: Result<(), Error>,
)
    requires
        call_ensures(ProxyProtocolCodecV2::encode, (codec, item, buf), done),
    ensures
        ({
            let before = contents(*old(buf));
            let all = contents(*final(buf));
            let s = all.skip(before.len() as int);
            let v4 = item.original_source is Some && item.original_source->0 is V4
                && item.original_destination is Some && item.original_destination->0 is V4;
            let v6 = item.original_source is Some && item.original_source->0 is V6
                && item.original_destination is Some && item.original_destination->0 is V6;
            &&& all.len() >= before.len() + 16 && all.take(before.len() as int) == before
            &&& is_signed(s) && s[12] == 0x21
            &&& item.socket_type == SocketType::Unknown ==> done is Ok && s[13] == 0 && number_at(
                s,
                14,
            ) == 0 && s.len() == 16
            &&& item.socket_type == SocketType::Ipv4 ==> s[13] == 0x11 && number_at(s, 14) == 12 && (
            done is Ok <==> v4)
            &&& item.socket_type == SocketType::Ipv6 ==> s[13] == 0x21 && number_at(s, 14) == 36 && (
            done is Ok <==> v6)
            &&& done is Err ==> s.len() == 16 && refused(done, "Both V4 addresses must be present"@)
            &&& item.socket_type == SocketType::Ipv4 && v4 ==> s.len() == 28 && is_v4_at(
                item.original_source,
                s,
                16,
                24,
            ) && is_v4_at(item.original_destination, s, 20, 26)
            &&& item.socket_type == SocketType::Ipv6 && v6 ==> s.len() == 52 && {
                let a = item.original_source->0->V6_0;
                let b = item.original_destination->0->V6_0;
                &&& a.port == number_at(s, 48) && b.port == number_at(s, 50)
                &&& forall|k: int|
                    0 <= k < 8 ==> #[trigger] a.ip.segments@[k] == number_at(s, 16 + 2 * k)
                &&& forall|k: int|
                    0 <= k < 8 ==> #[trigger] b.ip.segments@[k] == number_at(s, 32 + 2 * k)
            }
            &&& final(codec).pending() == old(codec).pending()
        }),
{
    let before = contents(*old(buf));
    let all = contents(*final(buf));
    let s = all.skip(before.len() as int);
    lemma_signature();
    assert(all.take(before.len() as int) =~= before);
    assert(s =~= v2_bytes(item));
    assert(s.take(12) =~= SIGNATURE@);
    match (item.original_source, item.original_destination) {
        (Some(SocketAddr::V4(a)), Some(SocketAddr::V4(b))) => {
            if item.socket_type == SocketType::Ipv4 {
                assert(a.ip.octets@ =~= s.subrange(16, 20));
                assert(b.ip.octets@ =~= s.subrange(20, 24));
            }
        },
        (Some(SocketAddr::V6(a)), Some(SocketAddr::V6(b))) => {
            if item.socket_type == SocketType::Ipv6 {
                assert forall|k: int| 0 <= k < 8 implies #[trigger] a.ip.segments@[k] == number_at(
                    s,
                    16 + 2 * k,
                ) by {
                    assert(s[16 + 2 * k] == segments_bytes(a.ip)[2 * k]);
                    assert(s[16 + 2 * k + 1] == segments_bytes(a.ip)[2 * k + 1]);
                }
                assert forall|k: int| 0 <= k < 8 implies #[trigger] b.ip.segments@[k] == number_at(
                    s,
                    32 + 2 * k,
                ) by {
                    assert(s[32 + 2 * k] == segments_bytes(b.ip)[2 * k]);
                    assert(s[32 + 2 * k + 1] == segments_bytes(b.ip)[2 * k + 1]);
                }
            }
        },
        _ => {},
    }
}

} // verus!
