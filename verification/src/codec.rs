//! Headers of both versions, and what they tell of a connection.
use crate::addr::SocketAddr;
use crate::buffer::{self, contents};
use crate::error::{from_utf8, is_proxy_error, proxy_error, utf8_fault, Error};
use crate::header::{
    address_line, address_words, addresses_of, fault_error, find_eol, framing, line_of, next_position,
    parse_addresses, reports, unknown_line, unknown_words, Family, Framing, HeaderFault, MAX_HEADER_SIZE, PROXY,
    SPACE, TCP4, TCP6, UNKNOWN,
};
use crate::text::{fields, same, split_fields, views};
use bytes::BytesMut;
use vstd::prelude::*;
use vstd::slice::slice_subrange;
use vstd::utf8::{decode_utf8, encode_utf8_decode_utf8};

pub mod v2;

verus! {

/// Type of transport.
#[derive(PartialEq, Eq, Debug, Clone, Copy, Structural)]
pub enum SocketType {
    /// TCP over IPv4.
    Ipv4,
    /// TCP over IPv6.
    Ipv6,
    /// The transport protocol is unknown.
    Unknown,
}

/// What a header tells of a connection.
#[derive(PartialEq, Eq, Debug, Clone)]
pub struct ProxyInfo {
    /// Type of transport.
    pub socket_type: SocketType,
    /// Where the connection came from.
    pub original_source: Option<SocketAddr>,
    /// Where the connection went to.
    pub original_destination: Option<SocketAddr>,
}

impl ProxyInfo {
    /// What is told where nothing is known.
    pub open spec fn unknown() -> ProxyInfo {
        ProxyInfo {
            socket_type: SocketType::Unknown,
            original_source: None,
            original_destination: None,
        }
    }

    /// What is told of a connection with known ends.
    pub open spec fn known(family: Family, source: SocketAddr, destination: SocketAddr) -> ProxyInfo {
        ProxyInfo {
            socket_type: match family {
                Family::V4 => SocketType::Ipv4,
                Family::V6 => SocketType::Ipv6,
            },
            original_source: Some(source),
            original_destination: Some(destination),
        }
    }

    /// What two addresses tell of a connection: both of one family, or none at all.
    pub open spec fn of_addresses(
        source: Option<SocketAddr>,
        destination: Option<SocketAddr>,
    ) -> Option<ProxyInfo> {
        match (source, destination) {
            (Some(SocketAddr::V4(s)), Some(SocketAddr::V4(d))) => Some(
                ProxyInfo::known(Family::V4, SocketAddr::V4(s), SocketAddr::V4(d)),
            ),
            (Some(SocketAddr::V6(s)), Some(SocketAddr::V6(d))) => Some(
                ProxyInfo::known(Family::V6, SocketAddr::V6(s), SocketAddr::V6(d)),
            ),
            (None, None) => Some(ProxyInfo::unknown()),
            _ => None,
        }
    }

    /// Whether the addresses are those that the type of transport calls for.
    pub open spec fn consistent(self) -> bool {
        ProxyInfo::of_addresses(self.original_source, self.original_destination) == Some(self)
    }
}

// The error holds a string, which no specification function can make: what `try_from` gives
// is stated in its own contract.
impl vstd::std_specs::convert::TryFromSpecImpl<(Option<SocketAddr>, Option<SocketAddr>)> for ProxyInfo {
    open spec fn obeys_try_from_spec() -> bool {
        false
    }

    open spec fn try_from_spec(addrs: (Option<SocketAddr>, Option<SocketAddr>)) -> Result<
        Self,
        Error,
    > {
        arbitrary()
    }
}

impl TryFrom<(Option<SocketAddr>, Option<SocketAddr>)> for ProxyInfo {
    type Error = Error;

    fn try_from(addrs: (Option<SocketAddr>, Option<SocketAddr>)) -> (info: Result<Self, Error>)
        ensures
            match ProxyInfo::of_addresses(addrs.0, addrs.1) {
                Some(i) => info == Ok::<ProxyInfo, Error>(i),
                None => info matches Err(e) && is_proxy_error(
                    e,
                    "Inconsistent source and destination addresses"@,
                ),
            },
    {
        match (addrs.0, addrs.1) {
            (Some(SocketAddr::V4(s)), Some(SocketAddr::V4(d))) => Ok(
                ProxyInfo {
                    socket_type: SocketType::Ipv4,
                    original_source: Some(SocketAddr::V4(s)),
                    original_destination: Some(SocketAddr::V4(d)),
                },
            ),
            (Some(SocketAddr::V6(s)), Some(SocketAddr::V6(d))) => Ok(
                ProxyInfo {
                    socket_type: SocketType::Ipv6,
                    original_source: Some(SocketAddr::V6(s)),
                    original_destination: Some(SocketAddr::V6(d)),
                },
            ),
            (None, None) => Ok(
                ProxyInfo {
                    socket_type: SocketType::Unknown,
                    original_source: None,
                    original_destination: None,
                },
            ),
            _ => Err(proxy_error("Inconsistent source and destination addresses")),
        }
    }
}

/// What the line of a version 1 header tells.
pub open spec fn v1_info(line: Seq<u8>) -> Result<ProxyInfo, HeaderFault> {
    let parts = fields(line, SPACE);
    if parts[0] != PROXY@ {
        Err(HeaderFault::WrongTag)
    } else if parts.len() < 2 {
        Err(HeaderFault::TooFewParts)
    } else if parts[1] == UNKNOWN@ {
        Ok(ProxyInfo::unknown())
    } else if parts[1] == TCP4@ && parts.len() == 6 {
        match addresses_of(parts, Family::V4) {
            Ok((source, destination)) => Ok(ProxyInfo::known(Family::V4, source, destination)),
            Err(f) => Err(f),
        }
    } else if parts[1] == TCP6@ && parts.len() == 6 {
        match addresses_of(parts, Family::V6) {
            Ok((source, destination)) => Ok(ProxyInfo::known(Family::V6, source, destination)),
            Err(f) => Err(f),
        }
    } else {
        Err(HeaderFault::Invalid)
    }
}

/// Whether `answer` is what decoding gives where the buffer `s` holds `f`.
pub open spec fn v1_answers(
    s: Seq<u8>,
    f: Framing,
    answer: Result<Option<ProxyInfo>, Error>,
) -> bool {
    match f {
        Framing::More => answer == Ok::<Option<ProxyInfo>, Error>(None),
        Framing::NoEol => answer matches Err(e) && is_proxy_error(
            e,
            "Proxy header v1 does not contain EOL"@,
        ),
        Framing::NotUtf8 { eol } => answer == Err::<Option<ProxyInfo>, Error>(
            Error::Utf8(utf8_fault(s.take(eol))),
        ),
        Framing::Line { eol } => match v1_info(s.take(eol)) {
            Ok(info) => answer == Ok::<Option<ProxyInfo>, Error>(Some(info)),
            Err(f) => answer matches Err(e) && reports(e, f, decode_utf8(s.take(eol))),
        },
    }
}

/// What decoding leaves where the buffer `s` holds `f`. A line leaves the buffer, unless
/// its tag, an address or a port is wrong or it has too few words.
pub open spec fn v1_rest(s: Seq<u8>, f: Framing) -> Seq<u8> {
    match f {
        Framing::Line { eol } => match v1_info(s.take(eol)) {
            Ok(_) => s.skip(eol + 2),
            Err(HeaderFault::Invalid) => s.skip(eol + 2),
            Err(_) => s,
        },
        _ => s,
    }
}

/// How a version 1 header is written.
pub open spec fn v1_text(info: ProxyInfo) -> Seq<u8> {
    match info.socket_type {
        SocketType::Ipv4 => line_of(
            address_words(
                Family::V4,
                info.original_source->0,
                info.original_destination->0,
            ),
        ),
        SocketType::Ipv6 => line_of(
            address_words(
                Family::V6,
                info.original_source->0,
                info.original_destination->0,
            ),
        ),
        SocketType::Unknown => line_of(unknown_words()),
    }
}

/// Reads the line of a version 1 header.
pub fn parse_line(line: &[u8]) -> (info: Result<ProxyInfo, HeaderFault>)
    ensures
        info == v1_info(line@),
{
    let parts = split_fields(line, SPACE);
    let ghost p = views(parts@);
    assert(p.len() == parts@.len());
    assert(p[0] == parts@[0]@);
    if !same(parts[0], &PROXY) {
        return Err(HeaderFault::WrongTag);
    }
    if parts.len() < 2 {
        return Err(HeaderFault::TooFewParts);
    }
    assert(p[1] == parts@[1]@);
    let family = if same(parts[1], &UNKNOWN) {
        return Ok(
            ProxyInfo {
                socket_type: SocketType::Unknown,
                original_source: None,
                original_destination: None,
            },
        );
    } else if same(parts[1], &TCP4) && parts.len() == 6 {
        Family::V4
    } else if same(parts[1], &TCP6) && parts.len() == 6 {
        Family::V6
    } else {
        return Err(HeaderFault::Invalid);
    };
    match parse_addresses(&parts, family) {
        Ok((source, destination)) => Ok(
            ProxyInfo {
                socket_type: match family {
                    Family::V4 => SocketType::Ipv4,
                    Family::V6 => SocketType::Ipv6,
                },
                original_source: Some(source),
                original_destination: Some(destination),
            },
        ),
        Err(f) => Err(f),
    }
}

/// Encoder and decoder of version 1 headers.
pub struct ProxyProtocolCodecV1 {
    next_pos: usize,
}

impl Default for ProxyProtocolCodecV1 {
    fn default() -> (codec: Self)
        ensures
            codec.position() == 0,
    {
        ProxyProtocolCodecV1::new()
    }
}

impl ProxyProtocolCodecV1 {
    /// Where in the buffer the search for the end of the line goes on.
    pub closed spec fn position(self) -> int {
        self.next_pos as int
    }

    /// A codec that has seen nothing yet.
    pub fn new() -> (codec: Self)
        ensures
            codec.position() == 0,
    {
        ProxyProtocolCodecV1 { next_pos: 0 }
    }

    /// Whether the search can go on in the buffer, which may not be shorter than when it
    /// was searched last.
    pub fn resumes_in(&self, buf: &BytesMut) -> (resumes: bool)
        ensures
            resumes == (self.position() <= contents(*buf).len()),
    {
        self.next_pos <= buffer::len(buf)
    }

    /// Takes a header from the front of the buffer, if it is there.
    pub fn decode(&mut self, buf: &mut BytesMut) -> (answer: Result<Option<ProxyInfo>, Error>)
        requires
            old(self).position() <= contents(*old(buf)).len(),
        ensures
            ({
                let s = contents(*old(buf));
                let f = framing(s, old(self).position());
                &&& v1_answers(s, f, answer)
                &&& contents(*final(buf)) == v1_rest(s, f)
                &&& final(self).position() == next_position(s, old(self).position())
            }),
    {
        let bytes = buffer::as_slice(buf);
        let ghost s = bytes@;
        let len = bytes.len();
        match find_eol(bytes, self.next_pos) {
            Some(eol) => {
                let line = slice_subrange(bytes, 0, eol);
                assert(line@ =~= s.take(eol as int));
                let text = match from_utf8(line) {
                    Ok(text) => text,
                    Err(e) => {
                        return Err(Error::Utf8(e));
                    },
                };
                proof {
                    encode_utf8_decode_utf8(text@);
                }
                match parse_line(line) {
                    Ok(info) => {
                        buffer::advance(buf, eol + 2);
                        Ok(Some(info))
                    },
                    Err(f) => {
                        let e = fault_error(f, text);
                        if let HeaderFault::Invalid = f {
                            buffer::advance(buf, eol + 2);
                        }
                        Err(e)
                    },
                }
            },
            None => {
                if len < MAX_HEADER_SIZE {
                    self.next_pos = if len == 0 {
                        0
                    } else {
                        len - 1
                    };
                    Ok(None)
                } else {
                    Err(proxy_error("Proxy header v1 does not contain EOL"))
                }
            },
        }
    }

    /// Appends a header to the buffer.
    pub fn encode(&mut self, item: ProxyInfo, header: &mut BytesMut) -> (done: Result<(), Error>)
        requires
            item.socket_type != SocketType::Unknown ==> item.original_source is Some
                && item.original_destination is Some,
            contents(*old(header)).len() + v1_text(item).len() <= isize::MAX,
        ensures
            done is Ok,
            contents(*final(header)) == contents(*old(header)) + v1_text(item),
            final(self).position() == old(self).position(),
    {
        let family = match item.socket_type {
            SocketType::Ipv4 => Family::V4,
            SocketType::Ipv6 => Family::V6,
            SocketType::Unknown => {
                let line = unknown_line();
                buffer::put(header, line.as_slice());
                return Ok(());
            },
        };
        if let (Some(source), Some(destination)) = (
            item.original_source,
            item.original_destination,
        ) {
            let line = address_line(family, &source, &destination);
            buffer::put(header, line.as_slice());
        }
        Ok(())
    }
}

/// What was decoded from the start of a stream; an error where the stream ended without a
/// header.
pub fn required_header(decoded: Option<ProxyInfo>) -> (info: Result<ProxyInfo, Error>)
    ensures
        match decoded {
            Some(i) => info == Ok::<ProxyInfo, Error>(i),
            None => info matches Err(e) && is_proxy_error(e, "Proxy header is missing"@),
        },
{
    match decoded {
        Some(info) => Ok(info),
        None => Err(proxy_error("Proxy header is missing")),
    }
}

} // verus!
