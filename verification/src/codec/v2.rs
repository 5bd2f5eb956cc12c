//! Version 2 headers, which are binary.
use super::{ProxyInfo, SocketType};
use crate::addr::SocketAddr;
use crate::buffer::{self, contents};
use crate::error::{is_proxy_error, proxy_error, Error};
use crate::header::Family;
use bytes::BytesMut;
use proto::{
    header_bytes, header_fault_text, header_of, ip4_bytes, ip4_of, ip6_bytes, ip6_of, Header, HeaderV2Fault,
    Ip4Addresses, Ip6Addresses, PROTOCOL_TCP_IP4, PROTOCOL_TCP_IP6, SIZE_HEADER,
};
use vstd::prelude::*;

pub mod proto;

verus! {

/// The bytes that every version 2 header starts with.
pub const SIGNATURE: [u8; 12] = [
    0x0d,
    0x0a,
    0x0d,
    0x0a,
    0x00,
    0x0d,
    0x0a,
    0x51,
    0x55,
    0x49,
    0x54,
    0x0a,
];

/// A fixed part that was read: the type of transport, and how many bytes follow it.
pub struct Pending {
    pub socket_type: SocketType,
    pub remains: int,
}

/// What decoding finds in a buffer.
pub enum Found {
    /// The header is not all there yet.
    More,
    /// The fixed part is wrong.
    BadHeader(HeaderV2Fault),
    /// The header leaves no room for the addresses of its family.
    NoRoom(Family),
    /// A header.
    Info(ProxyInfo),
}

/// What decoding finds, what is pending after it, and what it leaves of the buffer.
pub struct Step {
    pub found: Found,
    pub pending: Option<Pending>,
    pub rest: Seq<u8>,
}

/// The type of transport that a protocol byte stands for.
pub open spec fn socket_type_of(protocol: u8) -> SocketType {
    if protocol == PROTOCOL_TCP_IP4 {
        SocketType::Ipv4
    } else if protocol == PROTOCOL_TCP_IP6 {
        SocketType::Ipv6
    } else {
        SocketType::Unknown
    }
}

/// What the part of a header that holds the addresses tells.
pub open spec fn info_of(socket_type: SocketType, data: Seq<u8>) -> Result<ProxyInfo, Family> {
    match socket_type {
        SocketType::Ipv4 => match ip4_of(data) {
            Some((source, destination)) => Ok(
                ProxyInfo::known(Family::V4, SocketAddr::V4(source), SocketAddr::V4(destination)),
            ),
            None => Err(Family::V4),
        },
        SocketType::Ipv6 => match ip6_of(data) {
            Some((source, destination)) => Ok(
                ProxyInfo::known(Family::V6, SocketAddr::V6(source), SocketAddr::V6(destination)),
            ),
            None => Err(Family::V6),
        },
        SocketType::Unknown => Ok(ProxyInfo::unknown()),
    }
}

/// Decoding of what follows a fixed part.
pub open spec fn v2_body(pending: Pending, s: Seq<u8>) -> Step {
    if s.len() < pending.remains {
        Step { found: Found::More, pending: Some(pending), rest: s }
    } else {
        let rest = s.skip(pending.remains);
        match info_of(pending.socket_type, s.take(pending.remains)) {
            Ok(info) => Step { found: Found::Info(info), pending: None, rest },
            Err(family) => Step { found: Found::NoRoom(family), pending: Some(pending), rest },
        }
    }
}

/// Decoding of a buffer.
pub open spec fn v2_step(pending: Option<Pending>, s: Seq<u8>) -> Step {
    match pending {
        Some(p) => v2_body(p, s),
        None => if s.len() < SIZE_HEADER {
            Step { found: Found::More, pending: None, rest: s }
        } else {
            match header_of(s.take(SIZE_HEADER as int)) {
                Ok(h) => v2_body(
                    Pending { socket_type: socket_type_of(h.protocol), remains: h.len as int },
                    s.skip(SIZE_HEADER as int),
                ),
                Err(f) => Step { found: Found::BadHeader(f), pending: None, rest: s },
            }
        },
    }
}

/// Whether `answer` tells what decoding found.
pub open spec fn v2_answers(found: Found, answer: Result<Option<ProxyInfo>, Error>) -> bool {
    match found {
        Found::More => answer == Ok::<Option<ProxyInfo>, Error>(None),
        Found::BadHeader(f) => answer matches Err(e) && is_proxy_error(e, header_fault_text(f)),
        Found::NoRoom(Family::V4) => answer matches Err(e) && is_proxy_error(
            e,
            "Proxy header v2 is too short for V4 addresses"@,
        ),
        Found::NoRoom(Family::V6) => answer matches Err(e) && is_proxy_error(
            e,
            "Proxy header v2 is too short for V6 addresses"@,
        ),
        Found::Info(info) => answer == Ok::<Option<ProxyInfo>, Error>(Some(info)),
    }
}

/// The addresses that a header of the given type holds, as bytes; none where the type
/// calls for addresses that are not there.
pub open spec fn v2_addresses(info: ProxyInfo) -> Option<Seq<u8>> {
    match (info.socket_type, info.original_source, info.original_destination) {
        (SocketType::Ipv4, Some(SocketAddr::V4(s)), Some(SocketAddr::V4(d))) => Some(
            ip4_bytes(s, d),
        ),
        (SocketType::Ipv6, Some(SocketAddr::V6(s)), Some(SocketAddr::V6(d))) => Some(
            ip6_bytes(s, d),
        ),
        (SocketType::Unknown, _, _) => Some(Seq::empty()),
        _ => None,
    }
}

/// How a version 2 header is written.
pub open spec fn v2_bytes(info: ProxyInfo) -> Seq<u8> {
    header_bytes(Header::spec_new(info.socket_type)) + match v2_addresses(info) {
        Some(a) => a,
        None => Seq::empty(),
    }
}

/// Encoder and decoder of version 2 headers.
pub struct ProxyProtocolCodecV2 {
    socket_type: Option<SocketType>,
    remains: usize,
}

impl Default for ProxyProtocolCodecV2 {
    fn default() -> (codec: Self)
        ensures
            codec.pending() is None,
    {
        ProxyProtocolCodecV2 { socket_type: None, remains: 0 }
    }
}

impl ProxyProtocolCodecV2 {
    /// The fixed part that was read and not used up.
    pub closed spec fn pending(self) -> Option<Pending> {
        match self.socket_type {
            Some(socket_type) => Some(Pending { socket_type, remains: self.remains as int }),
            None => None,
        }
    }

    /// A codec that has seen nothing yet.
    pub fn new() -> (codec: Self)
        ensures
            codec.pending() is None,
    {
        Default::default()
    }

    /// Takes a header from the front of the buffer, if it is there. The fixed part leaves
    /// the buffer as soon as it is there.
    pub fn decode(&mut self, buf: &mut BytesMut) -> (answer: Result<Option<ProxyInfo>, Error>)
        ensures
            ({
                let step = v2_step(old(self).pending(), contents(*old(buf)));
                &&& v2_answers(step.found, answer)
                &&& final(self).pending() == step.pending
                &&& contents(*final(buf)) == step.rest
            }),
    {
        if self.socket_type.is_none() {
            if buffer::len(buf) < SIZE_HEADER as usize {
                return Ok(None);
            }
            let header = match Header::deserialize(buf) {
                Ok(header) => header,
                Err(e) => {
                    return Err(e);
                },
            };
            self.remains = header.len as usize;
            self.socket_type = Some(
                if header.protocol == PROTOCOL_TCP_IP4 {
                    SocketType::Ipv4
                } else if header.protocol == PROTOCOL_TCP_IP6 {
                    SocketType::Ipv6
                } else {
                    SocketType::Unknown
                },
            );
        }
        let socket_type = match self.socket_type {
            Some(socket_type) => socket_type,
            None => SocketType::Unknown,
        };
        if buffer::len(buf) < self.remains {
            return Ok(None);
        }
        let data = buffer::split_to(buf, self.remains);
        let info = match socket_type {
            SocketType::Ipv4 => match Ip4Addresses::deserialize(&data) {
                Ok(a) => ProxyInfo {
                    socket_type,
                    original_source: Some(SocketAddr::V4(a.source)),
                    original_destination: Some(SocketAddr::V4(a.destination)),
                },
                Err(e) => {
                    return Err(e);
                },
            },
            SocketType::Ipv6 => match Ip6Addresses::deserialize(&data) {
                Ok(a) => ProxyInfo {
                    socket_type,
                    original_source: Some(SocketAddr::V6(a.source)),
                    original_destination: Some(SocketAddr::V6(a.destination)),
                },
                Err(e) => {
                    return Err(e);
                },
            },
            SocketType::Unknown => ProxyInfo {
                socket_type,
                original_source: None,
                original_destination: None,
            },
        };
        self.socket_type = None;
        self.remains = 0;
        Ok(Some(info))
    }

    /// Appends a header to the buffer. Where the type calls for addresses that are not
    /// there, the fixed part is appended all the same.
    pub fn encode(&mut self, item: ProxyInfo, buf: &mut BytesMut) -> (done: Result<(), Error>)
        requires
            contents(*old(buf)).len() + v2_bytes(item).len() <= isize::MAX,
        ensures
            contents(*final(buf)) == contents(*old(buf)) + v2_bytes(item),
            done is Ok <==> v2_addresses(item) is Some,
            done matches Err(e) ==> is_proxy_error(e, "Both V4 addresses must be present"@),
            final(self).pending() == old(self).pending(),
    {
        let header = Header::new(item.socket_type);
        header.serialize(buf);
        let ghost fixed = contents(*buf);
        assert(fixed + Seq::<u8>::empty() =~= fixed);
        assert(v2_addresses(item) is None ==> v2_bytes(item) =~= header_bytes(header));
        match (item.socket_type, item.original_source, item.original_destination) {
            (
                SocketType::Ipv4,
                Some(SocketAddr::V4(source)),
                Some(SocketAddr::V4(destination)),
            ) => {
                let addresses = Ip4Addresses { source, destination };
                addresses.serialize(buf);
                Ok(())
            },
            (
                SocketType::Ipv6,
                Some(SocketAddr::V6(source)),
                Some(SocketAddr::V6(destination)),
            ) => {
                let addresses = Ip6Addresses { source, destination };
                addresses.serialize(buf);
                Ok(())
            },
            (SocketType::Unknown, _, _) => Ok(()),
            _ => Err(proxy_error("Both V4 addresses must be present")),
        }
    }
}

} // verus!
