//! The parts of a version 2 header as bytes. Numbers stand high byte first.
use super::SIGNATURE;
use crate::addr::{Ipv4Addr, Ipv6Addr, SocketAddrV4, SocketAddrV6};
use crate::buffer::{self, contents};
use crate::codec::SocketType;
use crate::error::{is_proxy_error, proxy_error, Error};
use crate::text::same;
use bytes::BytesMut;
use vstd::prelude::*;
use vstd::slice::slice_subrange;

verus! {

/// The length of the fixed part.
pub const SIZE_HEADER: u16 = 16;

/// The length of two IPv4 addresses with their ports.
pub const SIZE_ADDRESSES_IP4: u16 = 12;

/// The length of two IPv6 addresses with their ports.
pub const SIZE_ADDRESSES_IP6: u16 = 36;

/// Version 2, and the command to take the addresses of the header.
pub const VERSION_COMMAND: u8 = 0x21;

/// A protocol that is not told.
pub const PROTOCOL_UNSPEC: u8 = 0x00;

/// TCP over IPv4.
pub const PROTOCOL_TCP_IP4: u8 = 0x11;

/// TCP over IPv6.
pub const PROTOCOL_TCP_IP6: u8 = 0x21;

/// The fixed part of a header, behind its signature.
#[derive(Clone, Copy, Debug, PartialEq, Eq)]
pub struct Header {
    /// The version in the high four bits, the command in the low four.
    pub version_command: u8,
    /// Address family and transport protocol.
    pub protocol: u8,
    /// How many bytes follow.
    pub len: u16,
}

/// What is wrong with a fixed part.
#[derive(Clone, Copy, Debug, PartialEq, Eq)]
pub enum HeaderV2Fault {
    Signature,
    Version,
    Command,
}

/// A fault in words.
pub open spec fn header_fault_text(fault: HeaderV2Fault) -> Seq<char> {
    match fault {
        HeaderV2Fault::Signature => "Signature of proxy header v2 is wrong"@,
        HeaderV2Fault::Version => "Version of proxy header v2 is not supported"@,
        HeaderV2Fault::Command => "Command of proxy header v2 is not supported"@,
    }
}

/// A number as two bytes.
pub open spec fn u16_bytes(n: u16) -> Seq<u8> {
    seq![(n / 0x100) as u8, (n % 0x100) as u8]
}

/// The number that two bytes stand for.
pub open spec fn u16_of(high: u8, low: u8) -> u16 {
    (high * 0x100 + low) as u16
}

/// A fixed part as bytes.
pub open spec fn header_bytes(h: Header) -> Seq<u8> {
    SIGNATURE@ + seq![h.version_command, h.protocol] + u16_bytes(h.len)
}

/// The fixed part that bytes stand for: the signature, version 2, and one of its two
/// commands.
pub open spec fn header_of(s: Seq<u8>) -> Result<Header, HeaderV2Fault> {
    if s.take(12) != SIGNATURE@ {
        Err(HeaderV2Fault::Signature)
    } else if s[12] / 0x10 != 2 {
        Err(HeaderV2Fault::Version)
    } else if s[12] % 0x10 > 1 {
        Err(HeaderV2Fault::Command)
    } else {
        Ok(Header { version_command: s[12], protocol: s[13], len: u16_of(s[14], s[15]) })
    }
}

/// Two IPv4 addresses and their ports as bytes.
pub open spec fn ip4_bytes(source: SocketAddrV4, destination: SocketAddrV4) -> Seq<u8> {
    source.ip.octets@ + destination.ip.octets@ + u16_bytes(source.port) + u16_bytes(
        destination.port,
    )
}

/// The IPv4 addresses and ports that bytes start with.
pub open spec fn ip4_of(s: Seq<u8>) -> Option<(SocketAddrV4, SocketAddrV4)> {
    if s.len() < SIZE_ADDRESSES_IP4 {
        None
    } else {
        Some(
            (
                SocketAddrV4 {
                    ip: Ipv4Addr { octets: [s[0], s[1], s[2], s[3]] },
                    port: u16_of(s[8], s[9]),
                },
                SocketAddrV4 {
                    ip: Ipv4Addr { octets: [s[4], s[5], s[6], s[7]] },
                    port: u16_of(s[10], s[11]),
                },
            ),
        )
    }
}

/// An IPv6 address as bytes.
pub open spec fn segments_bytes(ip: Ipv6Addr) -> Seq<u8> {
    Seq::new(16, |i: int| u16_bytes(ip.segments[i / 2])[i % 2])
}

/// The IPv6 address that the bytes from the place `at` on stand for.
pub open spec fn segments_of(s: Seq<u8>, at: int) -> Ipv6Addr {
    Ipv6Addr {
        segments: [
            u16_of(s[at], s[at + 1]),
            u16_of(s[at + 2], s[at + 3]),
            u16_of(s[at + 4], s[at + 5]),
            u16_of(s[at + 6], s[at + 7]),
            u16_of(s[at + 8], s[at + 9]),
            u16_of(s[at + 10], s[at + 11]),
            u16_of(s[at + 12], s[at + 13]),
            u16_of(s[at + 14], s[at + 15]),
        ],
    }
}

/// Two IPv6 addresses and their ports as bytes. Flow labels and scopes are not written.
pub open spec fn ip6_bytes(source: SocketAddrV6, destination: SocketAddrV6) -> Seq<u8> {
    segments_bytes(source.ip) + segments_bytes(destination.ip) + u16_bytes(source.port)
        + u16_bytes(destination.port)
}

/// The IPv6 addresses and ports that bytes start with.
pub open spec fn ip6_of(s: Seq<u8>) -> Option<(SocketAddrV6, SocketAddrV6)> {
    if s.len() < SIZE_ADDRESSES_IP6 {
        None
    } else {
        Some(
            (
                SocketAddrV6 {
                    ip: segments_of(s, 0),
                    port: u16_of(s[32], s[33]),
                    flowinfo: 0,
                    scope_id: 0,
                },
                SocketAddrV6 {
                    ip: segments_of(s, 16),
                    port: u16_of(s[34], s[35]),
                    flowinfo: 0,
                    scope_id: 0,
                },
            ),
        )
    }
}

fn join_u16(high: u8, low: u8) -> (n: u16)
    ensures
        n == u16_of(high, low),
{
    high as u16 * 0x100 + low as u16
}

impl Header {
    /// The fixed part for a type of transport.
    pub open spec fn spec_new(socket_type: SocketType) -> Header {
        match socket_type {
            SocketType::Ipv4 => Header {
                version_command: VERSION_COMMAND,
                protocol: PROTOCOL_TCP_IP4,
                len: SIZE_ADDRESSES_IP4,
            },
            SocketType::Ipv6 => Header {
                version_command: VERSION_COMMAND,
                protocol: PROTOCOL_TCP_IP6,
                len: SIZE_ADDRESSES_IP6,
            },
            SocketType::Unknown => Header {
                version_command: VERSION_COMMAND,
                protocol: PROTOCOL_UNSPEC,
                len: 0,
            },
        }
    }

    /// The fixed part for a type of transport.
    pub fn new(socket_type: SocketType) -> (header: Header)
        ensures
            header == Header::spec_new(socket_type),
    {
        let (protocol, len): (u8, u16) = match socket_type {
            SocketType::Ipv4 => (PROTOCOL_TCP_IP4, SIZE_ADDRESSES_IP4),
            SocketType::Ipv6 => (PROTOCOL_TCP_IP6, SIZE_ADDRESSES_IP6),
            SocketType::Unknown => (PROTOCOL_UNSPEC, 0),
        };
        Header { version_command: VERSION_COMMAND, protocol, len }
    }

    /// Appends the fixed part to the buffer.
    pub fn serialize(&self, buf: &mut BytesMut)
        requires
            contents(*old(buf)).len() + SIZE_HEADER <= isize::MAX,
        ensures
            contents(*final(buf)) == contents(*old(buf)) + header_bytes(*self),
    {
        let tail: [u8; 4] = [
            self.version_command,
            self.protocol,
            (self.len / 0x100) as u8,
            (self.len % 0x100) as u8,
        ];
        buffer::put(buf, &SIGNATURE);
        buffer::put(buf, &tail);
        assert(contents(*buf) =~= contents(*old(buf)) + header_bytes(*self));
    }

    /// Takes the fixed part from the front of the buffer. Where it is wrong, the buffer
    /// stays as it is.
    pub fn deserialize(buf: &mut BytesMut) -> (header: Result<Header, Error>)
        requires
            contents(*old(buf)).len() >= SIZE_HEADER,
        ensures
            match header_of(contents(*old(buf)).take(SIZE_HEADER as int)) {
                Ok(h) => {
                    &&& header == Ok::<Header, Error>(h)
                    &&& contents(*final(buf)) == contents(*old(buf)).skip(SIZE_HEADER as int)
                },
                Err(f) => {
                    &&& header matches Err(e) && is_proxy_error(e, header_fault_text(f))
                    &&& contents(*final(buf)) == contents(*old(buf))
                },
            },
    {
        let bytes = buffer::as_slice(buf);
        let ghost s = contents(*old(buf)).take(SIZE_HEADER as int);
        assert(bytes@.subrange(0, 12) =~= s.take(12));
        if !same(slice_subrange(bytes, 0, 12), &SIGNATURE) {
            return Err(proxy_error("Signature of proxy header v2 is wrong"));
        }
        let version_command: u8 = bytes[12];
        let protocol: u8 = bytes[13];
        let len: u16 = join_u16(bytes[14], bytes[15]);
        if version_command / 0x10 != 2 {
            return Err(proxy_error("Version of proxy header v2 is not supported"));
        }
        if version_command % 0x10 > 1 {
            return Err(proxy_error("Command of proxy header v2 is not supported"));
        }
        buffer::advance(buf, SIZE_HEADER as usize);
        Ok(Header { version_command, protocol, len })
    }
}

/// Two IPv4 addresses and their ports.
#[derive(Clone, Copy, Debug, PartialEq, Eq)]
pub struct Ip4Addresses {
    pub source: SocketAddrV4,
    pub destination: SocketAddrV4,
}

impl Ip4Addresses {
    /// Appends the addresses to the buffer.
    pub fn serialize(&self, buf: &mut BytesMut)
        requires
            contents(*old(buf)).len() + SIZE_ADDRESSES_IP4 <= isize::MAX,
        ensures
            contents(*final(buf)) == contents(*old(buf)) + ip4_bytes(self.source, self.destination),
    {
        let ports: [u8; 4] = [
            (self.source.port / 0x100) as u8,
            (self.source.port % 0x100) as u8,
            (self.destination.port / 0x100) as u8,
            (self.destination.port % 0x100) as u8,
        ];
        buffer::put(buf, &self.source.ip.octets);
        buffer::put(buf, &self.destination.ip.octets);
        buffer::put(buf, &ports);
        assert(contents(*buf) =~= contents(*old(buf)) + ip4_bytes(self.source, self.destination));
    }

    /// Reads the addresses that the buffer starts with. It may be too short for them.
    pub fn deserialize(data: &BytesMut) -> (addresses: Result<Ip4Addresses, Error>)
        ensures
            match ip4_of(contents(*data)) {
                Some((source, destination)) => addresses == Ok::<Ip4Addresses, Error>(
                    Ip4Addresses { source, destination },
                ),
                None => addresses matches Err(e) && is_proxy_error(
                    e,
                    "Proxy header v2 is too short for V4 addresses"@,
                ),
            },
    {
        let s = buffer::as_slice(data);
        if s.len() < SIZE_ADDRESSES_IP4 as usize {
            return Err(proxy_error("Proxy header v2 is too short for V4 addresses"));
        }
        Ok(
            Ip4Addresses {
                source: SocketAddrV4 {
                    ip: Ipv4Addr { octets: [s[0], s[1], s[2], s[3]] },
                    port: join_u16(s[8], s[9]),
                },
                destination: SocketAddrV4 {
                    ip: Ipv4Addr { octets: [s[4], s[5], s[6], s[7]] },
                    port: join_u16(s[10], s[11]),
                },
            },
        )
    }
}

/// Two IPv6 addresses and their ports.
#[derive(Clone, Copy, Debug, PartialEq, Eq)]
pub struct Ip6Addresses {
    pub source: SocketAddrV6,
    pub destination: SocketAddrV6,
}

fn push_segments(out: &mut Vec<u8>, ip: &Ipv6Addr)
    ensures
        final(out)@ == old(out)@ + segments_bytes(*ip),
{
    let mut i: usize = 0;
    while i < 8
        invariant
            i <= 8,
            out@ == old(out)@ + segments_bytes(*ip).take(2 * i),
        decreases 8 - i,
    {
        let n: u16 = ip.segments[i];
        out.push((n / 0x100) as u8);
        out.push((n % 0x100) as u8);
        assert(u16_bytes(ip.segments[i as int]) =~= seq![(n / 0x100) as u8, (n % 0x100) as u8]);
        assert(segments_bytes(*ip)[2 * i] == (n / 0x100) as u8);
        assert(segments_bytes(*ip)[2 * i + 1] == (n % 0x100) as u8);
        i += 1;
        assert(out@ =~= old(out)@ + segments_bytes(*ip).take(2 * i));
    }
    assert(segments_bytes(*ip).take(16) =~= segments_bytes(*ip));
}

fn read_segments(s: &[u8], at: usize) -> (ip: Ipv6Addr)
    requires
        at + 16 <= s@.len(),
    ensures
        ip == segments_of(s@, at as int),
{
    Ipv6Addr {
        segments: [
            join_u16(s[at], s[at + 1]),
            join_u16(s[at + 2], s[at + 3]),
            join_u16(s[at + 4], s[at + 5]),
            join_u16(s[at + 6], s[at + 7]),
            join_u16(s[at + 8], s[at + 9]),
            join_u16(s[at + 10], s[at + 11]),
            join_u16(s[at + 12], s[at + 13]),
            join_u16(s[at + 14], s[at + 15]),
        ],
    }
}

impl Ip6Addresses {
    /// Appends the addresses to the buffer.
    pub fn serialize(&self, buf: &mut BytesMut)
        requires
            contents(*old(buf)).len() + SIZE_ADDRESSES_IP6 <= isize::MAX,
        ensures
            contents(*final(buf)) == contents(*old(buf)) + ip6_bytes(self.source, self.destination),
    {
        let mut out: Vec<u8> = Vec::new();
        push_segments(&mut out, &self.source.ip);
        push_segments(&mut out, &self.destination.ip);
        out.push((self.source.port / 0x100) as u8);
        out.push((self.source.port % 0x100) as u8);
        out.push((self.destination.port / 0x100) as u8);
        out.push((self.destination.port % 0x100) as u8);
        assert(out@ =~= ip6_bytes(self.source, self.destination));
        buffer::put(buf, out.as_slice());
    }

    /// Reads the addresses that the buffer starts with. It may be too short for them.
    pub fn deserialize(data: &BytesMut) -> (addresses: Result<Ip6Addresses, Error>)
        ensures
            match ip6_of(contents(*data)) {
                Some((source, destination)) => addresses == Ok::<Ip6Addresses, Error>(
                    Ip6Addresses { source, destination },
                ),
                None => addresses matches Err(e) && is_proxy_error(
                    e,
                    "Proxy header v2 is too short for V6 addresses"@,
                ),
            },
    {
        let s = buffer::as_slice(data);
        if s.len() < SIZE_ADDRESSES_IP6 as usize {
            return Err(proxy_error("Proxy header v2 is too short for V6 addresses"));
        }
        Ok(
            Ip6Addresses {
                source: SocketAddrV6 {
                    ip: read_segments(s, 0),
                    port: join_u16(s[32], s[33]),
                    flowinfo: 0,
                    scope_id: 0,
                },
                destination: SocketAddrV6 {
                    ip: read_segments(s, 16),
                    port: join_u16(s[34], s[35]),
                    flowinfo: 0,
                    scope_id: 0,
                },
            },
        )
    }
}

} // verus!
