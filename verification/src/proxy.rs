//! Version 1 headers in front of a stream, which may be left in it.
use crate::buffer::{self, contents};
use crate::error::{from_utf8, is_proxy_error, proxy_error, utf8_fault, Error};
use crate::header::{
    addresses_of, fault_error, find_eol, framing, next_position, parse_addresses, reports, Family, Framing,
    HeaderFault, SPACE, TCP4, TCP6, UNKNOWN,
};
use crate::text::{fields, same, split_fields, views};
use bytes::BytesMut;
use vstd::prelude::*;
use vstd::slice::slice_subrange;
use vstd::utf8::{decode_utf8, encode_utf8_decode_utf8};

pub use crate::codec::{ProxyInfo, SocketType};
pub use crate::header::{MAX_HEADER_SIZE, MIN_HEADER_SIZE};

verus! {

/// What the line of a header tells. The first word is not looked at.
pub open spec fn line_info(line: Seq<u8>) -> Result<ProxyInfo, HeaderFault> {
    let parts = fields(line, SPACE);
    if parts.len() < 2 {
        Err(HeaderFault::TooFewParts)
    } else if parts[1] == UNKNOWN@ {
        Ok(ProxyInfo::unknown())
    } else if parts[1] == TCP4@ && parts.len() == 6 {
        match addresses_of(parts, Family::V4) {
            Ok((source, destination)) => Ok(ProxyInfo::known(Family::V4, source, destination)),
            Err(f) => Err(f),
        }
    } else if parts[1] == TCP6@ && parts.len() == 6 {
        match addresses_of(parts, Family::V6) {
            Ok((source, destination)) => Ok(ProxyInfo::known(Family::V6, source, destination)),
            Err(f) => Err(f),
        }
    } else {
        Err(HeaderFault::Invalid)
    }
}

/// Whether `answer` is what decoding gives where the buffer `s` holds `f`.
pub open spec fn proxy_answers(
    s: Seq<u8>,
    f: Framing,
    answer: Result<Option<ProxyInfo>, Error>,
) -> bool {
    match f {
        Framing::More => answer == Ok::<Option<ProxyInfo>, Error>(None),
        Framing::NoEol => answer matches Err(e) && is_proxy_error(
            e,
            "Proxy header v1 does not contain EOL"@,
        ),
        Framing::NotUtf8 { eol } => answer == Err::<Option<ProxyInfo>, Error>(
            Error::Utf8(utf8_fault(s.take(eol))),
        ),
        Framing::Line { eol } => match line_info(s.take(eol)) {
            Ok(info) => answer == Ok::<Option<ProxyInfo>, Error>(Some(info)),
            Err(f) => answer matches Err(e) && reports(e, f, decode_utf8(s.take(eol))),
        },
    }
}

/// What decoding leaves where the buffer `s` holds `f`. A line leaves the buffer, unless it
/// is to be passed on, an address or a port is wrong or it has too few words.
pub open spec fn proxy_rest(s: Seq<u8>, f: Framing, pass_header: bool) -> Seq<u8> {
    match f {
        Framing::Line { eol } => match line_info(s.take(eol)) {
            _ if pass_header => s,
            Ok(_) => s.skip(eol + 2),
            Err(HeaderFault::Invalid) => s.skip(eol + 2),
            Err(_) => s,
        },
        _ => s,
    }
}

/// Reads the line of a header.
pub fn parse_line(line: &[u8]) -> (info: Result<ProxyInfo, HeaderFault>)
    ensures
        info == line_info(line@),
{
    let parts = split_fields(line, SPACE);
    let ghost p = views(parts@);
    assert(p.len() == parts@.len());
    if parts.len() < 2 {
        return Err(HeaderFault::TooFewParts);
    }
    assert(p[1] == parts@[1]@);
    let family = if same(parts[1], &UNKNOWN) {
        return Ok(
            ProxyInfo {
                socket_type: SocketType::Unknown,
                original_source: None,
                original_destination: None,
            },
        );
    } else if same(parts[1], &TCP4) && parts.len() == 6 {
        Family::V4
    } else if same(parts[1], &TCP6) && parts.len() == 6 {
        Family::V6
    } else {
        return Err(HeaderFault::Invalid);
    };
    match parse_addresses(&parts, family) {
        Ok((source, destination)) => Ok(
            ProxyInfo {
                socket_type: match family {
                    Family::V4 => SocketType::Ipv4,
                    Family::V6 => SocketType::Ipv6,
                },
                original_source: Some(source),
                original_destination: Some(destination),
            },
        ),
        Err(f) => Err(f),
    }
}

/// Decoder of version 1 headers in front of a stream.
pub struct ProxyProtocolCodecV1 {
    next_pos: usize,
    pass_header: bool,
}

impl Default for ProxyProtocolCodecV1 {
    fn default() -> (codec: Self)
        ensures
            codec.position() == 0,
            !codec.passes_header(),
    {
        ProxyProtocolCodecV1::new()
    }
}

impl ProxyProtocolCodecV1 {
    /// Where in the buffer the search for the end of the line goes on.
    pub closed spec fn position(self) -> int {
        self.next_pos as int
    }

    /// Whether a header stays in the buffer.
    pub closed spec fn passes_header(self) -> bool {
        self.pass_header
    }

    /// A decoder that has seen nothing yet and takes headers from the buffer.
    pub fn new() -> (codec: Self)
        ensures
            codec.position() == 0,
            !codec.passes_header(),
    {
        ProxyProtocolCodecV1 { next_pos: 0, pass_header: false }
    }

    /// A decoder that has seen nothing yet and leaves headers in the buffer if told so.
    pub fn new_with_pass_header(pass_header: bool) -> (codec: Self)
        ensures
            codec.position() == 0,
            codec.passes_header() == pass_header,
    {
        ProxyProtocolCodecV1 { next_pos: 0, pass_header }
    }

    /// Whether the search can go on in the buffer, which may not be shorter than when it
    /// was searched last.
    pub fn resumes_in(&self, buf: &BytesMut) -> (resumes: bool)
        ensures
            resumes == (self.position() <= contents(*buf).len()),
    {
        self.next_pos <= buffer::len(buf)
    }

    /// Reads a header at the front of the buffer, if it is there, and takes it from the
    /// buffer unless it is to be passed on.
    pub fn decode(&mut self, buf: &mut BytesMut) -> (answer: Result<Option<ProxyInfo>, Error>)
        requires
            old(self).position() <= contents(*old(buf)).len(),
        ensures
            ({
                let s = contents(*old(buf));
                let f = framing(s, old(self).position());
                &&& proxy_answers(s, f, answer)
                &&& contents(*final(buf)) == proxy_rest(s, f, old(self).passes_header())
                &&& final(self).position() == next_position(s, old(self).position())
            }),
            final(self).passes_header() == old(self).passes_header(),
    {
        let bytes = buffer::as_slice(buf);
        let ghost s = bytes@;
        let len = bytes.len();
        match find_eol(bytes, self.next_pos) {
            Some(eol) => {
                let line = slice_subrange(bytes, 0, eol);
                assert(line@ =~= s.take(eol as int));
                let text = match from_utf8(line) {
                    Ok(text) => text,
                    Err(e) => {
                        return Err(Error::Utf8(e));
                    },
                };
                proof {
                    encode_utf8_decode_utf8(text@);
                }
                match parse_line(line) {
                    Ok(info) => {
                        if !self.pass_header {
                            buffer::advance(buf, eol + 2);
                        }
                        Ok(Some(info))
                    },
                    Err(f) => {
                        let e = fault_error(f, text);
                        if let HeaderFault::Invalid = f {
                            if !self.pass_header {
                                buffer::advance(buf, eol + 2);
                            }
                        }
                        Err(e)
                    },
                }
            },
            None => {
                if len < MAX_HEADER_SIZE {
                    self.next_pos = if len == 0 {
                        0
                    } else {
                        len - 1
                    };
                    Ok(None)
                } else {
                    Err(proxy_error("Proxy header v1 does not contain EOL"))
                }
            },
        }
    }
}

} // verus!
