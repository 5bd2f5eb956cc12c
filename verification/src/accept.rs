//! The header at the start of an accepted connection.
use crate::addr::SocketAddr;
use crate::buffer::{self, contents};
use crate::codec::v2::SIGNATURE;
use crate::error::{is_proxy_error, proxy_error, utf8_fault, Error};
use crate::header::{framing, next_position, reports, Framing, MIN_HEADER_SIZE};
use crate::proxy::{line_info, proxy_rest, ProxyProtocolCodecV1};
use crate::text::same;
use bytes::BytesMut;
use vstd::prelude::*;
use vstd::slice::slice_subrange;
use vstd::utf8::decode_utf8;

verus! {

/// `PROXY `, which a version 1 header starts with.
pub const V1_TAG: [u8; 6] = [0x50, 0x52, 0x4f, 0x58, 0x59, 0x20];

/// What an acceptor is set to.
pub struct AcceptorView {
    pub pass_proxy_header: bool,
    pub require_proxy_header: bool,
    pub support_v1: bool,
    pub support_v2: bool,
}

/// How accepted connections are treated.
pub struct Acceptor {
    pass_proxy_header: bool,
    require_proxy_header: bool,
    support_v1: bool,
    support_v2: bool,
}

impl View for Acceptor {
    type V = AcceptorView;

    closed spec fn view(&self) -> AcceptorView {
        AcceptorView {
            pass_proxy_header: self.pass_proxy_header,
            require_proxy_header: self.require_proxy_header,
            support_v1: self.support_v1,
            support_v2: self.support_v2,
        }
    }
}

/// What an acceptor is set to at first: both versions are supported, none is required,
/// and headers are taken from the stream.
pub open spec fn default_settings() -> AcceptorView {
    AcceptorView {
        pass_proxy_header: false,
        require_proxy_header: false,
        support_v1: true,
        support_v2: true,
    }
}

impl Default for Acceptor {
    fn default() -> (acceptor: Self)
        ensures
            acceptor@ == default_settings(),
    {
        Acceptor {
            pass_proxy_header: false,
            require_proxy_header: false,
            support_v1: true,
            support_v2: true,
        }
    }
}

impl Acceptor {
    /// An acceptor as it is set at first.
    pub fn new() -> (acceptor: Self)
        ensures
            acceptor@ == default_settings(),
    {
        Acceptor::default()
    }

    /// Sets whether a header stays in front of the stream.
    pub fn pass_proxy_header(self, pass_proxy_header: bool) -> (acceptor: Self)
        ensures
            acceptor@ == (AcceptorView { pass_proxy_header, ..self@ }),
    {
        Acceptor { pass_proxy_header, ..self }
    }

    /// Sets whether a connection without a header is refused.
    pub fn require_proxy_header(self, require_proxy_header: bool) -> (acceptor: Self)
        ensures
            acceptor@ == (AcceptorView { require_proxy_header, ..self@ }),
    {
        Acceptor { require_proxy_header, ..self }
    }

    /// Sets whether version 1 headers are looked for.
    pub fn support_v1(self, support_v1: bool) -> (acceptor: Self)
        ensures
            acceptor@ == (AcceptorView { support_v1, ..self@ }),
    {
        Acceptor { support_v1, ..self }
    }

    /// Sets whether version 2 headers are looked for.
    pub fn support_v2(self, support_v2: bool) -> (acceptor: Self)
        ensures
            acceptor@ == (AcceptorView { support_v2, ..self@ }),
    {
        Acceptor { support_v2, ..self }
    }

    /// Starts on a connection of which nothing has been read.
    pub fn accept(self) -> (accepting: Accepting)
        ensures
            accepting.settings() == self@,
            accepting.position() is None,
            accepting.wf(),
    {
        Accepting { acceptor: self, codec: None }
    }
}

/// What to do next with a connection that is being accepted.
#[derive(Clone, Copy, Debug, PartialEq, Eq)]
pub enum Action {
    /// Read more into the buffer.
    Read,
    /// The connection is accepted. The stream goes on with what the buffer holds.
    Accepted {
        original_source: Option<SocketAddr>,
        original_destination: Option<SocketAddr>,
    },
    /// The connection starts with a version 2 header, which is not supported.
    UnsupportedV2,
}

/// How it stands with a connection that is being accepted.
pub enum Stage {
    /// Nothing is decided before more has come.
    Undecided,
    /// The connection has no header and is accepted without.
    Pass,
    /// The connection ended before it could hold a header, and one is required.
    TooShort,
    /// The connection has no header, and one is required.
    Required,
    /// The connection ended within a version 1 header.
    Incomplete,
    /// The connection starts with a version 1 header, whose end is searched for from
    /// `from` on.
    V1 { from: int },
    /// The connection starts with a version 2 header.
    V2,
}

/// How it stands with a connection of which `s` has come. `position` is where a version 1
/// header is searched on, once it is clear that there is one; `ended` tells whether the
/// last read came to the end of the connection.
pub open spec fn stage(
    settings: AcceptorView,
    position: Option<int>,
    s: Seq<u8>,
    ended: bool,
) -> Stage {
    match position {
        Some(from) => if ended {
            Stage::Incomplete
        } else {
            Stage::V1 { from }
        },
        None => if s.len() < MIN_HEADER_SIZE {
            if !ended {
                Stage::Undecided
            } else if settings.require_proxy_header {
                Stage::TooShort
            } else {
                Stage::Pass
            }
        } else if s.take(6) == V1_TAG@ && settings.support_v1 {
            Stage::V1 { from: 0 }
        } else if s.take(12) == SIGNATURE@ && settings.support_v2 {
            Stage::V2
        } else if settings.require_proxy_header {
            Stage::Required
        } else {
            Stage::Pass
        },
    }
}

/// Acceptance with the given addresses.
pub open spec fn accepted(
    original_source: Option<SocketAddr>,
    original_destination: Option<SocketAddr>,
) -> Result<Action, Error> {
    Ok(Action::Accepted { original_source, original_destination })
}

/// Whether `answer` is what a version 1 header calls for of which the buffer `s` holds `f`.
pub open spec fn v1_calls_for(s: Seq<u8>, f: Framing, answer: Result<Action, Error>) -> bool {
    match f {
        Framing::More => answer == Ok::<Action, Error>(Action::Read),
        Framing::NoEol => answer matches Err(e) && is_proxy_error(
            e,
            "Proxy header v1 does not contain EOL"@,
        ),
        Framing::NotUtf8 { eol } => answer == Err::<Action, Error>(
            Error::Utf8(utf8_fault(s.take(eol))),
        ),
        Framing::Line { eol } => match line_info(s.take(eol)) {
            Ok(info) => answer == accepted(info.original_source, info.original_destination),
            Err(f) => answer matches Err(e) && reports(e, f, decode_utf8(s.take(eol))),
        },
    }
}

/// Whether `answer` is what a stage calls for when the buffer holds `s`.
pub open spec fn calls_for(stage: Stage, s: Seq<u8>, answer: Result<Action, Error>) -> bool {
    match stage {
        Stage::Undecided => answer == Ok::<Action, Error>(Action::Read),
        Stage::Pass => answer == accepted(None, None),
        Stage::TooShort => answer matches Err(e) && is_proxy_error(
            e,
            "Message too short for proxy protocol"@,
        ),
        Stage::Required => answer matches Err(e) && is_proxy_error(e, "Proxy protocol is required"@),
        Stage::Incomplete => answer matches Err(e) && is_proxy_error(e, "Incomplete V1 header"@),
        Stage::V1 { from } => v1_calls_for(s, framing(s, from), answer),
        Stage::V2 => answer == Ok::<Action, Error>(Action::UnsupportedV2),
    }
}

/// What a stage leaves of the buffer `s`.
pub open spec fn leaves(stage: Stage, s: Seq<u8>, pass_header: bool) -> Seq<u8> {
    match stage {
        Stage::V1 { from } => proxy_rest(s, framing(s, from), pass_header),
        _ => s,
    }
}

/// A connection that is being accepted.
pub struct Accepting {
    acceptor: Acceptor,
    codec: Option<ProxyProtocolCodecV1>,
}

impl Accepting {
    /// What the acceptor is set to.
    pub closed spec fn settings(self) -> AcceptorView {
        self.acceptor@
    }

    /// Where a version 1 header is searched on, once it is clear that there is one.
    pub closed spec fn position(self) -> Option<int> {
        match self.codec {
            Some(codec) => Some(codec.position()),
            None => None,
        }
    }

    /// Whether the decoder, if there is one, treats headers as the acceptor is set to.
    pub closed spec fn wf(self) -> bool {
        self.codec matches Some(codec) ==> codec.passes_header()
            == self.acceptor.pass_proxy_header
    }

    /// Whether accepting can go on with the buffer, which may not be shorter than it was
    /// left.
    pub fn resumes_in(&self, buf: &BytesMut) -> (resumes: bool)
        ensures
            resumes == (self.position() matches Some(from) ==> from <= contents(*buf).len()),
    {
        match &self.codec {
            Some(codec) => codec.resumes_in(buf),
            None => true,
        }
    }

    /// Decides what to do next. The buffer holds what has come and was not used up; `ended`
    /// tells whether the last read came to the end of the connection.
    pub fn step(&mut self, buf: &mut BytesMut, ended: bool) -> (answer: Result<Action, Error>)
        requires
            old(self).wf(),
            old(self).position() matches Some(from) ==> from <= contents(*old(buf)).len(),
        ensures
            final(self).wf(),
            final(self).settings() == old(self).settings(),
            ({
                let s = contents(*old(buf));
                let stage = stage(old(self).settings(), old(self).position(), s, ended);
                &&& calls_for(stage, s, answer)
                &&& contents(*final(buf)) == leaves(
                    stage,
                    s,
                    old(self).settings().pass_proxy_header,
                )
                &&& final(self).position() == match stage {
                    Stage::V1 { from } => Some(next_position(s, from)),
                    _ => old(self).position(),
                }
            }),
    {
        let ghost s = contents(*old(buf));
        let mut codec = match self.codec.take() {
            Some(codec) => {
                if ended {
                    self.codec = Some(codec);
                    return Err(proxy_error("Incomplete V1 header"));
                }
                codec
            },
            None => {
                let bytes = buffer::as_slice(buf);
                if bytes.len() < MIN_HEADER_SIZE {
                    return if !ended {
                        Ok(Action::Read)
                    } else if self.acceptor.require_proxy_header {
                        Err(proxy_error("Message too short for proxy protocol"))
                    } else {
                        Ok(Action::Accepted { original_source: None, original_destination: None })
                    };
                }
                assert(bytes@.subrange(0, 6) =~= s.take(6));
                assert(bytes@.subrange(0, 12) =~= s.take(12));
                if !(same(slice_subrange(bytes, 0, 6), &V1_TAG) && self.acceptor.support_v1) {
                    return if same(slice_subrange(bytes, 0, 12), &SIGNATURE)
                        && self.acceptor.support_v2 {
                        Ok(Action::UnsupportedV2)
                    } else if self.acceptor.require_proxy_header {
                        Err(proxy_error("Proxy protocol is required"))
                    } else {
                        Ok(Action::Accepted { original_source: None, original_destination: None })
                    };
                }
                ProxyProtocolCodecV1::new_with_pass_header(self.acceptor.pass_proxy_header)
            },
        };
        let answer = codec.decode(buf);
        self.codec = Some(codec);
        match answer {
            Ok(Some(info)) => Ok(
                Action::Accepted {
                    original_source: info.original_source,
                    original_destination: info.original_destination,
                },
            ),
            Ok(None) => Ok(Action::Read),
            Err(e) => Err(e),
        }
    }
}

} // verus!
