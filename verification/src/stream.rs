//! A stream behind its header.
use crate::addr::SocketAddr;
use crate::buffer::{self, contents};
use crate::error::Error;
use bytes::BytesMut;
use vstd::prelude::*;

verus! {

/// What a stream may know of the connection that it stands for.
pub trait WithProxyInfo {
    /// Where the connection came from. A stream that knows nothing gives none.
    fn original_peer_addr(&self) -> (addr: Option<SocketAddr>)
        default_ensures
            addr is None,
    {
        None
    }

    /// Where the connection went to. A stream that knows nothing gives none.
    fn original_destination_addr(&self) -> (addr: Option<SocketAddr>)
        default_ensures
            addr is None,
    {
        None
    }
}

/// A stream whose first bytes have been read already, and what its header told.
pub struct ProxyStream<T> {
    inner: T,
    buf: BytesMut,
    orig_source: Option<SocketAddr>,
    orig_destination: Option<SocketAddr>,
}

/// How a read from a stream goes on.
#[derive(Clone, Copy, Debug, PartialEq, Eq)]
pub enum ReadPlan {
    /// Nothing was held back: read from the inner stream.
    Inner,
    /// The read is done, with that many bytes.
    Done(usize),
    /// That many bytes were there, and there is room for more: read from the inner stream
    /// into the rest.
    Fill(usize),
}

/// What a read from the inner stream gave.
#[derive(Debug)]
pub enum InnerRead<E> {
    /// That many bytes.
    Ready(usize),
    /// An error.
    Failed(E),
    /// Nothing yet.
    Pending,
}

/// How many of the bytes `held` a read hands out that has room for `room`.
pub open spec fn handed_out(held: Seq<u8>, room: nat) -> int {
    if held.len() <= room {
        held.len() as int
    } else {
        room as int
    }
}

impl<T> ProxyStream<T> {
    /// The stream that is read from behind what was read already.
    pub closed spec fn inner(self) -> T {
        self.inner
    }

    /// What was read already and not handed out.
    pub closed spec fn buffered(self) -> Seq<u8> {
        contents(self.buf)
    }

    /// Where the connection came from.
    pub closed spec fn source(self) -> Option<SocketAddr> {
        self.orig_source
    }

    /// Where the connection went to.
    pub closed spec fn destination(self) -> Option<SocketAddr> {
        self.orig_destination
    }

    /// The stream `inner`, of which `buf` was read already.
    pub fn from_parts(
        inner: T,
        buf: BytesMut,
        orig_source: Option<SocketAddr>,
        orig_destination: Option<SocketAddr>,
    ) -> (stream: Self)
        ensures
            stream.inner() == inner,
            stream.buffered() == contents(buf),
            stream.source() == orig_source,
            stream.destination() == orig_destination,
    {
        ProxyStream { inner, buf, orig_source, orig_destination }
    }

    /// The inner stream, if nothing is held back that was read from it.
    pub fn try_into_inner(self) -> (inner: Result<T, Error>)
        ensures
            if self.buffered().len() == 0 {
                inner == Ok::<T, Error>(self.inner())
            } else {
                inner matches Err(Error::InvalidState(m)) && m@
                    == "Cannot return inner steam because buffer is not empty"@
            },
    {
        if buffer::len(&self.buf) == 0 {
            Ok(self.inner)
        } else {
            Err(
                Error::InvalidState(
                    "Cannot return inner steam because buffer is not empty".to_owned(),
                ),
            )
        }
    }

    /// The inner stream, to look at.
    pub fn as_ref(&self) -> (inner: &T)
        ensures
            *inner == self.inner(),
    {
        &self.inner
    }

    /// Starts a read: hands out what was held back, as far as it goes and `out` has room.
    pub fn begin_read(&mut self, out: &mut [u8]) -> (plan: ReadPlan)
        ensures
            final(self).inner() == old(self).inner(),
            final(self).source() == old(self).source(),
            final(self).destination() == old(self).destination(),
            ({
                let held = old(self).buffered();
                let room = old(out)@.len();
                let n = handed_out(held, room);
                &&& final(self).buffered() == held.skip(n)
                &&& final(out)@ == held.take(n) + old(out)@.skip(n)
                &&& plan == if held.len() == 0 {
                    ReadPlan::Inner
                } else if n < room {
                    ReadPlan::Fill(n as usize)
                } else {
                    ReadPlan::Done(n as usize)
                }
            }),
    {
        let held: usize = buffer::len(&self.buf);
        let room: usize = out.len();
        if held == 0 {
            assert(self.buffered().skip(0) =~= self.buffered());
            assert(out@ =~= self.buffered().take(0) + out@.skip(0));
            return ReadPlan::Inner;
        }
        let n: usize = if held <= room {
            held
        } else {
            room
        };
        buffer::copy_to_front(&mut self.buf, out, n);
        if n < room {
            ReadPlan::Fill(n)
        } else {
            ReadPlan::Done(n)
        }
    }
}

/// Ends a read that handed out `copied` bytes before the inner stream was read: an error
/// of the inner stream counts, and that it has nothing yet does not.
pub fn finish_read<E>(copied: usize, inner: InnerRead<E>) -> (count: Result<usize, E>)
    requires
        inner matches InnerRead::Ready(n) ==> copied + n <= usize::MAX,
    ensures
        match inner {
            InnerRead::Ready(n) => count == Ok::<usize, E>((copied + n) as usize),
            InnerRead::Failed(e) => count == Err::<usize, E>(e),
            InnerRead::Pending => count == Ok::<usize, E>(copied),
        },
{
    match inner {
        InnerRead::Ready(n) => Ok(copied + n),
        InnerRead::Failed(e) => Err(e),
        InnerRead::Pending => Ok(copied),
    }
}

impl<T> WithProxyInfo for ProxyStream<T> {
    fn original_peer_addr(&self) -> (addr: Option<SocketAddr>)
        ensures
            addr == self.source(),
    {
        self.orig_source
    }

    fn original_destination_addr(&self) -> (addr: Option<SocketAddr>)
        ensures
            addr == self.destination(),
    {
        self.orig_destination
    }
}

} // verus!
