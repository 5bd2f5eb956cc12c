//! What comes out of a stream behind its header.
use crate::addr::SocketAddr;
use crate::buffer::contents;
use crate::error::Error;
use crate::stream::{finish_read, handed_out, InnerRead, ProxyStream, ReadPlan, WithProxyInfo};
use bytes::BytesMut;
use vstd::prelude::*;

verus! {

/// The number of bytes that a read has after its first part.
pub open spec fn copied(plan: ReadPlan) -> int {
    match plan {
        ReadPlan::Inner => 0,
        ReadPlan::Done(n) => n as int,
        ReadPlan::Fill(n) => n as int,
    }
}

/// A read hands out what is held back from its front on, loses none of it and changes
/// nothing else. It goes on to the inner stream only if nothing stays held back, and it
/// ends without only if there is no room left.
pub proof fn law_read<T>(stream: &mut ProxyStream<T>, out: &mut [u8], plan: ReadPlan)
    requires
        call_ensures(ProxyStream::<T>::begin_read, (stream, out), plan),
    ensures
        ({
            let n = copied(plan);
            &&& 0 <= n <= old(out)@.len()
            &&& final(out)@.len() == old(out)@.len()
            &&& final(out)@.take(n) + final(stream).buffered() == old(stream).buffered()
            &&& final(out)@.skip(n) == old(out)@.skip(n)
            &&& plan is Inner || plan is Fill ==> final(stream).buffered().len() == 0
            &&& plan is Inner <==> old(stream).buffered().len() == 0
            &&& plan is Done ==> n == old(out)@.len()
            &&& plan is Fill ==> n < old(out)@.len()
        }),
        final(stream).inner() == old(stream).inner(),
        final(stream).source() == old(stream).source(),
        final(stream).destination() == old(stream).destination(),
{
    let n = copied(plan);
    let held = old(stream).buffered();
    assert(old(out).len() == old(out)@.len());
    assert(final(out)@.take(n) =~= held.take(n));
    assert(held.take(n) + held.skip(n) =~= held);
    assert(final(out)@.skip(n) =~= old(out)@.skip(n));
}

/// One read of a stream: the room that it has, and how many bytes the inner stream has for
/// it if it is asked.
pub struct OneRead {
    pub room: nat,
    pub ready: nat,
}

/// Whether a read is one that asks the inner stream.
pub open spec fn asks_inner(held: Seq<u8>, r: OneRead) -> bool {
    held.len() == 0 || handed_out(held, r.room) < r.room
}

/// How many bytes the inner stream gives to a read: as many as it has ready and the read
/// has room for.
pub open spec fn from_inner(held: Seq<u8>, r: OneRead) -> int {
    let left = r.room - handed_out(held, r.room);
    if !asks_inner(held, r) {
        0
    } else if r.ready <= left {
        r.ready as int
    } else {
        left
    }
}

/// What reads give, one behind the other, from a stream that holds back `held` and whose
/// inner stream goes on with `inner`.
pub open spec fn received(held: Seq<u8>, inner: Seq<u8>, reads: Seq<OneRead>) -> Seq<u8>
    decreases reads.len(),
{
    if reads.len() == 0 {
        seq![]
    } else {
        let n = handed_out(held, reads[0].room);
        let m = from_inner(held, reads[0]);
        held.take(n) + inner.take(m) + received(held.skip(n), inner.skip(m), reads.skip(1))
    }
}

/// How many bytes the inner stream gives to reads.
pub open spec fn taken(held: Seq<u8>, reads: Seq<OneRead>) -> int
    decreases reads.len(),
{
    if reads.len() == 0 {
        0
    } else {
        from_inner(held, reads[0]) + taken(
            held.skip(handed_out(held, reads[0].room)),
            reads.skip(1),
        )
    }
}

/// Whatever is read, with whatever room and however much the inner stream has ready each
/// time, comes in the order of the connection: what was held back, then what the inner
/// stream gives.
pub proof fn law_received_in_order(held: Seq<u8>, inner: Seq<u8>, reads: Seq<OneRead>)
    requires
        taken(held, reads) <= inner.len(),
    ensures
        received(held, inner, reads).len() <= held.len() + inner.len(),
        received(held, inner, reads) == (held + inner).take(
            received(held, inner, reads).len() as int,
        ),
    decreases reads.len(),
{
    let all = held + inner;
    if reads.len() == 0 {
        assert(all.take(0) =~= seq![]);
    } else {
        let n = handed_out(held, reads[0].room);
        let m = from_inner(held, reads[0]);
        let held2 = held.skip(n);
        let inner2 = inner.skip(m);
        lemma_taken(held2, reads.skip(1));
        law_received_in_order(held2, inner2, reads.skip(1));
        let more = received(held2, inner2, reads.skip(1));
        let got = received(held, inner, reads);
        assert(m > 0 ==> n == held.len());
        if n == held.len() {
            assert(held2 =~= seq![]);
            assert(held.take(n) =~= held);
            assert(held2 + inner2 =~= inner2);
            assert(got =~= all.take(got.len() as int));
        } else {
            assert(inner.take(0) =~= seq![]);
            assert(inner2 =~= inner);
            assert(all.skip(n) =~= held2 + inner2);
            assert(got =~= all.take(got.len() as int)) by {
                assert forall|i: int| n <= i < got.len() implies got[i] == all[i] by {
                    assert(got[i] == more[i - n]);
                    assert((held2 + inner2)[i - n] == all[i]);
                }
            }
        }
    }
}

proof fn lemma_taken(held: Seq<u8>, reads: Seq<OneRead>)
    ensures
        0 <= taken(held, reads),
    decreases reads.len(),
{
    if reads.len() > 0 {
        lemma_taken(held.skip(handed_out(held, reads[0].room)), reads.skip(1));
    }
}

/// A read gives all that there is for it: it leaves room only where nothing is held back
/// and the inner stream had no more ready.
pub proof fn law_read_is_full(held: Seq<u8>, r: OneRead)
    ensures
        ({
            let n = handed_out(held, r.room);
            let m = from_inner(held, r);
            &&& 0 <= n <= held.len() && 0 <= m && n + m <= r.room
            &&& n + m < r.room ==> n == held.len() && m == r.ready
        }),
{
}

/// The count of a read is that of both its parts; an error of the inner stream is the
/// answer, and that it has nothing yet is none.
pub proof fn law_finish_read<E>(n: usize, inner: InnerRead<E>, count: Result<usize, E>)
    requires
        call_ensures(finish_read::<E>, (n, inner), count),
    ensures
        inner matches InnerRead::Ready(m) ==> n + m <= usize::MAX ==> (count matches Ok(c) && c == n
            + m),
        inner matches InnerRead::Pending ==> count == Ok::<usize, E>(n),
        inner matches InnerRead::Failed(e) ==> count == Err::<usize, E>(e),
{
}

/// The inner stream is given back exactly where nothing is held back that was read from it.
pub proof fn law_into_inner<T>(stream: ProxyStream<T>, inner: Result<T, Error>)
    requires
        call_ensures(ProxyStream::<T>::try_into_inner, (stream,), inner),
    ensures
        inner is Ok <==> stream.buffered().len() == 0,
        inner matches Ok(t) ==> t == stream.inner(),
        inner matches Err(e) ==> (e matches Error::InvalidState(m) && m@
            == "Cannot return inner steam because buffer is not empty"@),
{
}

/// A stream tells the addresses that it was made with, each as what it is.
pub proof fn law_stream_tells<T>(
    inner: T,
    buf: BytesMut,
    source: Option<SocketAddr>,
    destination: Option<SocketAddr>,
    stream: ProxyStream<T>,
    peer: Option<SocketAddr>,
    to: Option<SocketAddr>,
    shown: &T,
)
    requires
        call_ensures(ProxyStream::<T>::from_parts, (inner, buf, source, destination), stream),
        call_ensures(<ProxyStream<T> as WithProxyInfo>::original_peer_addr, (&stream,), peer),
        call_ensures(<ProxyStream<T> as WithProxyInfo>::original_destination_addr, (&stream,), to),
        call_ensures(ProxyStream::<T>::as_ref, (&stream,), shown),
    ensures
        *shown == inner,
        peer == source,
        to == destination,
        stream.inner() == inner,
        stream.buffered() == contents(buf),
{
}

} // verus!
