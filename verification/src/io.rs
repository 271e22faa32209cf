//! Poll-based reading and writing: the verdict of one attempt, the buffer
//! that a read fills, and the adapters that make one attempt per turn.

use vstd::prelude::*;

verus! {

/// The verdict of one attempt at an operation.
#[derive(Debug)]
pub enum Poll<T> {
    /// The operation is done, with this result.
    Ready(T),
    /// The operation cannot go on yet; the caller is woken when it can.
    Pending,
}

/// A buffer of fixed capacity that is filled from the front.
#[derive(Debug)]
pub struct ReadBuf {
    buf: Vec<u8>,
    filled: usize,
}

impl View for ReadBuf {
    type V = Seq<u8>;

    /// The bytes filled in so far.
    closed spec fn view(&self) -> Seq<u8> {
        self.buf@.subrange(0, self.filled as int)
    }
}

impl ReadBuf {
    /// The number of bytes that the buffer can hold.
    pub closed spec fn limit(&self) -> nat {
        self.buf@.len()
    }

    /// The filled part fits the buffer.
    pub closed spec fn wf(&self) -> bool {
        self.filled <= self.buf@.len()
    }

    /// In a well-formed buffer the filled bytes fit the capacity.
    pub proof fn lemma_fits(&self)
        requires
            self.wf(),
        ensures
            self@.len() <= self.limit(),
    {
    }

    /// An empty buffer that can hold `capacity` bytes.
    pub fn new(capacity: usize) -> (b: ReadBuf)
        ensures
            b.wf(),
            b@ == Seq::<u8>::empty(),
            b.limit() == capacity,
    {
        let mut buf: Vec<u8> = Vec::new();
        let mut i: usize = 0;
        while i < capacity
            invariant
                i <= capacity,
                buf@.len() == i,
            decreases capacity - i,
        {
            buf.push(0u8);
            i = i + 1;
        }
        let b = ReadBuf { buf, filled: 0 };
        assert(b@ =~= Seq::<u8>::empty());
        b
    }

    /// The number of bytes that the buffer can hold.
    pub fn capacity(&self) -> (n: usize)
        ensures
            n == self.limit(),
    {
        self.buf.len()
    }

    /// The number of bytes filled in so far.
    pub fn filled_len(&self) -> (n: usize)
        requires
            self.wf(),
        ensures
            n == self@.len(),
    {
        self.filled
    }

    /// The number of bytes that can still be filled in.
    pub fn remaining(&self) -> (n: usize)
        requires
            self.wf(),
        ensures
            n == self.limit() - self@.len(),
    {
        self.buf.len() - self.filled
    }

    /// A copy of the bytes filled in so far.
    pub fn filled(&self) -> (data: Vec<u8>)
        requires
            self.wf(),
        ensures
            data@ == self@,
    {
        let mut data: Vec<u8> = Vec::new();
        let mut i: usize = 0;
        while i < self.filled
            invariant
                self.wf(),
                i <= self.filled,
                data@ == self.buf@.subrange(0, i as int),
            decreases self.filled - i,
        {
            data.push(self.buf[i]);
            assert(data@ =~= self.buf@.subrange(0, i + 1));
            i = i + 1;
        }
        data
    }

    /// Appends `data` to the filled part.
    pub fn put_slice(&mut self, data: &[u8])
        requires
            old(self).wf(),
            data@.len() <= old(self).limit() - old(self)@.len(),
        ensures
            final(self).wf(),
            final(self).limit() == old(self).limit(),
            final(self)@ == old(self)@ + data@,
    {
        let mut i: usize = 0;
        while i < data.len()
            invariant
                i <= data@.len(),
                self.buf@.len() == old(self).buf@.len(),
                old(self).filled + data@.len() <= self.buf@.len(),
                self.filled == old(self).filled + i,
                self.buf@.subrange(0, self.filled as int) == old(self)@ + data@.subrange(
                    0,
                    i as int,
                ),
            decreases data@.len() - i,
        {
            let ghost before = self.buf@;
            assert(self.filled < self.buf.len());
            self.buf.set(self.filled, data[i]);
            self.filled = self.filled + 1;
            assert(self.buf@.subrange(0, self.filled as int) =~= before.subrange(
                0,
                self.filled - 1,
            ).push(data@[i as int]));
            assert(data@.subrange(0, i + 1) =~= data@.subrange(0, i as int).push(data@[i as int]));
            assert((old(self)@ + data@.subrange(0, i as int)).push(data@[i as int]) =~= old(self)@
                + data@.subrange(0, i + 1));
            i = i + 1;
        }
        assert(data@.subrange(0, data@.len() as int) =~= data@);
    }

    /// Empties the filled part.
    pub fn clear(&mut self)
        ensures
            final(self).wf(),
            final(self).limit() == old(self).limit(),
            final(self)@ == Seq::<u8>::empty(),
    {
        self.filled = 0;
        assert(self@ =~= Seq::<u8>::empty());
    }
}

/// A source of bytes that is read by polling. `Cx` is what a poll is
/// given of its surroundings, `E` the error of a failed read.
pub trait AsyncRead<Cx, E>: Sized {
    /// Whether one attempt to read may take the source from `before` to
    /// `after`, the surroundings from `cx` to `cx_after` and the buffer
    /// from `buf` to `buf_after`, with this verdict.
    open spec fn read_attempt(
        before: Self,
        cx: Cx,
        buf: ReadBuf,
        after: Self,
        cx_after: Cx,
        buf_after: ReadBuf,
        verdict: Poll<Result<(), E>>,
    ) -> bool {
        true
    }

    /// Attempts once to read into the unfilled part of `buf`. `Ready(Ok)`
    /// with nothing new filled in means that the source is at its end;
    /// `Pending` means that nothing can be read yet and that the caller
    /// will be woken. The bytes filled in before stay, and the capacity
    /// stays.
    fn poll_read(&mut self, cx: &mut Cx, buf: &mut ReadBuf) -> (verdict: Poll<Result<(), E>>)
        requires
            old(buf).wf(),
        ensures
            final(buf).wf(),
            final(buf).limit() == old(buf).limit(),
            old(buf)@.is_prefix_of(final(buf)@),
            Self::read_attempt(
                *old(self),
                *old(cx),
                *old(buf),
                *final(self),
                *final(cx),
                *final(buf),
                verdict,
            ),
    ;
}

/// A sink of bytes that is written by polling.
pub trait AsyncWrite<Cx, E>: Sized {
    /// Whether one attempt to write `buf` may take the sink from `before`
    /// to `after` and the surroundings from `cx` to `cx_after`, with this
    /// verdict.
    open spec fn write_attempt(
        before: Self,
        cx: Cx,
        buf: Seq<u8>,
        after: Self,
        cx_after: Cx,
        verdict: Poll<Result<usize, E>>,
    ) -> bool {
        true
    }

    /// The same of one attempt to flush.
    open spec fn flush_attempt(
        before: Self,
        cx: Cx,
        after: Self,
        cx_after: Cx,
        verdict: Poll<Result<(), E>>,
    ) -> bool {
        true
    }

    /// The same of one attempt to shut down.
    open spec fn shutdown_attempt(
        before: Self,
        cx: Cx,
        after: Self,
        cx_after: Cx,
        verdict: Poll<Result<(), E>>,
    ) -> bool {
        true
    }

    /// Attempts once to write bytes of `buf`, and says how many were
    /// taken: at most all of them.
    fn poll_write(&mut self, cx: &mut Cx, buf: &[u8]) -> (verdict: Poll<Result<usize, E>>)
        ensures
            verdict matches Poll::Ready(Ok(n)) ==> n <= buf@.len(),
            Self::write_attempt(*old(self), *old(cx), buf@, *final(self), *final(cx), verdict),
    ;

    /// Attempts once to push buffered bytes on to their destination.
    fn poll_flush(&mut self, cx: &mut Cx) -> (verdict: Poll<Result<(), E>>)
        ensures
            Self::flush_attempt(*old(self), *old(cx), *final(self), *final(cx), verdict),
    ;

    /// Attempts once to close the sink for writing.
    fn poll_shutdown(&mut self, cx: &mut Cx) -> (verdict: Poll<Result<(), E>>)
        ensures
            Self::shutdown_attempt(*old(self), *old(cx), *final(self), *final(cx), verdict),
    ;
}

/// What a read that filled `buf` from empty comes to for its caller: the
/// verdict of the attempt, with the number of bytes filled in on success.
pub open spec fn read_verdict<E>(verdict: Poll<Result<(), E>>, filled: Seq<u8>) -> Poll<
    Result<usize, E>,
> {
    match verdict {
        Poll::Pending => Poll::Pending,
        Poll::Ready(Err(e)) => Poll::Ready(Err(e)),
        Poll::Ready(Ok(_)) => Poll::Ready(Ok(filled.len() as usize)),
    }
}

/// The destination after a read: on success its first bytes are those
/// filled in, and the rest is as before; otherwise all of it is as before.
pub open spec fn read_into<E>(verdict: Poll<Result<(), E>>, filled: Seq<u8>, dst: Seq<u8>) -> Seq<
    u8,
> {
    if verdict matches Poll::Ready(Ok(_)) {
        filled + dst.skip(filled.len() as int)
    } else {
        dst
    }
}

/// Ends one turn of a read: hands on the verdict of the attempt and, on
/// success, copies what the attempt filled in to the front of `dst`.
pub fn finish_read<E>(verdict: Poll<Result<(), E>>, buf: &ReadBuf, dst: &mut Vec<u8>) -> (out: Poll<
    Result<usize, E>,
>)
    requires
        buf.wf(),
        buf@.len() <= old(dst)@.len(),
    ensures
        out == read_verdict(verdict, buf@),
        final(dst)@ == read_into(verdict, buf@, old(dst)@),
{
    match verdict {
        Poll::Pending => Poll::Pending,
        Poll::Ready(Err(e)) => Poll::Ready(Err(e)),
        Poll::Ready(Ok(_)) => {
            let data = buf.filled();
            let n = data.len();
            let mut i: usize = 0;
            while i < n
                invariant
                    i <= n,
                    n == data@.len(),
                    n <= dst@.len(),
                    dst@.len() == old(dst)@.len(),
                    dst@ == data@.subrange(0, i as int) + old(dst)@.skip(i as int),
                decreases n - i,
            {
                dst.set(i, data[i]);
                assert(dst@ =~= data@.subrange(0, i + 1) + old(dst)@.skip(i + 1));
                i = i + 1;
            }
            assert(data@.subrange(0, n as int) =~= data@);
            Poll::Ready(Ok(n))
        },
    }
}

/// Whether one turn of reading into `dst` may take the source from
/// `before` to `after` and the surroundings from `cx` to `cx_after`, leave
/// `dst_after` in the destination and come to `out`: whether one attempt
/// to read into an empty buffer as long as `dst` does so, with its verdict
/// handed on and what it filled in copied to the front of `dst`.
pub open spec fn read_turn<Cx, E, R: AsyncRead<Cx, E>>(
    before: R,
    cx: Cx,
    dst: Seq<u8>,
    after: R,
    cx_after: Cx,
    dst_after: Seq<u8>,
    out: Poll<Result<usize, E>>,
) -> bool {
    exists|start: ReadBuf, end: ReadBuf, verdict: Poll<Result<(), E>>|
        {
            &&& start.wf() && start@.len() == 0 && start.limit() == dst.len()
            &&& end.wf() && end.limit() == dst.len()
            &&& #[trigger] R::read_attempt(before, cx, start, after, cx_after, end, verdict)
            &&& out == read_verdict(verdict, end@)
            &&& dst_after == read_into(verdict, end@, dst)
        }
}

/// Reading as one attempt per turn.
pub trait AsyncReadExt<Cx, E>: AsyncRead<Cx, E> {
    /// One turn of reading into `dst`: makes one attempt to read up to
    /// `dst.len()` bytes and hands on its verdict. `Ready(Ok(n))` says
    /// that the first `n` bytes of `dst` were read now; the bytes behind
    /// them, and all of `dst` on any other verdict, are as before. Nothing
    /// is tried again here: after `Pending` the caller comes back when it
    /// is woken.
    fn read(&mut self, cx: &mut Cx, dst: &mut Vec<u8>) -> (out: Poll<Result<usize, E>>)
        ensures
            read_turn::<Cx, E, Self>(
                *old(self),
                *old(cx),
                old(dst)@,
                *final(self),
                *final(cx),
                final(dst)@,
                out,
            ),
            final(dst)@.len() == old(dst)@.len(),
            out matches Poll::Ready(Ok(n)) ==> n <= old(dst)@.len() && final(dst)@.skip(n as int)
                == old(dst)@.skip(n as int),
            !(out matches Poll::Ready(Ok(_))) ==> final(dst)@ == old(dst)@,
    {
        let mut buf = ReadBuf::new(dst.len());
        let ghost start = buf;
        let verdict = self.poll_read(cx, &mut buf);
        proof {
            buf.lemma_fits();
            assert(Self::read_attempt(*old(self), *old(cx), start, *self, *cx, buf, verdict));
        }
        let out = finish_read(verdict, &buf, dst);
        proof {
            let n = buf@.len() as int;
            if out matches Poll::Ready(Ok(_)) {
                assert(dst@.skip(n) =~= old(dst)@.skip(n));
            }
        }
        out
    }
}

impl<Cx, E, R: AsyncRead<Cx, E>> AsyncReadExt<Cx, E> for R {
}

/// Writing as one attempt per turn.
pub trait AsyncWriteExt<Cx, E>: AsyncWrite<Cx, E> {
    /// One turn of writing `src`: makes one attempt and hands on its
    /// verdict, which on success is the number of bytes taken, at most
    /// all of `src`.
    fn write(&mut self, cx: &mut Cx, src: &[u8]) -> (out: Poll<Result<usize, E>>)
        ensures
            out matches Poll::Ready(Ok(n)) ==> n <= src@.len(),
            Self::write_attempt(*old(self), *old(cx), src@, *final(self), *final(cx), out),
    {
        self.poll_write(cx, src)
    }

    /// One turn of flushing: makes one attempt and hands on its verdict.
    fn flush(&mut self, cx: &mut Cx) -> (out: Poll<Result<(), E>>)
        ensures
            Self::flush_attempt(*old(self), *old(cx), *final(self), *final(cx), out),
    {
        self.poll_flush(cx)
    }

    /// One turn of shutting down: makes one attempt and hands on its
    /// verdict.
    fn shutdown(&mut self, cx: &mut Cx) -> (out: Poll<Result<(), E>>)
        ensures
            Self::shutdown_attempt(*old(self), *old(cx), *final(self), *final(cx), out),
    {
        self.poll_shutdown(cx)
    }
}

impl<Cx, E, W: AsyncWrite<Cx, E>> AsyncWriteExt<Cx, E> for W {
}

} // verus!
