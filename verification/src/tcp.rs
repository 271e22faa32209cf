//! Listeners and streams as the reactor sees them: a descriptor, and what
//! each outcome of a non-blocking socket call means for the caller and for
//! the reactor. The socket calls themselves are made by the caller.

use crate::interest::Interest;
use crate::io::{Poll, ReadBuf};
use crate::reactor::{parked, registered, released, Reactor};
use vstd::prelude::*;

verus! {

/// What came of one non-blocking socket call.
#[derive(Debug)]
pub enum Attempt<T, E> {
    /// The call succeeded.
    Done(T),
    /// The call could not go on without blocking.
    WouldBlock,
    /// The call failed for another reason.
    Failed(E),
}

/// What one attempt to write on descriptor `fd` comes to, given what the
/// socket answered. Bytes that were taken are reported, and a failure is
/// reported as it is; either leaves the reactor as it was. When the socket
/// would block, the verdict is `Pending` and `waker` is parked for the
/// write direction of `fd`, which is the one change to the reactor.
pub open spec fn wrote<W, E>(
    pre: Reactor<W>,
    post: Reactor<W>,
    fd: i32,
    waker: W,
    attempt: Attempt<usize, E>,
    verdict: Poll<Result<usize, E>>,
) -> bool {
    match attempt {
        Attempt::Done(n) => verdict == Poll::Ready(Ok::<usize, E>(n)) && post == pre,
        Attempt::Failed(e) => verdict == Poll::Ready(Err::<usize, E>(e)) && post == pre,
        Attempt::WouldBlock => verdict is Pending && parked(pre, post, fd, Interest::Write, waker),
    }
}

/// What one attempt to read on descriptor `fd` comes to, given what the
/// socket answered, for a buffer that held `filled` before and holds
/// `filled_after` afterwards. Bytes that were read stand behind what was
/// filled, and a failure is reported as it is; either leaves the reactor
/// as it was. When the socket would block, the verdict is `Pending`, the
/// buffer is as before, and `waker` is parked for the read direction of
/// `fd`, which is the one change to the reactor.
pub open spec fn has_read<W, E>(
    pre: Reactor<W>,
    post: Reactor<W>,
    fd: i32,
    waker: W,
    filled: Seq<u8>,
    filled_after: Seq<u8>,
    attempt: Attempt<Vec<u8>, E>,
    verdict: Poll<Result<(), E>>,
) -> bool {
    match attempt {
        Attempt::Done(data) => {
            &&& verdict == Poll::Ready(Ok::<(), E>(()))
            &&& filled_after == filled + data@
            &&& post == pre
        },
        Attempt::Failed(e) => {
            &&& verdict == Poll::Ready(Err::<(), E>(e))
            &&& filled_after == filled
            &&& post == pre
        },
        Attempt::WouldBlock => {
            &&& verdict is Pending
            &&& filled_after == filled
            &&& parked(pre, post, fd, Interest::Read, waker)
        },
    }
}

/// A connected socket that is registered with a reactor.
#[derive(Debug)]
pub struct TcpStream {
    fd: i32,
}

/// A listening socket that is registered with a reactor.
#[derive(Debug)]
pub struct TcpListener {
    fd: i32,
}

impl View for TcpStream {
    type V = i32;

    /// The descriptor of the socket.
    closed spec fn view(&self) -> i32 {
        self.fd
    }
}

impl View for TcpListener {
    type V = i32;

    /// The descriptor of the socket.
    closed spec fn view(&self) -> i32 {
        self.fd
    }
}

impl TcpStream {
    /// Makes the stream of a connection attempt: a socket that was
    /// connected and set to non-blocking is registered with the reactor;
    /// a failure is handed on and leaves the reactor as it was.
    pub fn connect<W, E>(reactor: &mut Reactor<W>, connected: Result<i32, E>) -> (out: Result<
        TcpStream,
        E,
    >)
        requires
            old(reactor).wf(),
        ensures
            final(reactor).wf(),
            match connected {
                Ok(fd) => out matches Ok(stream) && stream@ == fd && registered(
                    *old(reactor),
                    *final(reactor),
                    fd,
                ),
                Err(e) => out == Err::<TcpStream, E>(e) && *final(reactor) == *old(reactor),
            },
    {
        match connected {
            Ok(fd) => {
                reactor.add(fd);
                Ok(TcpStream { fd })
            },
            Err(e) => Err(e),
        }
    }

    /// The descriptor of the socket.
    pub fn as_raw_fd(&self) -> (fd: i32)
        ensures
            fd == self@,
    {
        self.fd
    }

    /// One attempt to write, given what the socket answered. Bytes that
    /// were taken are reported; a failure is reported as it is; and when
    /// the socket would block, `waker` is stored for the write direction
    /// of this descriptor, in place of any waker stored there, and the
    /// verdict is `Pending`.
    pub fn poll_write<W: Clone, E>(
        &mut self,
        reactor: &mut Reactor<W>,
        waker: W,
        attempt: Attempt<usize, E>,
    ) -> (verdict: Poll<Result<usize, E>>)
        requires
            old(reactor).wf(),
        ensures
            final(self)@ == old(self)@,
            final(reactor).wf(),
            wrote(*old(reactor), *final(reactor), old(self)@, waker, attempt, verdict),
    {
        self.poll_write_priv(reactor, waker, attempt)
    }

    /// One attempt to read, given what the socket answered. Bytes that
    /// were read are appended to `buf`; a failure is reported as it is;
    /// and when the socket would block, `waker` is stored for the read
    /// direction of this descriptor, in place of any waker stored there,
    /// and the verdict is `Pending`.
    pub fn poll_read<W: Clone, E>(
        &mut self,
        reactor: &mut Reactor<W>,
        waker: W,
        buf: &mut ReadBuf,
        attempt: Attempt<Vec<u8>, E>,
    ) -> (verdict: Poll<Result<(), E>>)
        requires
            old(reactor).wf(),
            old(buf).wf(),
            attempt matches Attempt::Done(data) ==> data@.len() <= old(buf).limit() - old(
                buf,
            )@.len(),
        ensures
            final(self)@ == old(self)@,
            final(reactor).wf(),
            final(buf).wf(),
            final(buf).limit() == old(buf).limit(),
            has_read(
                *old(reactor),
                *final(reactor),
                old(self)@,
                waker,
                old(buf)@,
                final(buf)@,
                attempt,
                verdict,
            ),
    {
        self.poll_read_priv(reactor, waker, buf, attempt)
    }

    /// What an attempt to write comes to: the step behind `poll_write`.
    pub fn poll_write_priv<W: Clone, E>(
        &mut self,
        reactor: &mut Reactor<W>,
        waker: W,
        attempt: Attempt<usize, E>,
    ) -> (verdict: Poll<Result<usize, E>>)
        requires
            old(reactor).wf(),
        ensures
            final(self)@ == old(self)@,
            final(reactor).wf(),
            wrote(*old(reactor), *final(reactor), old(self)@, waker, attempt, verdict),
    {
        match attempt {
            Attempt::Done(n) => Poll::Ready(Ok(n)),
            Attempt::WouldBlock => {
                reactor.modify(self.fd, Interest::Write, waker);
                Poll::Pending
            },
            Attempt::Failed(e) => Poll::Ready(Err(e)),
        }
    }

    /// What an attempt to read comes to: the step behind `poll_read`.
    pub fn poll_read_priv<W: Clone, E>(
        &mut self,
        reactor: &mut Reactor<W>,
        waker: W,
        buf: &mut ReadBuf,
        attempt: Attempt<Vec<u8>, E>,
    ) -> (verdict: Poll<Result<(), E>>)
        requires
            old(reactor).wf(),
            old(buf).wf(),
            attempt matches Attempt::Done(data) ==> data@.len() <= old(buf).limit() - old(
                buf,
            )@.len(),
        ensures
            final(self)@ == old(self)@,
            final(reactor).wf(),
            final(buf).wf(),
            final(buf).limit() == old(buf).limit(),
            has_read(
                *old(reactor),
                *final(reactor),
                old(self)@,
                waker,
                old(buf)@,
                final(buf)@,
                attempt,
                verdict,
            ),
    {
        let data = match attempt {
            Attempt::Done(data) => data,
            Attempt::WouldBlock => {
                reactor.modify(self.fd, Interest::Read, waker);
                return Poll::Pending;
            },
            Attempt::Failed(e) => {
                return Poll::Ready(Err(e));
            },
        };
        buf.put_slice(data.as_slice());
        Poll::Ready(Ok(()))
    }

    /// One attempt to flush: nothing is buffered, so it is done at once.
    pub fn poll_flush<E>(&mut self) -> (verdict: Poll<Result<(), E>>)
        ensures
            final(self)@ == old(self)@,
            verdict == Poll::Ready(Ok::<(), E>(())),
    {
        Poll::Ready(Ok(()))
    }

    /// One attempt to shut down, given what shutting down both
    /// directions of the socket came to: it is done at once, with that
    /// result.
    pub fn poll_shutdown<E>(&mut self, shut: Result<(), E>) -> (verdict: Poll<Result<(), E>>)
        ensures
            final(self)@ == old(self)@,
            verdict == Poll::Ready(shut),
    {
        Poll::Ready(shut)
    }

    /// Drops the stream: its descriptor leaves the reactor at once, with
    /// its subscription and the wakers of both its directions.
    pub fn close<W>(self, reactor: &mut Reactor<W>)
        requires
            old(reactor).wf(),
        ensures
            released(*old(reactor), *final(reactor), self@),
    {
        reactor.delete(self.fd);
    }
}

impl TcpListener {
    /// Makes the listener of a bind attempt: a socket that was bound is
    /// registered with the reactor; a failure is handed on and leaves the
    /// reactor as it was.
    pub fn bind<W, E>(reactor: &mut Reactor<W>, bound: Result<i32, E>) -> (out: Result<
        TcpListener,
        E,
    >)
        requires
            old(reactor).wf(),
        ensures
            final(reactor).wf(),
            match bound {
                Ok(fd) => out matches Ok(listener) && listener@ == fd && registered(
                    *old(reactor),
                    *final(reactor),
                    fd,
                ),
                Err(e) => out == Err::<TcpListener, E>(e) && *final(reactor) == *old(reactor),
            },
    {
        match bound {
            Ok(fd) => {
                reactor.add(fd);
                Ok(TcpListener { fd })
            },
            Err(error) => Err(error),
        }
    }

    /// The descriptor of the socket.
    pub fn as_raw_fd(&self) -> (fd: i32)
        ensures
            fd == self@,
    {
        self.fd
    }

    /// Makes the stream of an accept attempt: a connection that was
    /// accepted is registered with the reactor and comes back with the
    /// address of its peer; a failure is handed on and leaves the reactor
    /// as it was.
    pub fn accept<W, A, E>(&self, reactor: &mut Reactor<W>, accepted: Result<(i32, A), E>) -> (out:
        Result<(TcpStream, A), E>)
        requires
            old(reactor).wf(),
        ensures
            final(reactor).wf(),
            match accepted {
                Ok((fd, addr)) => {
                    &&& out matches Ok((stream, peer))
                    &&& stream@ == fd
                    &&& peer == addr
                    &&& registered(*old(reactor), *final(reactor), fd)
                },
                Err(e) => out == Err::<(TcpStream, A), E>(e) && *final(reactor) == *old(reactor),
            },
    {
        match accepted {
            Ok((fd, addr)) => {
                reactor.add(fd);
                Ok((TcpStream { fd }, addr))
            },
            Err(error) => Err(error),
        }
    }

    /// One attempt to take the next connection, given what the socket
    /// answered. A connection that was accepted is registered with the
    /// reactor and comes back with the address of its peer; a failure is
    /// reported as it is; and when the socket would block, `waker` is
    /// stored for the read direction of this descriptor, in place of any
    /// waker stored there, and the verdict is `Pending`. The listener
    /// never runs out: the verdict is never `Ready(None)`.
    pub fn poll_next<W: Clone, A, E>(
        &mut self,
        reactor: &mut Reactor<W>,
        waker: W,
        accepted: Attempt<(i32, A), E>,
    ) -> (verdict: Poll<Option<Result<(TcpStream, A), E>>>)
        requires
            old(reactor).wf(),
        ensures
            final(self)@ == old(self)@,
            final(reactor).wf(),
            match accepted {
                Attempt::Done((fd, addr)) => {
                    &&& verdict matches Poll::Ready(Some(Ok((stream, peer))))
                    &&& stream@ == fd
                    &&& peer == addr
                    &&& registered(*old(reactor), *final(reactor), fd)
                },
                Attempt::Failed(e) => {
                    &&& verdict == Poll::Ready(Some(Err::<(TcpStream, A), E>(e)))
                    &&& *final(reactor) == *old(reactor)
                },
                Attempt::WouldBlock => {
                    &&& verdict is Pending
                    &&& parked(*old(reactor), *final(reactor), old(self)@, Interest::Read, waker)
                },
            },
    {
        match accepted {
            Attempt::Done((fd, addr)) => {
                reactor.add(fd);
                Poll::Ready(Some(Ok((TcpStream { fd }, addr))))
            },
            Attempt::WouldBlock => {
                reactor.modify(self.fd, Interest::Read, waker);
                Poll::Pending
            },
            Attempt::Failed(e) => Poll::Ready(Some(Err(e))),
        }
    }

    /// Drops the listener: its descriptor leaves the reactor at once,
    /// with its subscription and the wakers of both its directions.
    pub fn close<W>(self, reactor: &mut Reactor<W>)
        requires
            old(reactor).wf(),
        ensures
            released(*old(reactor), *final(reactor), self@),
    {
        reactor.delete(self.fd);
    }
}

} // verus!
