use futures::future::join_all;
use futures::task::{waker, ArcWake};
use std::cell::RefCell;
use std::collections::{HashMap, VecDeque};
use std::future::Future;
use std::pin::Pin;
use std::rc::Rc;
use std::sync::{Arc, Mutex};
use std::task::{Context, Waker};
use wasmedge_async::{
    spawn, AsyncRead, AsyncReadExt, AsyncWrite, AsyncWriteExt, Attempt, Event, EventType,
    Executor, Poll, ReadBuf, RunAction, RunEvent, RuntimeError, Subscription, Task, TaskPoll,
    TcpListener, TcpStream,
};

/// Sockets in memory. A stream reads what its peer wrote; a read takes at
/// most `chunk` bytes, and a write is taken only while the peer holds
/// fewer than `window` unread bytes.
struct Net {
    next_fd: i32,
    inbox: HashMap<i32, VecDeque<u8>>,
    peer: HashMap<i32, i32>,
    backlog: HashMap<i32, VecDeque<i32>>,
    chunk: usize,
    window: usize,
}

impl Net {
    fn new(chunk: usize, window: usize) -> Net {
        Net {
            next_fd: 3,
            inbox: HashMap::new(),
            peer: HashMap::new(),
            backlog: HashMap::new(),
            chunk,
            window,
        }
    }

    fn fresh(&mut self) -> i32 {
        let fd = self.next_fd;
        self.next_fd += 1;
        fd
    }

    fn listen(&mut self) -> Result<i32, String> {
        let fd = self.fresh();
        self.backlog.insert(fd, VecDeque::new());
        Ok(fd)
    }

    fn connect(&mut self, listener: i32) -> Result<i32, String> {
        if !self.backlog.contains_key(&listener) {
            return Err("connection refused".to_string());
        }
        let here = self.fresh();
        let there = self.fresh();
        self.inbox.insert(here, VecDeque::new());
        self.inbox.insert(there, VecDeque::new());
        self.peer.insert(here, there);
        self.peer.insert(there, here);
        self.backlog.get_mut(&listener).unwrap().push_back(there);
        Ok(here)
    }

    fn accept(&mut self, listener: i32) -> Attempt<(i32, i32), String> {
        match self.backlog.get_mut(&listener).and_then(|q| q.pop_front()) {
            Some(fd) => Attempt::Done((fd, self.peer[&fd])),
            None => Attempt::WouldBlock,
        }
    }

    fn read(&mut self, fd: i32, room: usize) -> Attempt<Vec<u8>, String> {
        let peer_open = self.inbox.contains_key(&self.peer[&fd]);
        let inbox = match self.inbox.get_mut(&fd) {
            Some(inbox) => inbox,
            None => return Attempt::Failed("bad descriptor".to_string()),
        };
        if inbox.is_empty() {
            if room == 0 || !peer_open {
                return Attempt::Done(Vec::new());
            }
            return Attempt::WouldBlock;
        }
        let n = room.min(self.chunk).min(inbox.len());
        Attempt::Done(inbox.drain(..n).collect())
    }

    fn write(&mut self, fd: i32, data: &[u8]) -> Attempt<usize, String> {
        let window = self.window;
        match self.inbox.get_mut(&self.peer[&fd]) {
            None => Attempt::Failed("broken pipe".to_string()),
            Some(inbox) => {
                if inbox.len() >= window {
                    return Attempt::WouldBlock;
                }
                let n = data.len().min(window - inbox.len());
                inbox.extend(&data[..n]);
                Attempt::Done(n)
            }
        }
    }

    fn close(&mut self, fd: i32) {
        self.inbox.remove(&fd);
        self.backlog.remove(&fd);
    }

    fn readable(&self, fd: i32) -> bool {
        if let Some(queue) = self.backlog.get(&fd) {
            return !queue.is_empty();
        }
        match self.inbox.get(&fd) {
            Some(inbox) => !inbox.is_empty() || !self.inbox.contains_key(&self.peer[&fd]),
            None => false,
        }
    }

    fn writable(&self, fd: i32) -> bool {
        match self.peer.get(&fd).and_then(|p| self.inbox.get(p)) {
            Some(inbox) => inbox.len() < self.window,
            None => self.inbox.contains_key(&fd),
        }
    }

    /// What a readiness source answers: one event for each direction that
    /// is asked for and ready, by ascending descriptor.
    fn poll(&self, subs: &[Subscription]) -> Result<Vec<Event<String>>, String> {
        let mut subs = subs.to_vec();
        subs.sort_by_key(|s| s.fd);
        let mut events = Vec::new();
        for s in subs {
            if s.read_event && self.readable(s.fd) {
                events.push(Event { event_type: EventType::Read, userdata: s.userdata });
            }
            if s.write_event && self.writable(s.fd) {
                events.push(Event { event_type: EventType::Write, userdata: s.userdata });
            }
        }
        if events.is_empty() {
            return Err("nothing will ever be ready".to_string());
        }
        Ok(events)
    }
}

type TaskFuture = Pin<Box<dyn Future<Output = ()>>>;

struct World {
    ex: Executor<Waker>,
    net: Net,
    futures: Vec<Option<TaskFuture>>,
    polls: Vec<usize>,
    finished: Vec<bool>,
    woken: Arc<Mutex<Vec<Task>>>,
}

type Shared = Rc<RefCell<World>>;

fn world(chunk: usize, window: usize) -> Shared {
    Rc::new(RefCell::new(World {
        ex: Executor::new(),
        net: Net::new(chunk, window),
        futures: Vec::new(),
        polls: Vec::new(),
        finished: Vec::new(),
        woken: Arc::new(Mutex::new(Vec::new())),
    }))
}

struct TaskWaker {
    task: Task,
    woken: Arc<Mutex<Vec<Task>>>,
}

impl ArcWake for TaskWaker {
    fn wake_by_ref(arc_self: &Arc<Self>) {
        arc_self.woken.lock().unwrap().push(arc_self.task);
    }
}

fn spawn_on(world: &Shared, future: impl Future<Output = ()> + 'static) -> Task {
    let mut w = world.borrow_mut();
    let task = spawn(&mut w.ex);
    assert_eq!(task.id(), w.futures.len());
    w.futures.push(Some(Box::pin(future)));
    w.polls.push(0);
    w.finished.push(false);
    task
}

fn deliver_wakes(world: &Shared) {
    let mut w = world.borrow_mut();
    let woken: Vec<Task> = w.woken.lock().unwrap().drain(..).collect();
    for task in woken {
        w.ex.wake(task);
    }
}

fn poll_task(world: &Shared, task: Task) -> TaskPoll {
    let taken = world.borrow_mut().futures[task.id()].take();
    let mut future = match taken {
        Some(future) => future,
        None => return TaskPoll::Locked,
    };
    {
        let mut w = world.borrow_mut();
        assert!(!w.finished[task.id()], "a finished task was polled again");
        w.polls[task.id()] += 1;
    }
    let woken = world.borrow().woken.clone();
    let task_waker = waker(Arc::new(TaskWaker { task, woken }));
    let mut cx = Context::from_waker(&task_waker);
    let verdict = future.as_mut().poll(&mut cx);
    deliver_wakes(world);
    match verdict {
        std::task::Poll::Ready(()) => {
            world.borrow_mut().finished[task.id()] = true;
            drop(future);
            TaskPoll::Ready
        }
        std::task::Poll::Pending => {
            world.borrow_mut().futures[task.id()] = Some(future);
            TaskPoll::Pending
        }
    }
}

/// Drives `entry` to completion as the run loop says.
fn block_on<O>(world: &Shared, entry: impl Future<Output = O>) -> Result<O, RuntimeError<String>> {
    let mut entry = Box::pin(entry);
    let mut output = None;
    let mut action = world.borrow_mut().ex.block_on(RunEvent::Start);
    loop {
        let event = match action {
            RunAction::PollEntry { wake, waker } => {
                for w in wake {
                    w.wake();
                }
                deliver_wakes(world);
                let mut cx = Context::from_waker(&waker);
                let verdict = entry.as_mut().poll(&mut cx);
                deliver_wakes(world);
                match verdict {
                    std::task::Poll::Ready(o) => {
                        output = Some(o);
                        RunEvent::Entry(true)
                    }
                    std::task::Poll::Pending => RunEvent::Entry(false),
                }
            }
            RunAction::PollTask(task) => RunEvent::Task(poll_task(world, task)),
            RunAction::Poll(subs) => RunEvent::Polled(world.borrow().net.poll(&subs)),
            RunAction::Finish => return Ok(output.take().unwrap()),
            RunAction::Abort { wake, error } => {
                for w in wake {
                    w.wake();
                }
                return Err(error);
            }
        };
        action = world.borrow_mut().ex.block_on(event);
    }
}

/// What a poll of a stream is given: the world and the waker of the poll.
struct Cx {
    world: Shared,
    waker: Waker,
}

struct Stream {
    world: Shared,
    state: Option<TcpStream>,
}

impl Stream {
    fn connect(world: &Shared, listener: i32) -> Result<Stream, String> {
        let mut w = world.borrow_mut();
        let connected = w.net.connect(listener);
        let state = TcpStream::connect(w.ex.reactor_mut(), connected)?;
        Ok(Stream { world: world.clone(), state: Some(state) })
    }

    fn fd(&self) -> i32 {
        self.state.as_ref().unwrap().as_raw_fd()
    }

    fn read<'a>(&'a mut self, dst: &'a mut Vec<u8>) -> ReadTurn<'a> {
        ReadTurn { stream: self, dst }
    }

    fn write<'a>(&'a mut self, src: &'a [u8]) -> WriteTurn<'a> {
        WriteTurn { stream: self, src }
    }

    fn shutdown(&mut self) -> ShutdownTurn<'_> {
        ShutdownTurn { stream: self }
    }
}

impl Drop for Stream {
    fn drop(&mut self) {
        if let Some(state) = self.state.take() {
            let mut w = self.world.borrow_mut();
            w.net.close(state.as_raw_fd());
            state.close(w.ex.reactor_mut());
        }
    }
}

impl AsyncRead<Cx, String> for Stream {
    fn poll_read(&mut self, cx: &mut Cx, buf: &mut ReadBuf) -> Poll<Result<(), String>> {
        let mut w = cx.world.borrow_mut();
        let state = self.state.as_mut().unwrap();
        let attempt = w.net.read(state.as_raw_fd(), buf.remaining());
        state.poll_read(w.ex.reactor_mut(), cx.waker.clone(), buf, attempt)
    }
}

impl AsyncWrite<Cx, String> for Stream {
    fn poll_write(&mut self, cx: &mut Cx, buf: &[u8]) -> Poll<Result<usize, String>> {
        let mut w = cx.world.borrow_mut();
        let state = self.state.as_mut().unwrap();
        let attempt = w.net.write(state.as_raw_fd(), buf);
        state.poll_write(w.ex.reactor_mut(), cx.waker.clone(), attempt)
    }

    fn poll_flush(&mut self, _cx: &mut Cx) -> Poll<Result<(), String>> {
        self.state.as_mut().unwrap().poll_flush()
    }

    fn poll_shutdown(&mut self, _cx: &mut Cx) -> Poll<Result<(), String>> {
        self.state.as_mut().unwrap().poll_shutdown(Ok(()))
    }
}

fn std_poll<T>(verdict: Poll<T>) -> std::task::Poll<T> {
    match verdict {
        Poll::Ready(t) => std::task::Poll::Ready(t),
        Poll::Pending => std::task::Poll::Pending,
    }
}

struct ReadTurn<'a> {
    stream: &'a mut Stream,
    dst: &'a mut Vec<u8>,
}

impl<'a> Future for ReadTurn<'a> {
    type Output = Result<usize, String>;

    fn poll(self: Pin<&mut Self>, cx: &mut Context<'_>) -> std::task::Poll<Self::Output> {
        let me = self.get_mut();
        let mut cx = Cx { world: me.stream.world.clone(), waker: cx.waker().clone() };
        std_poll(AsyncReadExt::read(&mut *me.stream, &mut cx, &mut *me.dst))
    }
}

struct WriteTurn<'a> {
    stream: &'a mut Stream,
    src: &'a [u8],
}

impl<'a> Future for WriteTurn<'a> {
    type Output = Result<usize, String>;

    fn poll(self: Pin<&mut Self>, cx: &mut Context<'_>) -> std::task::Poll<Self::Output> {
        let me = self.get_mut();
        let mut cx = Cx { world: me.stream.world.clone(), waker: cx.waker().clone() };
        std_poll(AsyncWriteExt::write(&mut *me.stream, &mut cx, me.src))
    }
}

struct ShutdownTurn<'a> {
    stream: &'a mut Stream,
}

impl<'a> Future for ShutdownTurn<'a> {
    type Output = Result<(), String>;

    fn poll(self: Pin<&mut Self>, cx: &mut Context<'_>) -> std::task::Poll<Self::Output> {
        let me = self.get_mut();
        let mut cx = Cx { world: me.stream.world.clone(), waker: cx.waker().clone() };
        std_poll(AsyncWriteExt::shutdown(&mut *me.stream, &mut cx))
    }
}

struct Listener {
    world: Shared,
    state: Option<TcpListener>,
}

impl Listener {
    fn bind(world: &Shared) -> Result<Listener, String> {
        let mut w = world.borrow_mut();
        let bound = w.net.listen();
        let state = TcpListener::bind(w.ex.reactor_mut(), bound)?;
        Ok(Listener { world: world.clone(), state: Some(state) })
    }

    fn fd(&self) -> i32 {
        self.state.as_ref().unwrap().as_raw_fd()
    }

    fn next(&mut self) -> Next<'_> {
        Next { listener: self }
    }
}

impl Drop for Listener {
    fn drop(&mut self) {
        if let Some(state) = self.state.take() {
            let mut w = self.world.borrow_mut();
            w.net.close(state.as_raw_fd());
            state.close(w.ex.reactor_mut());
        }
    }
}

struct Next<'a> {
    listener: &'a mut Listener,
}

impl<'a> Future for Next<'a> {
    type Output = Option<Result<(Stream, i32), String>>;

    fn poll(self: Pin<&mut Self>, cx: &mut Context<'_>) -> std::task::Poll<Self::Output> {
        let me = self.get_mut();
        let world = me.listener.world.clone();
        let mut w = world.borrow_mut();
        let state = me.listener.state.as_mut().unwrap();
        let accepted = w.net.accept(state.as_raw_fd());
        match state.poll_next(w.ex.reactor_mut(), cx.waker().clone(), accepted) {
            Poll::Pending => std::task::Poll::Pending,
            Poll::Ready(None) => std::task::Poll::Ready(None),
            Poll::Ready(Some(Err(e))) => std::task::Poll::Ready(Some(Err(e))),
            Poll::Ready(Some(Ok((stream, peer)))) => std::task::Poll::Ready(Some(Ok((
                Stream { world: world.clone(), state: Some(stream) },
                peer,
            )))),
        }
    }
}

/// Writes all of `data`, one write per turn.
async fn write_all(stream: &mut Stream, data: &[u8]) -> Result<(), String> {
    let mut sent = 0;
    while sent < data.len() {
        sent += stream.write(&data[sent..]).await?;
    }
    Ok(())
}

/// Reads until `want` bytes have come, one read per turn, and counts the
/// reads.
async fn read_exactly(stream: &mut Stream, want: usize) -> Result<(Vec<u8>, usize), String> {
    let mut got = Vec::new();
    let mut reads = 0;
    while got.len() < want {
        let mut dst = vec![0u8; want - got.len()];
        let n = stream.read(&mut dst).await?;
        reads += 1;
        if n == 0 {
            return Err("end of stream".to_string());
        }
        got.extend_from_slice(&dst[..n]);
    }
    Ok((got, reads))
}

/// Accepts connections for ever; each one gets a task that reads
/// `request` bytes and answers with `reply`.
async fn serve(world: Shared, mut listener: Listener, request: usize, reply: &'static [u8]) {
    while let Some(accepted) = listener.next().await {
        if let Ok((mut stream, _peer)) = accepted {
            let handler = async move {
                let (_message, _) = read_exactly(&mut stream, request).await.unwrap();
                write_all(&mut stream, reply).await.unwrap();
            };
            spawn_on(&world, handler);
        }
    }
}

const BANNER: &[u8] = b"Hello TCP Client! I received a message from you!";

#[test]
fn client_gets_the_five_byte_reply() {
    let world = world(1024, 1024);
    let listener = Listener::bind(&world).unwrap();
    let port = listener.fd();
    spawn_on(&world, serve(world.clone(), listener, 12, b"hello"));
    let w = world.clone();
    let out = block_on(&world, async move {
        let mut stream = Stream::connect(&w, port)?;
        stream.write(b"hello world\n").await?;
        let mut response = vec![0u8; 5];
        let length = stream.read(&mut response).await?;
        Ok::<_, String>((length, response))
    });
    let (length, response) = out.unwrap().unwrap();
    assert_eq!(length, 5);
    assert_eq!(response, b"hello".to_vec());
}

#[test]
fn client_gets_the_banner() {
    let world = world(1024, 1024);
    let listener = Listener::bind(&world).unwrap();
    let port = listener.fd();
    spawn_on(&world, serve(world.clone(), listener, 12, BANNER));
    let w = world.clone();
    let out = block_on(&world, async move {
        let mut stream = Stream::connect(&w, port)?;
        stream.write(b"hello world\n").await?;
        let mut response = vec![0u8; 48];
        let length = stream.read(&mut response).await?;
        Ok::<_, String>((length, response))
    });
    let (length, response) = out.unwrap().unwrap();
    assert_eq!(BANNER.len(), 48);
    assert_eq!(length, 48);
    assert_eq!(response, BANNER.to_vec());
}

#[test]
fn partial_reads_add_up_to_what_was_sent() {
    let world = world(2, 1024);
    let listener = Listener::bind(&world).unwrap();
    let port = listener.fd();
    spawn_on(&world, serve(world.clone(), listener, 12, b"hello"));
    let w = world.clone();
    let out = block_on(&world, async move {
        let mut stream = Stream::connect(&w, port)?;
        write_all(&mut stream, b"hello world\n").await?;
        let mut first = vec![0u8; 5];
        let n = stream.read(&mut first).await?;
        first.truncate(n);
        let (rest, reads) = read_exactly(&mut stream, 5 - n).await?;
        Ok::<_, String>((first, rest, reads))
    });
    let (first, rest, reads) = out.unwrap().unwrap();
    assert_eq!(first, b"he".to_vec());
    assert_eq!(rest, b"llo".to_vec());
    assert_eq!(reads, 2);
}

#[test]
fn writes_wait_for_room_and_nothing_is_lost() {
    let world = world(3, 4);
    let listener = Listener::bind(&world).unwrap();
    let port = listener.fd();
    spawn_on(&world, serve(world.clone(), listener, 12, BANNER));
    let w = world.clone();
    let out = block_on(&world, async move {
        let mut stream = Stream::connect(&w, port)?;
        let first = stream.write(b"hello world\n").await?;
        write_all(&mut stream, &b"hello world\n"[first..]).await?;
        let (response, reads) = read_exactly(&mut stream, 48).await?;
        stream.shutdown().await?;
        Ok::<_, String>((first, response, reads))
    });
    let (first, response, reads) = out.unwrap().unwrap();
    assert_eq!(first, 4);
    assert_eq!(response, BANNER.to_vec());
    assert!(reads >= 16);
}

#[test]
fn six_clients_do_not_see_each_others_bytes() {
    let world = world(1024, 1024);
    let listener = Listener::bind(&world).unwrap();
    let port = listener.fd();
    let echo = {
        let world = world.clone();
        let mut listener = listener;
        async move {
            while let Some(Ok((mut stream, _))) = listener.next().await {
                spawn_on(&world, async move {
                    let (message, _) = read_exactly(&mut stream, 8).await.unwrap();
                    let mut reply = b"re:".to_vec();
                    reply.extend_from_slice(&message);
                    write_all(&mut stream, &reply).await.unwrap();
                });
            }
        }
    };
    spawn_on(&world, echo);
    let w = world.clone();
    let out = block_on(&world, async move {
        spawn_on(&w, async {});
        let clients: Vec<_> = (0..6u8)
            .map(|i| {
                let w = w.clone();
                async move {
                    let mut stream = Stream::connect(&w, port)?;
                    let message = vec![b'a' + i; 8];
                    write_all(&mut stream, &message).await?;
                    let (reply, _) = read_exactly(&mut stream, 11).await?;
                    Ok::<_, String>(reply)
                }
            })
            .collect();
        join_all(clients).await
    });
    let replies = out.unwrap();
    assert_eq!(replies.len(), 6);
    for (i, reply) in replies.into_iter().enumerate() {
        let mut expected = b"re:".to_vec();
        expected.extend_from_slice(&vec![b'a' + i as u8; 8]);
        assert_eq!(reply.unwrap(), expected);
    }
}

#[test]
fn six_spawned_clients_each_finish_their_exchange() {
    let world = world(4, 1024);
    let listener = Listener::bind(&world).unwrap();
    let port = listener.fd();
    spawn_on(&world, serve(world.clone(), listener, 12, b"hello"));
    let results: Rc<RefCell<Vec<(usize, Vec<u8>)>>> = Rc::new(RefCell::new(Vec::new()));
    for i in 0..6usize {
        let w = world.clone();
        let results = results.clone();
        spawn_on(&world, async move {
            let mut stream = Stream::connect(&w, port).unwrap();
            write_all(&mut stream, b"hello world\n").await.unwrap();
            let (reply, _) = read_exactly(&mut stream, 5).await.unwrap();
            results.borrow_mut().push((i, reply));
        });
    }
    let w = world.clone();
    let seen = results.clone();
    let out = block_on(&world, async move {
        let mut reply = Vec::new();
        while seen.borrow().len() < 6 {
            let mut stream = Stream::connect(&w, port)?;
            write_all(&mut stream, b"hello world\n").await?;
            reply = read_exactly(&mut stream, 5).await?.0;
        }
        Ok::<_, String>(reply)
    });
    assert_eq!(out.unwrap().unwrap(), b"hello".to_vec());
    let mut seen = results.borrow().clone();
    seen.sort();
    assert_eq!(seen.len(), 6);
    for (i, (who, reply)) in seen.into_iter().enumerate() {
        assert_eq!(who, i);
        assert_eq!(reply, b"hello".to_vec());
    }
}

#[test]
fn every_task_spawned_before_the_wait_is_polled_and_none_after_it_is_done() {
    let world = world(1024, 1024);
    let listener = Listener::bind(&world).unwrap();
    let port = listener.fd();
    let server = spawn_on(&world, serve(world.clone(), listener, 12, b"hello"));
    let idle = spawn_on(&world, async {});
    let w = world.clone();
    let out = block_on(&world, async move {
        let inner = spawn_on(&w, async {});
        let mut stream = Stream::connect(&w, port)?;
        stream.write(b"hello world\n").await?;
        let mut response = vec![0u8; 5];
        stream.read(&mut response).await?;
        Ok::<_, String>(inner)
    });
    let inner = out.unwrap().unwrap();
    let w = world.borrow();
    assert_eq!(w.ex.spawned(), w.polls.len());
    for id in 0..w.polls.len() {
        assert!(w.polls[id] >= 1, "task {} was never polled", id);
        assert_eq!(w.ex.is_done(Task::new(id)), w.finished[id]);
    }
    assert_eq!(w.polls[idle.id()], 1);
    assert_eq!(w.polls[inner.id()], 1);
    assert!(w.finished[idle.id()]);
    assert!(!w.finished[server.id()]);
    assert_eq!(w.polls[server.id()], 1);
}

#[test]
fn dropped_stream_leaves_the_reactor_before_its_number_is_used_again() {
    let world = world(1024, 1024);
    let listener = Listener::bind(&world).unwrap();
    let port = listener.fd();
    let stream = Stream::connect(&world, port).unwrap();
    let fd = stream.fd();
    assert!(world.borrow().ex.reactor().subscription(fd).is_some());
    drop(stream);
    assert!(world.borrow().ex.reactor().subscription(fd).is_none());
    let listed = world.borrow().ex.reactor().subscriptions_list();
    assert_eq!(listed.len(), 1);
    assert_eq!(listed[0].fd, port);
    drop(listener);
    assert!(world.borrow().ex.reactor().subscriptions_list().is_empty());
}

#[test]
fn connect_to_nobody_fails_and_registers_nothing() {
    let world = world(1024, 1024);
    let w = world.clone();
    let out = block_on(&world, async move { Stream::connect(&w, 99).map(|_| ()) });
    assert_eq!(out.unwrap().unwrap_err(), "connection refused");
    assert!(world.borrow().ex.reactor().subscriptions_list().is_empty());
}

#[test]
fn waiting_with_nothing_to_wait_for_fails_the_run() {
    let world = world(1024, 1024);
    let out = block_on(&world, std::future::pending::<()>());
    match out {
        Err(RuntimeError::Io(e)) => assert_eq!(e, "nothing will ever be ready"),
        other => panic!("unexpected outcome {:?}", other.map(|_| ())),
    }
}
