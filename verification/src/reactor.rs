//! The reactor: which descriptors are watched, and which waker is owed a
//! call when a descriptor becomes ready in a direction.

use crate::error::RuntimeError;
use crate::interest::{token, token_injective, token_of, Interest};
use crate::poller::{Poller, Subscription};
use std::collections::HashMap;
use vstd::prelude::*;

verus! {

/// What the readiness source reports of one subscription.
#[derive(Debug)]
pub enum EventType<E> {
    /// A deadline passed.
    Timeout,
    /// The descriptor failed.
    Error(E),
    /// The descriptor can be read.
    Read,
    /// The descriptor can be written.
    Write,
}

/// One report of the readiness source.
#[derive(Debug)]
pub struct Event<E> {
    /// What happened.
    pub event_type: EventType<E>,
    /// The token of the subscription that it happened to.
    pub userdata: u64,
}

/// The wakers that are owed a call, by token and direction. Each slot
/// holds at most one waker.
pub ghost struct Slots<W> {
    /// The wakers of pending reads.
    pub read: Map<u64, W>,
    /// The wakers of pending writes.
    pub write: Map<u64, W>,
}

/// What dispatching a list of events comes to.
pub ghost struct Dispatch<W, E> {
    /// The slots that are left.
    pub slots: Slots<W>,
    /// The wakers that were taken out, in the order of their events.
    pub woken: Seq<W>,
    /// `Ok` when every event found its waker, else the first fault.
    pub result: Result<(), RuntimeError<E>>,
}

/// Dispatches `events` in order against `slots`. A read or write event
/// takes the waker out of the slot of its token and direction. The first
/// event that is a timeout, a failure, or finds its slot empty ends the
/// dispatch: the events behind it are not looked at.
pub open spec fn dispatch<W, E>(slots: Slots<W>, events: Seq<Event<E>>) -> Dispatch<W, E>
    decreases events.len(),
{
    if events.len() == 0 {
        Dispatch { slots, woken: Seq::empty(), result: Ok(()) }
    } else {
        let t = events[0].userdata;
        match events[0].event_type {
            EventType::Timeout => Dispatch {
                slots,
                woken: Seq::empty(),
                result: Err(RuntimeError::Timeout),
            },
            EventType::Error(e) => Dispatch {
                slots,
                woken: Seq::empty(),
                result: Err(RuntimeError::Io(e)),
            },
            EventType::Read => if slots.read.contains_key(t) {
                let rest = dispatch(
                    Slots { read: slots.read.remove(t), write: slots.write },
                    events.drop_first(),
                );
                Dispatch {
                    slots: rest.slots,
                    woken: seq![slots.read[t]] + rest.woken,
                    result: rest.result,
                }
            } else {
                Dispatch { slots, woken: Seq::empty(), result: Err(RuntimeError::NoWaker) }
            },
            EventType::Write => if slots.write.contains_key(t) {
                let rest = dispatch(
                    Slots { read: slots.read, write: slots.write.remove(t) },
                    events.drop_first(),
                );
                Dispatch {
                    slots: rest.slots,
                    woken: seq![slots.write[t]] + rest.woken,
                    result: rest.result,
                }
            } else {
                Dispatch { slots, woken: Seq::empty(), result: Err(RuntimeError::NoWaker) }
            },
        }
    }
}

/// What one wait comes to: the readiness source either failed as a whole,
/// which leaves the slots as they were, or reported events, which are
/// dispatched.
pub open spec fn wait_outcome<W, E>(slots: Slots<W>, polled: Result<Seq<Event<E>>, E>) -> Dispatch<
    W,
    E,
> {
    match polled {
        Ok(events) => dispatch(slots, events),
        Err(e) => Dispatch { slots, woken: Seq::empty(), result: Err(RuntimeError::Io(e)) },
    }
}

impl<W> Slots<W> {
    /// The slots after `waker` was stored for token `t` in the direction
    /// `Read` or `Write`. A waker that was stored there before is dropped.
    pub open spec fn store(self, t: u64, interest: Interest, waker: W) -> Slots<W> {
        Slots {
            read: if interest == Interest::Write {
                self.read
            } else {
                self.read.insert(t, waker)
            },
            write: if interest == Interest::Read {
                self.write
            } else {
                self.write.insert(t, waker)
            },
        }
    }
}

impl<W, E> Dispatch<W, E> {
    /// This outcome with `first` put before the wakers it took out.
    pub open spec fn after(self, first: Seq<W>) -> Dispatch<W, E> {
        Dispatch { slots: self.slots, woken: first + self.woken, result: self.result }
    }
}

/// The wakers that a wait took out of their slots, and how the wait ended.
#[derive(Debug)]
pub struct Wakeup<W, E> {
    /// The wakers to invoke, in this order.
    pub wakers: Vec<W>,
    /// `Ok` when every event was dispatched, else the fault that cut the
    /// dispatch short.
    pub result: Result<(), RuntimeError<E>>,
}

/// The registered descriptors with the directions asked of each, and the
/// wakers owed a call.
pub struct Reactor<W> {
    poll: Poller,
    read_wakers: HashMap<u64, W>,
    write_wakers: HashMap<u64, W>,
}

impl<W> Reactor<W> {
    /// The subscription of each registered descriptor.
    pub closed spec fn subscriptions(&self) -> Map<i32, Subscription> {
        self.poll@
    }

    /// The stored wakers.
    pub closed spec fn slots(&self) -> Slots<W> {
        Slots { read: self.read_wakers@, write: self.write_wakers@ }
    }

    /// Each subscription is filed under its own descriptor.
    pub closed spec fn wf(&self) -> bool {
        self.poll.wf()
    }

    /// A reactor that watches nothing and owes no call.
    pub fn new() -> (r: Reactor<W>)
        ensures
            r.wf(),
            r.subscriptions() == Map::<i32, Subscription>::empty(),
            r.slots() == (Slots { read: Map::<u64, W>::empty(), write: Map::<u64, W>::empty() }),
    {
        Reactor { poll: Poller::new(), read_wakers: HashMap::new(), write_wakers: HashMap::new() }
    }

    /// The subscription of `fd`, if it is registered.
    pub fn subscription(&self, fd: i32) -> (sub: Option<Subscription>)
        ensures
            sub == self.registration(fd).subscription,
    {
        self.poll.get(fd)
    }

    /// Whether a waker is stored for each direction of `fd` that
    /// `interest` names.
    pub fn is_parked(&self, fd: i32, interest: Interest) -> (parked: bool)
        ensures
            parked == ((interest.wants_read() ==> self.registration(fd).reader is Some) && (
            interest.wants_write() ==> self.registration(fd).writer is Some)),
    {
        broadcast use vstd::std_specs::hash::group_hash_axioms;

        let t = token(fd);
        let reader = !interest.is_readable() || self.read_wakers.contains_key(&t);
        let writer = !interest.is_writable() || self.write_wakers.contains_key(&t);
        reader && writer
    }

    /// The subscriptions to hand to the readiness source: those of the
    /// registered descriptors, each once, in no particular order.
    pub fn subscriptions_list(&self) -> (list: Vec<Subscription>)
        requires
            self.wf(),
        ensures
            list@.to_set() == self.subscriptions().values(),
            list@.len() == self.subscriptions().len(),
    {
        self.poll.subscriptions()
    }

    /// Registers `fd` with interest in both directions. No waker is stored
    /// or dropped.
    pub fn add(&mut self, fd: i32)
        requires
            old(self).wf(),
        ensures
            final(self).wf(),
            final(self).subscriptions() == old(self).subscriptions().insert(
                fd,
                Subscription::of(fd, Interest::All),
            ),
            final(self).slots() == old(self).slots(),
    {
        self.poll.add(fd);
    }

    /// Forgets `fd`: its subscription and the wakers of both its directions.
    pub fn delete(&mut self, fd: i32)
        requires
            old(self).wf(),
        ensures
            final(self).wf(),
            final(self).subscriptions() == old(self).subscriptions().remove(fd),
            final(self).slots() == (Slots {
                read: old(self).slots().read.remove(token_of(fd)),
                write: old(self).slots().write.remove(token_of(fd)),
            }),
    {
        broadcast use vstd::std_specs::hash::group_hash_axioms;

        let t = token(fd);
        self.read_wakers.remove(&t);
        self.write_wakers.remove(&t);
        self.poll.delete(fd);
    }

    /// Sets the interest of `fd`, if it is registered, to `interest`, and
    /// stores `waker` for each direction that `interest` names, in place of
    /// the waker stored there before. With `Interest::All` the write slot
    /// gets `waker` itself and the read slot a clone of it.
    pub fn modify(&mut self, fd: i32, interest: Interest, waker: W) where W: Clone
        requires
            old(self).wf(),
        ensures
            final(self).wf(),
            final(self).subscriptions() == if old(self).subscriptions().contains_key(fd) {
                old(self).subscriptions().insert(fd, Subscription::of(fd, interest))
            } else {
                old(self).subscriptions()
            },
            interest != Interest::All ==> final(self).slots() == old(self).slots().store(
                token_of(fd),
                interest,
                waker,
            ),
            interest == Interest::All ==> exists|copy: W|
                cloned(waker, copy) && final(self).slots() == #[trigger] old(self).slots().store(
                    token_of(fd),
                    Interest::Read,
                    copy,
                ).store(token_of(fd), Interest::Write, waker),
    {
        broadcast use vstd::std_specs::hash::group_hash_axioms;

        let t = token(fd);
        match interest {
            Interest::Read => {
                self.read_wakers.insert(t, waker);
            },
            Interest::Write => {
                self.write_wakers.insert(t, waker);
            },
            Interest::All => {
                let copy = waker.clone();
                self.read_wakers.insert(t, copy);
                self.write_wakers.insert(t, waker);
                assert(self.slots() == old(self).slots().store(t, Interest::Read, copy).store(
                    t,
                    Interest::Write,
                    waker,
                ));
            },
        }
        self.poll.modify(fd, interest);
    }

    /// Takes what the readiness source answered to the current
    /// subscriptions and hands out the wakers that are owed a call. The
    /// wakers come in the order of their events, each taken out of its
    /// slot, so that a new registration is needed to be told again. A
    /// failure of the source as a whole, an event that reports a failure
    /// or a timeout, or an event whose slot is empty ends the wait with
    /// that fault; the wakers of the events before it are handed out, and
    /// the events behind it are dropped.
    pub fn wait<E>(&mut self, polled: Result<Vec<Event<E>>, E>) -> (out: Wakeup<W, E>)
        requires
            old(self).wf(),
        ensures
            final(self).wf(),
            final(self).subscriptions() == old(self).subscriptions(),
            final(self).slots() == wait_outcome(old(self).slots(), seq_of(polled)).slots,
            out.wakers@ == wait_outcome(old(self).slots(), seq_of(polled)).woken,
            out.result == wait_outcome(old(self).slots(), seq_of(polled)).result,
    {
        broadcast use vstd::std_specs::hash::group_hash_axioms;

        let mut wakers: Vec<W> = Vec::new();
        let ghost goal = wait_outcome(self.slots(), seq_of(polled));
        let events = match polled {
            Ok(events) => events,
            Err(e) => {
                return Wakeup { wakers, result: Err(RuntimeError::Io(e)) };
            },
        };
        let ghost all = events@;
        proof {
            assert(all.skip(0) =~= all);
            assert(wakers@ + goal.woken =~= goal.woken);
        }
        for event in it: events
            invariant
                it.seq() == all,
                self.wf(),
                self.subscriptions() == old(self).subscriptions(),
                goal == wait_outcome(old(self).slots(), seq_of(polled)),
                goal == dispatch(self.slots(), all.skip(it.index())).after(wakers@),
        {
            let ghost rest = all.skip(it.index());
            assert(rest.len() > 0 && rest[0] == event);
            assert(rest.drop_first() =~= all.skip(it.index() + 1));
            let ghost prior = self.slots();
            let token = event.userdata;
            let waker = match event.event_type {
                EventType::Read => self.read_wakers.remove(&token),
                EventType::Write => self.write_wakers.remove(&token),
                EventType::Timeout => {
                    assert(wakers@ + Seq::<W>::empty() =~= wakers@);
                    return Wakeup { wakers, result: Err(RuntimeError::Timeout) };
                },
                EventType::Error(e) => {
                    assert(wakers@ + Seq::<W>::empty() =~= wakers@);
                    return Wakeup { wakers, result: Err(RuntimeError::Io(e)) };
                },
            };
            match waker {
                Some(waker) => {
                    let ghost before = wakers@;
                    wakers.push(waker);
                    assert(before + (seq![waker] + dispatch(self.slots(), rest.drop_first()).woken)
                        =~= wakers@ + dispatch(self.slots(), rest.drop_first()).woken);
                },
                None => {
                    assert(self.slots().read =~= prior.read);
                    assert(self.slots().write =~= prior.write);
                    assert(wakers@ + Seq::<W>::empty() =~= wakers@);
                    return Wakeup { wakers, result: Err(RuntimeError::NoWaker) };
                },
            }
        }
        assert(all.skip(all.len() as int).len() == 0);
        assert(wakers@ + Seq::<W>::empty() =~= wakers@);
        Wakeup { wakers, result: Ok(()) }
    }
}

/// The events of an answer of the readiness source, as a sequence.
pub open spec fn seq_of<E>(polled: Result<Vec<Event<E>>, E>) -> Result<Seq<Event<E>>, E> {
    match polled {
        Ok(events) => Ok(events@),
        Err(e) => Err(e),
    }
}

/// The reactor after `fd` was registered: it is watched in both
/// directions, and the wakers are as before.
pub open spec fn registered<W>(pre: Reactor<W>, post: Reactor<W>, fd: i32) -> bool {
    &&& post.wf()
    &&& post.subscriptions() == pre.subscriptions().insert(fd, Subscription::of(fd, Interest::All))
    &&& post.slots() == pre.slots()
}

/// The reactor after an operation on `fd` would have blocked: `fd`, if it
/// is registered, is watched in the one direction of `interest`, and
/// `waker` is the one waker of that direction of `fd`. All other wakers
/// are as before.
pub open spec fn parked<W>(
    pre: Reactor<W>,
    post: Reactor<W>,
    fd: i32,
    interest: Interest,
    waker: W,
) -> bool {
    &&& post.wf()
    &&& post.subscriptions() == if pre.subscriptions().contains_key(fd) {
        pre.subscriptions().insert(fd, Subscription::of(fd, interest))
    } else {
        pre.subscriptions()
    }
    &&& post.slots() == pre.slots().store(token_of(fd), interest, waker)
}

/// The reactor after the endpoint of `fd` was dropped: nothing of `fd` is
/// left in it.
pub open spec fn released<W>(pre: Reactor<W>, post: Reactor<W>, fd: i32) -> bool {
    &&& post.wf()
    &&& post.subscriptions() == pre.subscriptions().remove(fd)
    &&& post.slots().read == pre.slots().read.remove(token_of(fd))
    &&& post.slots().write == pre.slots().write.remove(token_of(fd))
}

/// What the reactor holds of descriptor `fd`: its subscription, and the
/// wakers of its two directions.
pub ghost struct Registration<W> {
    /// The subscription, if the descriptor is registered.
    pub subscription: Option<Subscription>,
    /// The waker of a pending read, if one is stored.
    pub reader: Option<W>,
    /// The waker of a pending write, if one is stored.
    pub writer: Option<W>,
}

impl<W> Reactor<W> {
    /// What this reactor holds of `fd`.
    pub open spec fn registration(&self, fd: i32) -> Registration<W> {
        Registration {
            subscription: if self.subscriptions().contains_key(fd) {
                Some(self.subscriptions()[fd])
            } else {
                None
            },
            reader: if self.slots().read.contains_key(token_of(fd)) {
                Some(self.slots().read[token_of(fd)])
            } else {
                None
            },
            writer: if self.slots().write.contains_key(token_of(fd)) {
                Some(self.slots().write[token_of(fd)])
            } else {
                None
            },
        }
    }

    /// Each subscription of a well-formed reactor watches the descriptor
    /// it is filed under, in at least one direction, under that
    /// descriptor's token; so no two subscriptions share a token.
    pub proof fn lemma_subscriptions(&self, fd: i32)
        requires
            self.wf(),
            self.subscriptions().contains_key(fd),
        ensures
            self.subscriptions()[fd].fd == fd,
            self.subscriptions()[fd].userdata == token_of(fd),
            self.subscriptions()[fd].read_event || self.subscriptions()[fd].write_event,
    {
        self.poll.lemma_entries(fd);
    }

    /// Once an endpoint is dropped, the reactor holds nothing of its
    /// descriptor: no subscription names the descriptor or carries its
    /// token, so the readiness source is not asked about it again, and
    /// no waker is stored for it, so an event that still names it wakes
    /// nobody.
    pub proof fn lemma_released_is_gone<E>(pre: Reactor<W>, post: Reactor<W>, fd: i32)
        requires
            pre.wf(),
            released(pre, post, fd),
        ensures
            post.registration(fd) == (Registration::<W> {
                subscription: None,
                reader: None,
                writer: None,
            }),
            forall|other: i32| #[trigger]
                post.subscriptions().contains_key(other) ==> post.subscriptions()[other].fd != fd
                    && post.subscriptions()[other].userdata != token_of(fd),
            dispatch(post.slots(), seq![ready::<E>(token_of(fd), Interest::Read)]).woken.len() == 0,
            dispatch(post.slots(), seq![ready::<E>(token_of(fd), Interest::Write)]).woken.len()
                == 0,
            dispatch(post.slots(), seq![ready::<E>(token_of(fd), Interest::Read)]).result == Err::<
                (),
                RuntimeError<E>,
            >(RuntimeError::NoWaker),
            dispatch(post.slots(), seq![ready::<E>(token_of(fd), Interest::Write)]).result == Err::<
                (),
                RuntimeError<E>,
            >(RuntimeError::NoWaker),
    {
        assert forall|other: i32| #[trigger]
            post.subscriptions().contains_key(other) implies post.subscriptions()[other].fd != fd
            && post.subscriptions()[other].userdata != token_of(fd) by {
            post.lemma_subscriptions(other);
            token_injective(other, fd);
        }
    }

    /// Registering, parking or dropping one descriptor leaves what the
    /// reactor holds of every other descriptor as it was.
    pub proof fn lemma_isolated(pre: Reactor<W>, post: Reactor<W>, fd: i32, other: i32)
        requires
            other != fd,
            registered(pre, post, fd) || released(pre, post, fd) || exists|
                interest: Interest,
                waker: W,
            | #[trigger] parked(pre, post, fd, interest, waker),
        ensures
            post.registration(other) == pre.registration(other),
    {
        token_injective(other, fd);
    }
}

/// The event that `token` is ready in the direction `Read` or `Write`.
pub open spec fn ready<E>(token: u64, interest: Interest) -> Event<E> {
    Event {
        event_type: if interest == Interest::Write {
            EventType::Write
        } else {
            EventType::Read
        },
        userdata: token,
    }
}

/// Of two wakers stored one after the other for one token and direction,
/// only the later one is kept, and it is the one that the next event of
/// that token and direction hands out.
pub proof fn lemma_latest_waker_wins<W, E>(
    slots: Slots<W>,
    token: u64,
    interest: Interest,
    first: W,
    second: W,
)
    requires
        interest != Interest::All,
    ensures
        slots.store(token, interest, first).store(token, interest, second) == slots.store(
            token,
            interest,
            second,
        ),
        dispatch(
            slots.store(token, interest, first).store(token, interest, second),
            seq![ready::<E>(token, interest)],
        ).woken == seq![second],
        dispatch(
            slots.store(token, interest, first).store(token, interest, second),
            seq![ready::<E>(token, interest)],
        ).result == Ok::<(), RuntimeError<E>>(()),
{
    let twice = slots.store(token, interest, first).store(token, interest, second);
    let once = slots.store(token, interest, second);
    assert(twice.read =~= once.read);
    assert(twice.write =~= once.write);
    lemma_wake_consumes::<W, E>(once, token, interest);
}

/// An event takes its waker out of the slot: the waker is handed out
/// once, the slot is empty afterwards, and a second event of the same
/// token and direction with no new registration between them is a fault.
pub proof fn lemma_wake_consumes<W, E>(slots: Slots<W>, token: u64, interest: Interest)
    requires
        interest != Interest::All,
        interest == Interest::Read ==> slots.read.contains_key(token),
        interest == Interest::Write ==> slots.write.contains_key(token),
    ensures
        dispatch(slots, seq![ready::<E>(token, interest)]).result == Ok::<(), RuntimeError<E>>(()),
        dispatch(slots, seq![ready::<E>(token, interest)]).woken == seq![
            if interest == Interest::Read {
                slots.read[token]
            } else {
                slots.write[token]
            },
        ],
        dispatch(slots, seq![ready::<E>(token, interest)]).slots == (Slots {
            read: if interest == Interest::Read {
                slots.read.remove(token)
            } else {
                slots.read
            },
            write: if interest == Interest::Write {
                slots.write.remove(token)
            } else {
                slots.write
            },
        }),
        dispatch(slots, seq![ready::<E>(token, interest), ready::<E>(token, interest)]).result
            == Err::<(), RuntimeError<E>>(RuntimeError::NoWaker),
        dispatch(slots, seq![ready::<E>(token, interest), ready::<E>(token, interest)]).woken
            == dispatch(slots, seq![ready::<E>(token, interest)]).woken,
{
    let ev = ready::<E>(token, interest);
    let one = seq![ev];
    let two = seq![ev, ev];
    assert(one.drop_first() =~= Seq::<Event<E>>::empty());
    assert(two.drop_first() =~= one);
    let left = Slots {
        read: if interest == Interest::Read {
            slots.read.remove(token)
        } else {
            slots.read
        },
        write: if interest == Interest::Write {
            slots.write.remove(token)
        } else {
            slots.write
        },
    };
    let w = if interest == Interest::Read {
        slots.read[token]
    } else {
        slots.write[token]
    };
    assert(dispatch(left, Seq::<Event<E>>::empty()).woken =~= Seq::<W>::empty());
    reveal_with_fuel(dispatch, 3);
    assert(dispatch(slots, one).woken =~= seq![w]);
    assert(dispatch(left, one).woken =~= Seq::<W>::empty());
    assert(dispatch(slots, two).woken =~= seq![w]);
}

impl<W> Slots<W> {
    /// The waker in the slot that `event` names, if the event is a read or
    /// a write event and that slot is filled.
    pub open spec fn waker_of<E>(self, event: Event<E>) -> Option<W> {
        match event.event_type {
            EventType::Read if self.read.contains_key(event.userdata) => Some(
                self.read[event.userdata],
            ),
            EventType::Write if self.write.contains_key(event.userdata) => Some(
                self.write[event.userdata],
            ),
            _ => None,
        }
    }
}

/// Whether two events name one slot: one token, and one direction.
pub open spec fn same_slot<E>(a: Event<E>, b: Event<E>) -> bool {
    a.userdata == b.userdata && ((a.event_type is Read && b.event_type is Read) || (
    a.event_type is Write && b.event_type is Write))
}

/// When every event names a filled slot and no two events name the same
/// one, the dispatch ends without a fault and hands out, for each event
/// in order, the waker that was stored in its slot; the slots that are
/// left are those that no event named.
pub proof fn lemma_dispatch_all_ready<W, E>(slots: Slots<W>, events: Seq<Event<E>>)
    requires
        forall|i: int| 0 <= i < events.len() ==> slots.waker_of(#[trigger] events[i]) is Some,
        forall|i: int, j: int|
            0 <= i < j < events.len() ==> !same_slot(#[trigger] events[i], #[trigger] events[j]),
    ensures
        dispatch(slots, events).result == Ok::<(), RuntimeError<E>>(()),
        dispatch(slots, events).woken.len() == events.len(),
        forall|i: int|
            0 <= i < events.len() ==> Some(#[trigger] dispatch(slots, events).woken[i])
                == slots.waker_of(events[i]),
        forall|t: u64| #[trigger]
            dispatch(slots, events).slots.read.contains_key(t) <==> slots.read.contains_key(t)
                && !exists|i: int|
                0 <= i < events.len() && (#[trigger] events[i]).userdata == t
                    && events[i].event_type is Read,
        forall|t: u64| #[trigger]
            dispatch(slots, events).slots.write.contains_key(t) <==> slots.write.contains_key(t)
                && !exists|i: int|
                0 <= i < events.len() && (#[trigger] events[i]).userdata == t
                    && events[i].event_type is Write,
    decreases events.len(),
{
    if events.len() > 0 {
        let t0 = events[0].userdata;
        let rest = events.drop_first();
        assert(slots.waker_of(events[0]) is Some);
        let left = if events[0].event_type is Read {
            Slots { read: slots.read.remove(t0), write: slots.write }
        } else {
            Slots { read: slots.read, write: slots.write.remove(t0) }
        };
        assert forall|i: int| 0 <= i < rest.len() implies left.waker_of(#[trigger] rest[i])
            == slots.waker_of(events[i + 1]) && left.waker_of(rest[i]) is Some by {
            assert(rest[i] == events[i + 1]);
            assert(slots.waker_of(events[i + 1]) is Some);
            assert(!same_slot(events[0], events[i + 1]));
        }
        assert forall|i: int, j: int| 0 <= i < j < rest.len() implies !same_slot(
            #[trigger] rest[i],
            #[trigger] rest[j],
        ) by {
            assert(rest[i] == events[i + 1]);
            assert(rest[j] == events[j + 1]);
        }
        lemma_dispatch_all_ready(left, rest);
        let d = dispatch(slots, events);
        let r = dispatch(left, rest);
        assert(d.slots == r.slots);
        assert(d.woken =~= seq![slots.waker_of(events[0])->0] + r.woken);
        assert forall|i: int| 0 <= i < events.len() implies Some(#[trigger] d.woken[i])
            == slots.waker_of(events[i]) by {
            if i > 0 {
                assert(d.woken[i] == r.woken[i - 1]);
                assert(rest[i - 1] == events[i]);
            }
        }
        assert forall|t: u64| #[trigger]
            d.slots.read.contains_key(t) <==> slots.read.contains_key(t) && !exists|i: int|
                0 <= i < events.len() && (#[trigger] events[i]).userdata == t
                    && events[i].event_type is Read by {
            if exists|i: int|
                0 <= i < rest.len() && (#[trigger] rest[i]).userdata == t
                    && rest[i].event_type is Read {
                let i = choose|i: int|
                    0 <= i < rest.len() && (#[trigger] rest[i]).userdata == t
                        && rest[i].event_type is Read;
                assert(events[i + 1] == rest[i]);
            }
            if exists|i: int|
                0 <= i < events.len() && (#[trigger] events[i]).userdata == t
                    && events[i].event_type is Read {
                let i = choose|i: int|
                    0 <= i < events.len() && (#[trigger] events[i]).userdata == t
                        && events[i].event_type is Read;
                if i > 0 {
                    assert(rest[i - 1] == events[i]);
                }
            }
        }
        assert forall|t: u64| #[trigger]
            d.slots.write.contains_key(t) <==> slots.write.contains_key(t) && !exists|i: int|
                0 <= i < events.len() && (#[trigger] events[i]).userdata == t
                    && events[i].event_type is Write by {
            if exists|i: int|
                0 <= i < rest.len() && (#[trigger] rest[i]).userdata == t
                    && rest[i].event_type is Write {
                let i = choose|i: int|
                    0 <= i < rest.len() && (#[trigger] rest[i]).userdata == t
                        && rest[i].event_type is Write;
                assert(events[i + 1] == rest[i]);
            }
            if exists|i: int|
                0 <= i < events.len() && (#[trigger] events[i]).userdata == t
                    && events[i].event_type is Write {
                let i = choose|i: int|
                    0 <= i < events.len() && (#[trigger] events[i]).userdata == t
                        && events[i].event_type is Write;
                if i > 0 {
                    assert(rest[i - 1] == events[i]);
                }
            }
        }
    }
}

/// A dispatch touches only the slots that its events name: the wakers
/// stored for a token that no event carries are as before.
pub proof fn lemma_dispatch_frame<W, E>(slots: Slots<W>, events: Seq<Event<E>>, token: u64)
    requires
        forall|i: int| 0 <= i < events.len() ==> (#[trigger] events[i]).userdata != token,
    ensures
        dispatch(slots, events).slots.read.contains_key(token) == slots.read.contains_key(token),
        dispatch(slots, events).slots.write.contains_key(token) == slots.write.contains_key(token),
        slots.read.contains_key(token) ==> dispatch(slots, events).slots.read[token]
            == slots.read[token],
        slots.write.contains_key(token) ==> dispatch(slots, events).slots.write[token]
            == slots.write[token],
    decreases events.len(),
{
    if events.len() > 0 {
        let t = events[0].userdata;
        let rest = events.drop_first();
        assert forall|i: int| 0 <= i < rest.len() implies (#[trigger] rest[i]).userdata
            != token by {
            assert(rest[i] == events[i + 1]);
        }
        match events[0].event_type {
            EventType::Read => {
                if slots.read.contains_key(t) {
                    lemma_dispatch_frame(
                        Slots { read: slots.read.remove(t), write: slots.write },
                        rest,
                        token,
                    );
                }
            },
            EventType::Write => {
                if slots.write.contains_key(t) {
                    lemma_dispatch_frame(
                        Slots { read: slots.read, write: slots.write.remove(t) },
                        rest,
                        token,
                    );
                }
            },
            _ => {},
        }
    }
}

/// A dispatch hands out one waker for each event before its first fault,
/// and so one for each event exactly when it ends without a fault. It
/// stores nothing: a slot that is filled afterwards was filled before,
/// with the same waker.
pub proof fn lemma_dispatch_takes<W, E>(slots: Slots<W>, events: Seq<Event<E>>)
    ensures
        dispatch(slots, events).woken.len() <= events.len(),
        dispatch(slots, events).result is Ok <==> dispatch(slots, events).woken.len()
            == events.len(),
        dispatch(slots, events).slots.read.submap_of(slots.read),
        dispatch(slots, events).slots.write.submap_of(slots.write),
    decreases events.len(),
{
    if events.len() > 0 {
        let t = events[0].userdata;
        let rest = events.drop_first();
        match events[0].event_type {
            EventType::Read => {
                if slots.read.contains_key(t) {
                    let left = Slots { read: slots.read.remove(t), write: slots.write };
                    lemma_dispatch_takes(left, rest);
                    assert(dispatch(left, rest).slots.read.submap_of(left.read));
                    assert(left.read.submap_of(slots.read));
                    assert(dispatch(slots, events).slots == dispatch(left, rest).slots);
                    assert forall|k: u64| #[trigger]
                        dispatch(left, rest).slots.read.dom().contains(k) implies slots.read.dom().contains(
                        k,
                    ) && dispatch(left, rest).slots.read[k] == slots.read[k] by {
                        assert(left.read.dom().contains(k));
                    }
                }
            },
            EventType::Write => {
                if slots.write.contains_key(t) {
                    let left = Slots { read: slots.read, write: slots.write.remove(t) };
                    lemma_dispatch_takes(left, rest);
                    assert(dispatch(left, rest).slots.write.submap_of(left.write));
                    assert(left.write.submap_of(slots.write));
                    assert(dispatch(slots, events).slots == dispatch(left, rest).slots);
                    assert forall|k: u64| #[trigger]
                        dispatch(left, rest).slots.write.dom().contains(k) implies slots.write.dom().contains(
                        k,
                    ) && dispatch(left, rest).slots.write[k] == slots.write[k] by {
                        assert(left.write.dom().contains(k));
                    }
                }
            },
            _ => {},
        }
    }
}

} // verus!
