//! The table of subscriptions that is handed to the readiness source.

use crate::interest::{token, token_of, Interest};
use std::collections::HashMap;
use vstd::std_specs::iter::IteratorSpec;
use vstd::prelude::*;

verus! {

/// What the readiness source is asked to watch for one descriptor.
#[derive(Clone, Copy, Debug, PartialEq, Eq, Structural)]
pub struct Subscription {
    /// The token that comes back with each event of this subscription.
    pub userdata: u64,
    /// The descriptor to watch.
    pub fd: i32,
    /// Whether read readiness is to be reported.
    pub read_event: bool,
    /// Whether write readiness is to be reported.
    pub write_event: bool,
}

impl Subscription {
    /// The subscription of descriptor `fd` with the given interest.
    pub open spec fn of(fd: i32, interest: Interest) -> Subscription {
        Subscription {
            userdata: token_of(fd),
            fd,
            read_event: interest.wants_read(),
            write_event: interest.wants_write(),
        }
    }

    /// Builds the subscription of descriptor `fd` with the given interest.
    pub fn new(fd: i32, interest: Interest) -> (s: Subscription)
        ensures
            s == Subscription::of(fd, interest),
    {
        Subscription {
            userdata: token(fd),
            fd,
            read_event: interest.is_readable(),
            write_event: interest.is_writable(),
        }
    }
}

/// The subscriptions of all registered descriptors, one per descriptor.
pub struct Poller {
    subs: HashMap<i32, Subscription>,
}

impl View for Poller {
    type V = Map<i32, Subscription>;

    closed spec fn view(&self) -> Map<i32, Subscription> {
        self.subs@
    }
}

impl Poller {
    /// Every entry watches the descriptor it is filed under, in at least
    /// one direction, and carries that descriptor's token.
    pub closed spec fn wf(self) -> bool {
        self.subs@.dom().finite() && forall|fd: i32| #[trigger]
            self.subs@.contains_key(fd) ==> exists|interest: Interest|
                self.subs@[fd] == Subscription::of(fd, interest)
    }

    /// A well-formed table files each subscription under its own descriptor.
    pub proof fn lemma_entries(self, fd: i32)
        requires
            self.wf(),
            self@.contains_key(fd),
        ensures
            self@[fd].fd == fd,
            self@[fd].userdata == token_of(fd),
            self@[fd].read_event || self@[fd].write_event,
            self@.dom().finite(),
    {
        let interest = choose|interest: Interest| self.subs@[fd] == Subscription::of(fd, interest);
        assert(self.subs@[fd] == Subscription::of(fd, interest));
    }

    /// An empty table.
    pub fn new() -> (p: Poller)
        ensures
            p@ == Map::<i32, Subscription>::empty(),
            p.wf(),
    {
        Poller { subs: HashMap::new() }
    }

    /// Registers `fd` with interest in both directions, replacing what was
    /// registered for it before.
    pub fn add(&mut self, fd: i32)
        requires
            old(self).wf(),
        ensures
            final(self)@ == old(self)@.insert(fd, Subscription::of(fd, Interest::All)),
            final(self).wf(),
    {
        broadcast use vstd::std_specs::hash::group_hash_axioms;

        self.subs.insert(fd, Subscription::new(fd, Interest::All));
    }

    /// Forgets `fd`.
    pub fn delete(&mut self, fd: i32)
        requires
            old(self).wf(),
        ensures
            final(self)@ == old(self)@.remove(fd),
            final(self).wf(),
    {
        broadcast use vstd::std_specs::hash::group_hash_axioms;

        self.subs.remove(&fd);
    }

    /// Narrows or widens the interest of a registered descriptor; one that
    /// is not registered stays so.
    pub fn modify(&mut self, fd: i32, interest: Interest)
        requires
            old(self).wf(),
        ensures
            final(self)@ == if old(self)@.contains_key(fd) {
                old(self)@.insert(fd, Subscription::of(fd, interest))
            } else {
                old(self)@
            },
            final(self).wf(),
    {
        broadcast use vstd::std_specs::hash::group_hash_axioms;

        if self.subs.contains_key(&fd) {
            self.subs.insert(fd, Subscription::new(fd, interest));
        }
    }

    /// Whether `fd` is registered.
    pub fn contains(&self, fd: i32) -> (r: bool)
        ensures
            r == self@.contains_key(fd),
    {
        broadcast use vstd::std_specs::hash::group_hash_axioms;

        self.subs.contains_key(&fd)
    }

    /// The subscription of `fd`, if it is registered.
    pub fn get(&self, fd: i32) -> (r: Option<Subscription>)
        ensures
            r == if self@.contains_key(fd) {
                Some(self@[fd])
            } else {
                None
            },
    {
        broadcast use vstd::std_specs::hash::group_hash_axioms;

        match self.subs.get(&fd) {
            Some(s) => Some(*s),
            None => None,
        }
    }

    /// The subscriptions to hand to the readiness source: those of the
    /// registered descriptors, each once, in no particular order.
    pub fn subscriptions(&self) -> (v: Vec<Subscription>)
        requires
            self.wf(),
        ensures
            v@.to_set() == self@.values(),
            v@.len() == self@.len(),
    {
        broadcast use vstd::std_specs::hash::group_hash_axioms;

        let mut v: Vec<Subscription> = Vec::new();
        for s in it: self.subs.values()
            invariant
                v@.len() == it.index(),
                forall|j: int| 0 <= j < v@.len() ==> v@[j] == *it.seq()[j],
                it.seq() == self.subs.values().remaining(),
        {
            v.push(*s);
        }
        assert(v@ =~= self.subs.values().remaining().unref());
        v
    }

    /// The number of registered descriptors.
    pub fn len(&self) -> (n: usize)
        ensures
            n == self@.len(),
    {
        broadcast use vstd::std_specs::hash::group_hash_axioms;

        self.subs.len()
    }
}

} // verus!
