//! Directions of readiness and the correlation token of a descriptor.

use vstd::prelude::*;

verus! {

/// The directions in which a descriptor's readiness is asked for.
#[derive(Clone, Copy, Debug, PartialEq, Eq, Structural)]
pub enum Interest {
    /// Readiness for reading only.
    Read,
    /// Readiness for writing only.
    Write,
    /// Readiness for reading and for writing.
    All,
}

impl Interest {
    /// Whether read readiness is part of this interest.
    pub open spec fn wants_read(self) -> bool {
        self != Interest::Write
    }

    /// Whether write readiness is part of this interest.
    pub open spec fn wants_write(self) -> bool {
        self != Interest::Read
    }

    /// Tells whether read readiness is asked for.
    pub fn is_readable(&self) -> (r: bool)
        ensures
            r == self.wants_read(),
    {
        match self {
            Interest::Read => true,
            Interest::Write => false,
            Interest::All => true,
        }
    }

    /// Tells whether write readiness is asked for.
    pub fn is_writable(&self) -> (r: bool)
        ensures
            r == self.wants_write(),
    {
        match self {
            Interest::Read => false,
            Interest::Write => true,
            Interest::All => true,
        }
    }
}

/// The token under which descriptor `fd` is known to the readiness source:
/// the descriptor widened to 64 bits with its sign kept, as a two's
/// complement number.
pub open spec fn token_of(fd: i32) -> u64 {
    if fd >= 0 {
        fd as u64
    } else {
        (0x1_0000_0000_0000_0000 + fd) as u64
    }
}

/// Computes the token of a descriptor.
pub fn token(fd: i32) -> (t: u64)
    ensures
        t == token_of(fd),
{
    if fd >= 0 {
        fd as u64
    } else {
        let below: u64 = (-(fd + 1)) as u64;
        u64::MAX - below
    }
}

/// Distinct descriptors have distinct tokens.
pub proof fn token_injective(a: i32, b: i32)
    ensures
        token_of(a) == token_of(b) <==> a == b,
{
}

} // verus!
