//! A minimal cooperative runtime core: a FIFO task queue, a readiness
//! reactor that correlates descriptors with wakers, and the run loop's
//! decisions, all stated over mathematical models and proved.

pub mod error;
pub mod executor;
pub mod interest;
pub mod io;
pub mod poller;
pub mod reactor;
pub mod task;
pub mod tcp;

pub use error::RuntimeError;
pub use executor::{spawn, Executor, Phase, RunAction, RunEvent, TaskPoll};
pub use interest::Interest;
pub use io::{AsyncRead, AsyncReadExt, AsyncWrite, AsyncWriteExt, Poll, ReadBuf};
pub use poller::Subscription;
pub use reactor::{Event, EventType, Reactor, Wakeup};
pub use task::{Task, TaskQueue};
pub use tcp::{Attempt, TcpListener, TcpStream};
