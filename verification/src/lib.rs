//! Core of a request/response correlation multiplexer for a single
//! bidirectional byte stream: id assignment, the table that matches each
//! inbound reply to the caller waiting for it, and the routing decisions
//! of the write and read loops. The asynchronous plumbing around it (the
//! stream, the codec, the submission queue, the spawned tasks) is not part
//! of this library.

use vstd::prelude::*;

pub mod laws;
mod session;

pub use session::take_result;
pub use session::SessionCore;
pub use session::SUBMISSION_QUEUE_CAPACITY;
