//! A verified model of a minimal cooperative asynchronous runtime.
//!
//! The runtime lives inside a sandboxed guest and is driven by an external
//! host through a single `poll` entry point.  It offers task spawning, a
//! timer-based sleep, an explicit cooperative yield, a join bridge for
//! observing task results, and a message-channel subsystem whose inbound
//! buffers are filled by a host-invoked notify entry point.
//!
//! Everything the scheduler decides — which task runs next, which timers
//! fire and in what order, what wait hint the host is given — is ordinary
//! data-structure logic over plain values, and is verified here.  The
//! pieces the real system gets from its surroundings (the clock, the
//! host's foreign-function imports, the module loader) appear as explicit
//! inputs: time is a microsecond count passed into `poll`, and host
//! round-trips are functions over an explicit host-side state.

use vstd::prelude::*;

pub mod assoc;
pub mod errno;
pub mod host;
pub mod ipc;
pub mod runtime;
pub mod stamp;
pub mod table;
pub mod task;
pub mod time;
pub mod timer;
pub mod yielding;

verus! {

/// Wait hint meaning "no pending work at all: the host may block
/// indefinitely until an out-of-band wake arrives".
pub const IDLE_WAIT_HINT: u64 = u64::MAX;

} // verus!
