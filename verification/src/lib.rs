//! Control plane for a multi-process reverse proxy: the administrative
//! command protocol, the length-framed control channels between the master
//! and its workers, the in-memory configuration state the master replays on
//! worker start, the worker registry, and the upgrade handoff bookkeeping.

use vstd::prelude::*;

pub mod data;
pub mod json;
pub mod codec;
pub mod state;
pub mod channel;
pub mod registry;
pub mod router;
pub mod spawn;
pub mod store;
pub mod upgrade;

verus! {

/// Wire protocol version carried by every admin request and answer.
pub const PROTOCOL_VERSION: u8 = 0;

} // verus!
