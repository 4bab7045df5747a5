//! The ordered event stream the delivery handler consumes.
//!
//! A connection handle travels as a plain identifier; the I/O layer that owns
//! the actual sessions maps identifiers back to connections.

use vstd::prelude::*;

verus! {

pub enum SyncToMainNodeEvent {
    Connected(u64),
    Disconnected(u64),
    PingToDeliver,
    Delivered(i64),
}

} // verus!
