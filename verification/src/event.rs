//! The state the event layer carries.
//!
//! Whatever dispatches incoming events holds exactly one thing the library
//! defines: the logger every handler reports through.  The dispatch itself —
//! network sessions, command registration, replies — lives with the caller.

use crate::logger::Logger;
use vstd::prelude::*;

verus! {

/// The event layer's state: the logger its handlers report through.
pub struct Events {
    pub logger: Logger,
}

impl Events {
    /// An event layer reporting through `logger`.
    pub fn new(logger: Logger) -> (r: Self)
        ensures
            r.logger == logger,
    {
        Events { logger }
    }
}

} // verus!
