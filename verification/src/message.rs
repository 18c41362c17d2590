//! The message a device publishes after a round: its id, its export, and
//! the moment of publication (milliseconds of the sender's clock).

use crate::export::Export;
use vstd::prelude::*;

verus! {

/// One message sent between devices.
#[derive(Debug, PartialEq)]
pub struct Message {
    pub source: i32,
    pub export: Export,
    pub timestamp: u64,
}

impl Message {
    /// A message from `source` carrying `p1`, published at `sys_t`.
    pub fn new(source: i32, p1: Export, sys_t: u64) -> (r: Self)
        ensures
            r.source == source,
            r.export == p1,
            r.timestamp == sys_t,
    {
        Message { source, export: p1, timestamp: sys_t }
    }
}

impl Clone for Message {
    /// A clone carries the same source, timestamp, and an export that reads
    /// the same at every path.
    fn clone(&self) -> (res: Self)
        ensures
            res.source == self.source,
            res.export@ == self.export@,
            res.timestamp == self.timestamp,
    {
        Message { source: self.source, export: self.export.clone(), timestamp: self.timestamp }
    }
}

} // verus!
