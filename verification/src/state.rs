//! The states of the devices in an aggregate computation: the latest export
//! known from each device, keyed by device id.

use crate::export::Export;
use crate::idmap::IdMap;
use vstd::prelude::*;

verus! {

/// The latest export known from each device.
pub type States = IdMap<Export>;

} // verus!
