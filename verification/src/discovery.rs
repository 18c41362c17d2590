//! How a device learns who its neighbours are, and how it prepares the
//! per-neighbour sensors for a round. Both are strategies a host supplies;
//! the runtime only consumes their results.

use crate::context::NbrSensors;
use vstd::prelude::*;

verus! {

/// A discovery strategy.
pub trait Discovery {
    /// The ids of the current neighbours.
    fn discover_neighbors(&self) -> Vec<i32>;
}

/// A strategy to set up the neighbouring sensors of the device.
pub trait NbrSensorSetup {
    /// The per-neighbour sensor values for the given neighbours.
    fn nbr_sensor_setup(&self, nbrs: Vec<i32>) -> NbrSensors;
}

} // verus!
