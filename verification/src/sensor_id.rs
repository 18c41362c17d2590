//! A virtual representation of a sensor, identified by name.

use vstd::prelude::*;

verus! {

/// The identifier of one sensor of a device or of its neighbourhood.
#[derive(Debug)]
pub struct SensorId {
    pub name: String,
}

impl View for SensorId {
    type V = Seq<char>;

    open spec fn view(&self) -> Seq<char> {
        self.name@
    }
}

/// A sensor id with the given name.
pub fn sensor(name: &str) -> (r: SensorId)
    ensures
        r@ == name@,
{
    SensorId::new(name.to_owned())
}

impl SensorId {
    /// A sensor id with the given name.
    pub fn new(name: String) -> (r: Self)
        ensures
            r@ == name@,
    {
        SensorId { name }
    }

    /// Whether two sensor ids name the same sensor.
    pub fn matches(&self, other: &SensorId) -> (r: bool)
        ensures
            r == (self@ == other@),
    {
        self.name == other.name
    }
}

impl Clone for SensorId {
    /// A clone names the same sensor.
    fn clone(&self) -> (res: Self)
        ensures
            res@ == self@,
    {
        SensorId { name: self.name.clone() }
    }
}

impl PartialEq for SensorId {
    fn eq(&self, other: &Self) -> (r: bool) {
        self.name == other.name
    }
}

impl vstd::std_specs::cmp::PartialEqSpecImpl for SensorId {
    open spec fn obeys_eq_spec() -> bool {
        true
    }

    open spec fn eq_spec(&self, other: &Self) -> bool {
        self@ == other@
    }
}

impl Eq for SensorId {

}

} // verus!
