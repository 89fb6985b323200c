//! The simulation clock: components that advance one step per tick.
use crate::bus::Bus;
use crate::hub::Hub;
use crate::medium::Medium;
use crate::switch::Switch;
use vstd::prelude::*;

verus! {

/// A component that the driver advances one step at a time.
pub trait Simulateable {
    /// Whether the component is well formed over `medium`.
    spec fn ready(&self, medium: &Medium) -> bool;

    /// One unit of progress.
    fn tick(&mut self, medium: &mut Medium)
        requires
            old(medium).wf(),
            old(self).ready(old(medium)),
        ensures
            final(medium).wf(),
            final(self).ready(final(medium)),
            final(medium)@.len() == old(medium)@.len(),
    ;
}

impl Simulateable for Hub {
    open spec fn ready(&self, medium: &Medium) -> bool {
        self.wf_in(medium)
    }

    fn tick(&mut self, medium: &mut Medium) {
        Hub::tick(self, medium)
    }
}

impl Simulateable for Bus {
    open spec fn ready(&self, medium: &Medium) -> bool {
        self.wf_in(medium)
    }

    fn tick(&mut self, medium: &mut Medium) {
        Bus::tick(self, medium)
    }
}

impl Simulateable for Switch {
    open spec fn ready(&self, medium: &Medium) -> bool {
        self.wf_in(medium)
    }

    fn tick(&mut self, medium: &mut Medium) {
        Switch::tick(self, medium)
    }
}

} // verus!
