//! Hubs: eight-port repeaters.
use crate::medium::{fresh, Medium, PipeState};
use crate::nic::{disconnected, link_in, receiving, recieve_effect, transmit_effect, NicState, NIC};
use crate::random::choose_one;
use vstd::prelude::*;

verus! {

/// Number of ports of a hub.
pub const HUB_PORTS: usize = 8;

/// The index of a port of a device.
#[derive(Clone, Copy, Debug, PartialEq, Eq, Structural)]
pub struct PortNumber(pub u8);

impl PortNumber {
    /// The index as a `usize`.
    pub fn index(self) -> (r: usize)
        ensures
            r == self.0 as usize,
    {
        self.0 as usize
    }
}

impl From<usize> for PortNumber {
    /// The port with index `index`, kept to its low eight bits.
    fn from(index: usize) -> (r: PortNumber) {
        PortNumber(#[verifier::truncate] (index as u8))
    }
}

impl vstd::std_specs::convert::FromSpecImpl<usize> for PortNumber {
    open spec fn obeys_from_spec() -> bool {
        true
    }

    open spec fn from_spec(index: usize) -> PortNumber {
        PortNumber(index as u8)
    }
}

/// An eight-port repeater without an address of its own.
#[derive(Debug)]
pub struct Hub {
    interfaces: Vec<NIC>,
}

/// The ports and pipes after every port among the first `n`, but `source`,
/// sends `byte`, in port order.
pub open spec fn send_all_but(
    ports: Seq<NicState>,
    ms: Seq<PipeState>,
    source: usize,
    byte: u8,
    n: nat,
) -> (Seq<NicState>, Seq<PipeState>)
    decreases n,
{
    if n == 0 {
        (ports, ms)
    } else {
        let (ps, ms1) = send_all_but(ports, ms, source, byte, (n - 1) as nat);
        if n - 1 != source as int {
            let (s, ms2) = transmit_effect(ps[n - 1], ms1, byte);
            (ps.update(n - 1, s), ms2)
        } else {
            (ps, ms1)
        }
    }
}

/// A hub's ports and the pipes after port `source` takes one byte, if one
/// waits, and every other port repeats it.
pub open spec fn repeat_from(ports: Seq<NicState>, ms: Seq<PipeState>, source: usize) -> (
    Seq<NicState>,
    Seq<PipeState>,
) {
    let (r, s, ms1) = recieve_effect(ports[source as int], ms);
    match r {
        Some(b) => send_all_but(ports.update(source as int, s), ms1, source, b, HUB_PORTS as nat),
        None => (ports.update(source as int, s), ms1),
    }
}

/// Whether `(ports2, ms2)` is what one tick of a hub can leave: nothing
/// changes where no port senses a carrier; else one port that senses one
/// has its byte repeated.
pub open spec fn hub_ticked(
    ports: Seq<NicState>,
    ms: Seq<PipeState>,
    ports2: Seq<NicState>,
    ms2: Seq<PipeState>,
) -> bool {
    if forall|i: int| 0 <= i < HUB_PORTS ==> !receiving(#[trigger] ports[i], ms) {
        ports2 == ports && ms2 == ms
    } else {
        exists|p: usize|
            p < HUB_PORTS && receiving(#[trigger] ports[p as int], ms) && (ports2, ms2)
                == repeat_from(ports, ms, p)
    }
}

/// The ports and pipes after each of the first `n` ports drops its link end.
pub open spec fn disconnect_all(ports: Seq<NicState>, ms: Seq<PipeState>, n: nat) -> (
    Seq<NicState>,
    Seq<PipeState>,
)
    decreases n,
{
    if n == 0 {
        (ports, ms)
    } else {
        let (ps, ms1) = disconnect_all(ports, ms, (n - 1) as nat);
        let (s, ms2) = disconnected(ps[n - 1], ms1);
        (ps.update(n - 1, s), ms2)
    }
}

/// Whether every port of `ports` names pipes among `n`.
pub open spec fn ports_in(ports: Seq<NicState>, n: nat) -> bool {
    forall|i: int| 0 <= i < ports.len() ==> link_in(#[trigger] ports[i], n)
}

/// The lowest port without a link, if any.
pub open spec fn first_free(ports: Seq<NicState>) -> Option<usize> {
    if exists|i: int| 0 <= i < ports.len() && (#[trigger] ports[i]).link is None {
        let i = choose|i: int|
            0 <= i < ports.len() && (#[trigger] ports[i]).link is None && forall|j: int|
                0 <= j < i ==> (#[trigger] ports[j]).link is Some;
        Some(i as usize)
    } else {
        None
    }
}

/// The lowest free port is `i`.
pub proof fn lemma_first_free(ports: Seq<NicState>, i: int)
    requires
        0 <= i < ports.len(),
        ports[i].link is None,
        forall|j: int| 0 <= j < i ==> (#[trigger] ports[j]).link is Some,
    ensures
        first_free(ports) == Some(i as usize),
{
    let k = choose|k: int|
        0 <= k < ports.len() && (#[trigger] ports[k]).link is None && forall|j: int|
            0 <= j < k ==> (#[trigger] ports[j]).link is Some;
    if k < i {
        assert(ports[k].link is Some);
    }
    if k > i {
        assert(ports[i].link is Some);
    }
}

impl View for Hub {
    type V = Seq<NicState>;

    closed spec fn view(&self) -> Seq<NicState> {
        Seq::new(self.interfaces@.len(), |i: int| self.interfaces@[i]@)
    }
}

impl Hub {
    /// Eight ports, each naming pipes of `medium`.
    pub open spec fn wf_in(&self, medium: &Medium) -> bool {
        self@.len() == HUB_PORTS && ports_in(self@, medium@.len())
    }

    /// A hub whose eight ports are free.
    pub fn new() -> (r: Hub)
        ensures
            r@.len() == HUB_PORTS,
            forall|i: int| 0 <= i < HUB_PORTS ==> (#[trigger] r@[i]).link is None && !r@[i].transmitting,
    {
        let mut interfaces: Vec<NIC> = Vec::new();
        let mut i: usize = 0;
        while i < HUB_PORTS
            invariant
                i <= HUB_PORTS,
                interfaces@.len() == i,
                forall|j: int| 0 <= j < i ==> (#[trigger] interfaces@[j])@.link is None && !interfaces@[j]@.transmitting,
            decreases HUB_PORTS - i,
        {
            interfaces.push(NIC::default());
            i += 1;
        }
        Hub { interfaces }
    }

    /// The NIC of port `i`.
    pub fn interface(&self, i: usize) -> (r: &NIC)
        requires
            i < self@.len(),
        ensures
            r@ == self@[i as int],
    {
        &self.interfaces[i]
    }

    /// The lowest port that is not connected, if any.
    pub fn available_interface(&self) -> (r: Option<usize>)
        ensures
            r == first_free(self@),
    {
        let mut i: usize = 0;
        while i < self.interfaces.len()
            invariant
                i <= self@.len(),
                self@.len() == self.interfaces@.len(),
                forall|j: int| 0 <= j < i ==> (#[trigger] self@[j]).link is Some,
            decreases self.interfaces.len() - i,
        {
            if !self.interfaces[i].is_connected() {
                proof {
                    let k = choose|k: int|
                        0 <= k < self@.len() && (#[trigger] self@[k]).link is None && forall|j: int|
                            0 <= j < k ==> (#[trigger] self@[j]).link is Some;
                    assert(self@[i as int].link is None);
                    if k < i {
                        assert(self@[k].link is Some);
                    }
                    if k > i {
                        assert(self@[i as int].link is Some);
                    }
                }
                return Some(i);
            }
            i += 1;
        }
        None
    }

    /// Joins the lowest free port and `other` by a fresh connection. Where no
    /// port is free or `other` is connected, nothing changes and `false` is returned.
    pub fn connect(&mut self, medium: &mut Medium, other: &mut NIC) -> (r: bool)
        requires
            old(medium).wf(),
            old(self).wf_in(old(medium)),
            old(other).wf_in(old(medium)),
            old(medium)@.len() + 2 <= usize::MAX,
        ensures
            final(medium).wf(),
            final(self).wf_in(final(medium)),
            final(other).wf_in(final(medium)),
            r == (first_free(old(self)@) is Some && old(other)@.link is None),
            !r ==> final(self)@ == old(self)@ && final(other)@ == old(other)@ && final(medium)@
                == old(medium)@,
            r ==> ({
                let n = old(medium)@.len() as int;
                let i = first_free(old(self)@).unwrap() as int;
                &&& final(self)@ == old(self)@.update(i, NicState { link: Some((n as usize, (n + 1) as usize)), ..old(self)@[i] })
                &&& final(other)@ == (NicState { link: Some(((n + 1) as usize, n as usize)), ..old(other)@ })
                &&& final(medium)@.len() == n + 2
                &&& final(medium)@.subrange(0, n) == old(medium)@
                &&& fresh(final(medium)@[n])
                &&& fresh(final(medium)@[n + 1])
            }),
    {
        match self.available_interface() {
            Some(i) => {
                let ok = self.interfaces[i].connect(medium, other);
                proof {
                    assert(self@ =~= old(self)@.update(i as int, self.interfaces@[i as int]@));
                    assert forall|j: int| 0 <= j < self@.len() implies link_in(#[trigger] self@[j], medium@.len()) by {
                        if j != i {
                            assert(link_in(old(self)@[j], old(medium)@.len()));
                        }
                    }
                }
                ok
            },
            None => false,
        }
    }

    /// Joins the lowest free port of this hub and of `other` by a fresh
    /// connection. Where either has no free port, nothing changes and `false`
    /// is returned.
    pub fn connect_hub(&mut self, medium: &mut Medium, other: &mut Hub) -> (r: bool)
        requires
            old(medium).wf(),
            old(self).wf_in(old(medium)),
            old(other).wf_in(old(medium)),
            old(medium)@.len() + 2 <= usize::MAX,
        ensures
            final(medium).wf(),
            final(self).wf_in(final(medium)),
            final(other).wf_in(final(medium)),
            r == (first_free(old(self)@) is Some && first_free(old(other)@) is Some),
            !r ==> final(self)@ == old(self)@ && final(other)@ == old(other)@ && final(medium)@
                == old(medium)@,
            r ==> ({
                let n = old(medium)@.len() as int;
                let i = first_free(old(self)@).unwrap() as int;
                let j = first_free(old(other)@).unwrap() as int;
                &&& final(self)@ == old(self)@.update(i, NicState { link: Some((n as usize, (n + 1) as usize)), ..old(self)@[i] })
                &&& final(other)@ == old(other)@.update(j, NicState { link: Some(((n + 1) as usize, n as usize)), ..old(other)@[j] })
                &&& final(medium)@.len() == n + 2
                &&& final(medium)@.subrange(0, n) == old(medium)@
                &&& fresh(final(medium)@[n])
                &&& fresh(final(medium)@[n + 1])
            }),
    {
        match other.available_interface() {
            Some(j) => {
                let ghost o0 = other@;
                let ok = self.connect(medium, &mut other.interfaces[j]);
                proof {
                    assert(other@ =~= o0.update(j as int, other.interfaces@[j as int]@));
                    assert forall|k: int| 0 <= k < other@.len() implies link_in(#[trigger] other@[k], medium@.len()) by {
                        if k != j {
                            assert(link_in(o0[k], old(medium)@.len()));
                        }
                    }
                    if !ok {
                        assert(other@ =~= o0);
                    }
                }
                ok
            },
            None => false,
        }
    }

    /// Drops the link end of every port.
    pub fn disconnect(&mut self, medium: &mut Medium)
        requires
            old(medium).wf(),
            old(self).wf_in(old(medium)),
        ensures
            final(medium).wf(),
            final(self).wf_in(final(medium)),
            forall|i: int| 0 <= i < HUB_PORTS ==> (#[trigger] final(self)@[i]).link is None,
            (final(self)@, final(medium)@) == disconnect_all(old(self)@, old(medium)@, HUB_PORTS as nat),
    {
        let mut i: usize = 0;
        while i < HUB_PORTS
            invariant
                i <= HUB_PORTS,
                medium.wf(),
                self.wf_in(medium),
                medium@.len() == old(medium)@.len(),
                forall|j: int| 0 <= j < i ==> (#[trigger] self@[j]).link is None,
                disconnect_all(old(self)@, old(medium)@, i as nat) == (self@, medium@),
                old(self)@.len() == HUB_PORTS,
            decreases HUB_PORTS - i,
        {
            let ghost before = self@;
            proof {
                assert(link_in(self@[i as int], medium@.len()));
            }
            self.interfaces[i].disconnect(medium);
            proof {
                assert(self@ =~= before.update(i as int, self.interfaces@[i as int]@));
                assert forall|j: int| 0 <= j < self@.len() implies link_in(#[trigger] self@[j], medium@.len()) by {
                    if j != i {
                        assert(link_in(before[j], medium@.len()));
                    }
                }
            }
            i += 1;
        }
    }

    /// Takes one byte from port `source`, if one waits, and sends it on
    /// every other port.
    pub fn repeat_from(&mut self, medium: &mut Medium, source: usize)
        requires
            old(medium).wf(),
            old(self).wf_in(old(medium)),
            source < HUB_PORTS,
        ensures
            final(medium).wf(),
            final(self).wf_in(final(medium)),
            final(medium)@.len() == old(medium)@.len(),
            (final(self)@, final(medium)@) == repeat_from(old(self)@, old(medium)@, source),
    {
        proof {
            assert(link_in(self@[source as int], medium@.len()));
        }
        let got = self.interfaces[source].recieve(medium);
        proof {
            assert(self@ =~= old(self)@.update(source as int, self.interfaces@[source as int]@));
            assert forall|j: int| 0 <= j < self@.len() implies link_in(#[trigger] self@[j], medium@.len()) by {
                if j != source {
                    assert(link_in(old(self)@[j], old(medium)@.len()));
                }
            }
        }
        match got {
            Some(b) => {
                let ghost ports1 = self@;
                let ghost m1 = medium@;
                let mut i: usize = 0;
                while i < HUB_PORTS
                    invariant
                        i <= HUB_PORTS,
                        source < HUB_PORTS,
                        medium.wf(),
                        self.wf_in(medium),
                        medium@.len() == old(medium)@.len(),
                        ports1.len() == HUB_PORTS,
                        send_all_but(ports1, m1, source, b, i as nat) == (self@, medium@),
                    decreases HUB_PORTS - i,
                {
                    if i != source {
                        let ghost before = self@;
                        proof {
                            assert(link_in(self@[i as int], medium@.len()));
                        }
                        self.interfaces[i].transmit(medium, b);
                        proof {
                            assert(self@ =~= before.update(i as int, self.interfaces@[i as int]@));
                            assert forall|j: int| 0 <= j < self@.len() implies link_in(#[trigger] self@[j], medium@.len()) by {
                                if j != i {
                                    assert(link_in(before[j], medium@.len()));
                                }
                            }
                        }
                    }
                    i += 1;
                }
            },
            None => {},
        }
    }

    /// One tick: when any port senses a carrier, one of them, drawn at
    /// random, has its next byte repeated on every other port.
    pub fn tick(&mut self, medium: &mut Medium)
        requires
            old(medium).wf(),
            old(self).wf_in(old(medium)),
        ensures
            final(medium).wf(),
            final(self).wf_in(final(medium)),
            final(medium)@.len() == old(medium)@.len(),
            hub_ticked(old(self)@, old(medium)@, final(self)@, final(medium)@),
    {
        let mut candidates: Vec<usize> = Vec::new();
        let mut i: usize = 0;
        while i < HUB_PORTS
            invariant
                i <= HUB_PORTS,
                self.wf_in(medium),
                self.interfaces@.len() == HUB_PORTS,
                forall|k: int| 0 <= k < candidates@.len() ==> (#[trigger] candidates@[k]) < HUB_PORTS && receiving(self@[candidates@[k] as int], medium@),
                forall|j: int| 0 <= j < i && receiving(#[trigger] self@[j], medium@) ==> candidates@.contains(j as usize),
            decreases HUB_PORTS - i,
        {
            proof {
                assert(link_in(self@[i as int], medium@.len()));
            }
            let ghost old_candidates = candidates@;
            if self.interfaces[i].is_receiving(medium) {
                candidates.push(i);
            }
            proof {
                assert forall|j: int| 0 <= j <= i && receiving(#[trigger] self@[j], medium@) implies candidates@.contains(j as usize) by {
                    if j < i {
                        let w = choose|w: int| 0 <= w < old_candidates.len() && old_candidates[w] == j as usize;
                        assert(candidates@[w] == j as usize);
                    } else {
                        assert(candidates@[candidates@.len() - 1] == i);
                    }
                }
            }
            i += 1;
        }
        match choose_one(&candidates) {
            Some(p) => {
                proof {
                    let w = choose|w: int| 0 <= w < candidates@.len() && candidates@[w] == p;
                    assert(receiving(old(self)@[p as int], old(medium)@));
                }
                self.repeat_from(medium, p);
            },
            None => {
                proof {
                    assert forall|j: int| 0 <= j < HUB_PORTS implies !receiving(#[trigger] old(self)@[j], old(medium)@) by {
                        if receiving(old(self)@[j], old(medium)@) {
                            assert(candidates@.contains(j as usize));
                        }
                    }
                }
            },
        }
    }
}

impl Default for Hub {
    fn default() -> (r: Hub)
        ensures
            r@.len() == HUB_PORTS,
            forall|i: int| 0 <= i < HUB_PORTS ==> (#[trigger] r@[i]).link is None,
    {
        Hub::new()
    }
}

} // verus!
