//! Buses: five hubs chained into one broadcast domain.
use crate::hub::{first_free, hub_ticked, lemma_first_free, ports_in, Hub, HUB_PORTS};
use crate::medium::{fresh, Medium, PipeState};
use crate::nic::{NicState, NIC};
use vstd::prelude::*;

verus! {

/// Number of hubs of a bus.
pub const N_JUNC: usize = 5;

/// Five hubs, each joined to the one before it.
#[derive(Debug)]
pub struct Bus {
    junctions: Vec<Hub>,
}

/// Whether two ports are the two ends of one connection.
pub open spec fn joined(a: NicState, b: NicState) -> bool {
    a.link matches Some((tx, rx)) && b.link == Some((rx, tx))
}

/// Whether ticking the first `n` hubs of `hubs`, in order, over pipes `ms`
/// can leave the hubs `hubs2` and pipes `ms2`.
pub open spec fn bus_ticked(
    hubs: Seq<Seq<NicState>>,
    ms: Seq<PipeState>,
    hubs2: Seq<Seq<NicState>>,
    ms2: Seq<PipeState>,
    n: nat,
) -> bool
    decreases n,
{
    if n == 0 {
        hubs2 == hubs && ms2 == ms
    } else {
        &&& n <= hubs.len()
        &&& hubs2.len() == hubs.len()
        &&& exists|mid: Seq<PipeState>|
            bus_ticked(hubs, ms, hubs2.update(n - 1, hubs[n - 1]), mid, (n - 1) as nat)
                && #[trigger] hub_ticked(hubs[n - 1], mid, hubs2[n - 1], ms2)
    }
}

/// A port number of a bus: the hub in the high bits, the port within it in the low 16.
pub open spec fn port_number(hub: nat, port: nat) -> nat {
    hub * 0x10000 + port
}

impl View for Bus {
    type V = Seq<Seq<NicState>>;

    closed spec fn view(&self) -> Seq<Seq<NicState>> {
        Seq::new(self.junctions@.len(), |i: int| self.junctions@[i]@)
    }
}

impl Bus {
    /// Five hubs of eight ports, each naming pipes of `medium`.
    pub open spec fn wf_in(&self, medium: &Medium) -> bool {
        &&& self@.len() == N_JUNC
        &&& forall|i: int|
            0 <= i < N_JUNC ==> (#[trigger] self@[i]).len() == HUB_PORTS && ports_in(
                self@[i],
                medium@.len(),
            )
    }

    /// Builds the five hubs and joins each to the one before it, through the
    /// lowest free port of each.
    pub fn new(medium: &mut Medium) -> (r: Bus)
        requires
            old(medium).wf(),
            old(medium)@.len() + 8 <= usize::MAX,
        ensures
            final(medium).wf(),
            r.wf_in(final(medium)),
            final(medium)@.len() == old(medium)@.len() + 8,
            joined(r@[1][0], r@[0][0]),
            joined(r@[2][0], r@[1][1]),
            joined(r@[3][0], r@[2][1]),
            joined(r@[4][0], r@[3][1]),
            forall|p: int| 1 <= p < HUB_PORTS ==> (#[trigger] r@[0][p]).link is None,
            forall|p: int| 2 <= p < HUB_PORTS ==> (#[trigger] r@[1][p]).link is None,
            forall|p: int| 2 <= p < HUB_PORTS ==> (#[trigger] r@[2][p]).link is None,
            forall|p: int| 2 <= p < HUB_PORTS ==> (#[trigger] r@[3][p]).link is None,
            forall|p: int| 1 <= p < HUB_PORTS ==> (#[trigger] r@[4][p]).link is None,
    {
        let mut h0 = Hub::new();
        let mut h1 = Hub::new();
        let mut h2 = Hub::new();
        let mut h3 = Hub::new();
        let mut h4 = Hub::new();
        proof {
            lemma_first_free(h0@, 0);
            lemma_first_free(h1@, 0);
            lemma_first_free(h2@, 0);
            lemma_first_free(h3@, 0);
            lemma_first_free(h4@, 0);
        }
        h1.connect_hub(medium, &mut h0);
        proof {
            lemma_first_free(h1@, 1);
        }
        h2.connect_hub(medium, &mut h1);
        proof {
            lemma_first_free(h2@, 1);
        }
        h3.connect_hub(medium, &mut h2);
        proof {
            lemma_first_free(h3@, 1);
        }
        h4.connect_hub(medium, &mut h3);
        let junctions = vec![h0, h1, h2, h3, h4];
        let r = Bus { junctions };
        proof {
            assert(r@[0] == h0@);
            assert(r@[1] == h1@);
            assert(r@[2] == h2@);
            assert(r@[3] == h3@);
            assert(r@[4] == h4@);
        }
        r
    }

    /// The hub and the port within it of a bus port number.
    pub fn index(number: usize) -> (r: (usize, usize))
        ensures
            number as nat == port_number(r.0 as nat, r.1 as nat),
            r.1 < 0x10000,
    {
        let r = (number >> 16u32, number & 0xffff);
        assert(number == (number >> 16u32) * 0x10000 + (number & 0xffff) && (number & 0xffff) < 0x10000) by (bit_vector);
        r
    }

    /// The lowest free port of the lowest hub that has one, as a bus port number.
    pub fn available_interface(&self) -> (r: Option<usize>)
        requires
            self@.len() == N_JUNC,
            forall|i: int| 0 <= i < N_JUNC ==> (#[trigger] self@[i]).len() == HUB_PORTS,
        ensures
            r is None <==> forall|i: int| 0 <= i < N_JUNC ==> (#[trigger] first_free(self@[i])) is None,
            r is Some ==> exists|i: int|
                0 <= i < N_JUNC && (#[trigger] first_free(self@[i])) is Some && r.unwrap() as nat
                    == port_number(i as nat, first_free(self@[i]).unwrap() as nat) && forall|j: int|
                    0 <= j < i ==> (#[trigger] first_free(self@[j])) is None,
    {
        let mut i: usize = 0;
        while i < N_JUNC
            invariant
                i <= N_JUNC,
                self@.len() == N_JUNC,
                self.junctions@.len() == N_JUNC,
                forall|k: int| 0 <= k < N_JUNC ==> (#[trigger] self@[k]).len() == HUB_PORTS,
                forall|j: int| 0 <= j < i ==> (#[trigger] first_free(self@[j])) is None,
            decreases N_JUNC - i,
        {
            match self.junctions[i].available_interface() {
                Some(p) => {
                    proof {
                        assert(self@[i as int] == self.junctions@[i as int]@);
                        let k = choose|k: int| 0 <= k < self@[i as int].len() && (#[trigger] self@[i as int][k]).link is None && forall|j: int| 0 <= j < k ==> (#[trigger] self@[i as int][j]).link is Some;
                        assert(p < HUB_PORTS);
                    }
                    return Some(i * 0x10000 + p);
                },
                None => {
                    assert(self@[i as int] == self.junctions@[i as int]@);
                },
            }
            i += 1;
        }
        None
    }

    /// Joins the lowest free port of the bus and `other` by a fresh
    /// connection. Where no port is free or `other` is connected, nothing
    /// changes and `false` is returned.
    pub fn connect(&mut self, medium: &mut Medium, other: &mut NIC) -> (r: bool)
        requires
            old(medium).wf(),
            old(self).wf_in(old(medium)),
            old(other).wf_in(old(medium)),
            old(medium)@.len() + 2 <= usize::MAX,
        ensures
            final(medium).wf(),
            final(self).wf_in(final(medium)),
            final(other).wf_in(final(medium)),
            !r ==> final(self)@ == old(self)@ && final(other)@ == old(other)@ && final(medium)@
                == old(medium)@,
            r <==> ((exists|i: int| 0 <= i < N_JUNC && (#[trigger] first_free(old(self)@[i])) is Some) && old(other)@.link is None),
            r ==> exists|i: int|
                0 <= i < N_JUNC && (#[trigger] first_free(old(self)@[i])) is Some && (forall|j: int|
                    0 <= j < i ==> (#[trigger] first_free(old(self)@[j])) is None) && ({
                    let n = old(medium)@.len() as int;
                    let p = first_free(old(self)@[i]).unwrap() as int;
                    &&& final(self)@ == old(self)@.update(i, old(self)@[i].update(p, NicState { link: Some((n as usize, (n + 1) as usize)), ..old(self)@[i][p] }))
                    &&& final(other)@ == (NicState { link: Some(((n + 1) as usize, n as usize)), ..old(other)@ })
                    &&& final(medium)@.len() == n + 2
                    &&& final(medium)@.subrange(0, n) == old(medium)@
                    &&& fresh(final(medium)@[n])
                    &&& fresh(final(medium)@[n + 1])
                }),
    {
        let mut i: usize = 0;
        while i < N_JUNC
            invariant
                i <= N_JUNC,
                self@ == old(self)@,
                self.junctions@.len() == N_JUNC,
                self.wf_in(medium),
                medium@ == old(medium)@,
                medium.wf(),
                other@ == old(other)@,
                other.wf_in(medium),
                medium@.len() + 2 <= usize::MAX,
                forall|j: int| 0 <= j < i ==> (#[trigger] first_free(self@[j])) is None,
            decreases N_JUNC - i,
        {
            proof {
                assert(self@[i as int] == self.junctions@[i as int]@);
            }
            if self.junctions[i].available_interface().is_some() {
                let ghost before = self@;
                let ok = self.junctions[i].connect(medium, other);
                proof {
                    assert(self@ =~= before.update(i as int, self.junctions@[i as int]@));
                    assert forall|k: int| 0 <= k < N_JUNC implies (#[trigger] self@[k]).len() == HUB_PORTS && ports_in(self@[k], medium@.len()) by {
                        if k != i {
                            assert(ports_in(before[k], old(medium)@.len()));
                            assert forall|p: int| 0 <= p < self@[k].len() implies crate::nic::link_in(#[trigger] self@[k][p], medium@.len()) by {
                                assert(crate::nic::link_in(before[k][p], old(medium)@.len()));
                            }
                        }
                    }
                    if !ok {
                        assert(self@ =~= before);
                    }
                    if ok {
                        assert(first_free(old(self)@[i as int]) is Some);
                        assert(self@ =~= old(self)@.update(i as int, self@[i as int]));
                    }
                }
                return ok;
            }
            i += 1;
        }
        false
    }

    /// One tick: every hub ticks, in chain order, so a byte can cross the
    /// whole chain in one tick.
    pub fn tick(&mut self, medium: &mut Medium)
        requires
            old(medium).wf(),
            old(self).wf_in(old(medium)),
        ensures
            final(medium).wf(),
            final(self).wf_in(final(medium)),
            final(medium)@.len() == old(medium)@.len(),
            bus_ticked(old(self)@, old(medium)@, final(self)@, final(medium)@, N_JUNC as nat),
    {
        let ghost h0 = self@;
        let ghost m0 = medium@;
        let mut i: usize = 0;
        while i < N_JUNC
            invariant
                i <= N_JUNC,
                medium.wf(),
                self.wf_in(medium),
                self.junctions@.len() == N_JUNC,
                medium@.len() == m0.len(),
                h0.len() == N_JUNC,
                self@.len() == N_JUNC,
                forall|j: int| i <= j < N_JUNC ==> #[trigger] self@[j] == h0[j],
                bus_ticked(h0, m0, self@, medium@, i as nat),
            decreases N_JUNC - i,
        {
            let ghost before = self@;
            let ghost mb = medium@;
            proof {
                assert(self@[i as int] == self.junctions@[i as int]@);
            }
            self.junctions[i].tick(medium);
            proof {
                assert(self@ =~= before.update(i as int, self.junctions@[i as int]@));
                assert(self@.update(i as int, h0[i as int]) =~= before);
                assert(hub_ticked(h0[i as int], mb, self@[i as int], medium@));
                assert(bus_ticked(h0, m0, self@.update(i as int, h0[i as int]), mb, i as nat));
                assert(bus_ticked(h0, m0, self@.update(((i + 1) as nat - 1) as int, h0[((i + 1) as nat - 1) as int]), mb, ((i + 1) as nat - 1) as nat));
                assert(bus_ticked(h0, m0, self@, medium@, (i + 1) as nat));
            }
            i += 1;
        }
    }
}

} // verus!
