//! Learning switches: eight ports and a table from source addresses to ports.
use crate::access_control::{
    after_send_all, clear_to_send, drained, queued_for, receive_frame, transmit_frame_at_once, ReceiveState, TransmitState,
};
use crate::frame::{
    copy_range, frame_accepted, frame_dest, frame_payload, frame_src, frame_type_len, wire_frame, ReceiveStatus,
    MAX_ENVELOPE_FRAME_SIZE,
};
use crate::hub::{first_free, ports_in};
use crate::mac_addr::{mac_key, MacAddr};
use crate::medium::{fresh, Medium, PipeState};
use crate::nic::{link_in, receiving, NicState, NIC};
use crate::random::choose_one;
use std::collections::HashMap;
use vstd::prelude::*;

verus! {

broadcast use vstd::std_specs::hash::group_hash_axioms;

/// Number of ports of a switch.
pub const N_INTERFACES: usize = 8;

/// What a switch holds.
pub ghost struct SwitchState {
    pub mac: MacAddr,
    /// Learned addresses, as 48-bit numbers, with the VLAN and port they were seen on.
    pub table: Map<u64, (u8, usize)>,
    pub ports: Seq<NicState>,
    /// The port that the switch's MAC drives at present.
    pub working_interface: usize,
}

/// An eight-port learning bridge. It takes every frame, learns the port
/// that each source address was seen on, and sends a frame to a learned
/// address on that port alone, any other frame on every other connected port.
#[derive(Debug)]
pub struct Switch {
    mac: MacAddr,
    switching_table: HashMap<u64, (u8, usize)>,
    interfaces: Vec<NIC>,
    working_interface: usize,
    transmit_state: TransmitState,
    receive_state: ReceiveState,
}

/// Which ports are connected.
pub open spec fn connected_ports(ports: Seq<NicState>) -> Seq<bool> {
    Seq::new(ports.len(), |i: int| ports[i].link is Some)
}

/// The connected ports among the first `n`, but `ingress`, in order.
pub open spec fn flood(connected: Seq<bool>, ingress: usize, n: nat) -> Seq<usize>
    decreases n,
{
    if n == 0 {
        Seq::empty()
    } else {
        let s = flood(connected, ingress, (n - 1) as nat);
        if connected[n - 1] && (n - 1) != ingress as int {
            s.push((n - 1) as usize)
        } else {
            s
        }
    }
}

/// The ports that a frame to `dest`, come in on `ingress`, goes out on: the
/// learned port of `dest`, or else every other connected port.
pub open spec fn egress(table: Map<u64, (u8, usize)>, connected: Seq<bool>, ingress: usize, dest: u64) -> Seq<usize> {
    if table.contains_key(dest) {
        seq![table[dest].1]
    } else {
        flood(connected, ingress, connected.len())
    }
}

/// Whether pipe `k` is one of the two pipes of the link of a NIC in state `s`.
pub open spec fn pipe_of(s: NicState, k: int) -> bool {
    s.link matches Some((tx, rx)) && (k == tx as int || k == rx as int)
}

/// Whether no two ports share a pipe.
pub open spec fn ports_disjoint(ports: Seq<NicState>) -> bool {
    forall|i: int, j: int, k: int|
        0 <= i < ports.len() && 0 <= j < ports.len() && i != j && #[trigger] pipe_of(ports[i], k)
            ==> !#[trigger] pipe_of(ports[j], k)
}

/// Whether pipe `k` is a pipe of one of the ports `out`.
pub open spec fn egress_pipe(ports: Seq<NicState>, out: Seq<usize>, k: int) -> bool {
    exists|j: int| 0 <= j < out.len() && #[trigger] pipe_of(ports[out[j] as int], k)
}

/// Whether a port of state `s` has sent frame `f`: where it was clear to
/// send in pipes `ms`, its outgoing pipe in `ms2` is the old one followed by `f`.
pub open spec fn sent_frame(s: NicState, ms: Seq<PipeState>, ms2: Seq<PipeState>, f: Seq<u8>) -> bool {
    clear_to_send(s, ms, f.len()) ==> ms2[s.link.unwrap().0 as int] == after_send_all(
        ms[s.link.unwrap().0 as int],
        f,
    )
}

proof fn lemma_flood_sorted(connected: Seq<bool>, ingress: usize, n: nat)
    requires
        n <= N_INTERFACES,
    ensures
        forall|a: int, b: int|
            0 <= a < b < flood(connected, ingress, n).len() ==> flood(connected, ingress, n)[a]
                < flood(connected, ingress, n)[b],
        forall|a: int| 0 <= a < flood(connected, ingress, n).len() ==> flood(connected, ingress, n)[a] < n,
    decreases n,
{
    if n > 0 {
        lemma_flood_sorted(connected, ingress, (n - 1) as nat);
        let prev = flood(connected, ingress, (n - 1) as nat);
        let cur = flood(connected, ingress, n);
        if connected[n - 1] && (n - 1) != ingress as int {
            assert(cur == prev.push((n - 1) as usize));
            assert forall|a: int, b: int| 0 <= a < b < cur.len() implies cur[a] < cur[b] by {
                assert(cur[a] == prev[a]);
                if b < prev.len() {
                    assert(prev[a] < prev[b]);
                } else {
                    assert(cur[b] == (n - 1) as usize);
                    assert(prev[a] < (n - 1) as nat);
                }
            }
            assert forall|a: int| 0 <= a < cur.len() implies cur[a] < n by {
                if a < prev.len() {
                    assert(prev[a] < n - 1);
                }
            }
        } else {
            assert(cur == prev);
        }
    }
}

/// No port appears twice among the egress ports.
proof fn lemma_egress_distinct(table: Map<u64, (u8, usize)>, connected: Seq<bool>, ingress: usize, dest: u64)
    requires
        connected.len() == N_INTERFACES,
    ensures
        forall|a: int, b: int|
            0 <= a < b < egress(table, connected, ingress, dest).len() ==> egress(table, connected, ingress, dest)[a]
                != egress(table, connected, ingress, dest)[b],
{
    lemma_flood_sorted(connected, ingress, connected.len());
}

/// Whether switching the frame queued on port `p` takes a switch from `old`
/// over pipes `ms` to `new` over `ms2`. The incoming pipe of `p` is drained.
/// A frame that passes the checks teaches the table its source's port, and
/// is sent on every egress port: where a port is clear to send, its outgoing
/// pipe gains the frame; no other pipe changes. Any other frame is dropped.
pub open spec fn switched(
    old: SwitchState,
    ms: Seq<PipeState>,
    p: usize,
    new: SwitchState,
    ms2: Seq<PipeState>,
) -> bool {
    let frame = queued_for(old.ports[p as int], ms);
    let ms1 = drained(old.ports[p as int], ms);
    if frame_accepted(frame, old.mac@, true) && frame_payload(frame).len() <= MAX_ENVELOPE_FRAME_SIZE {
        let table = old.table.insert(mac_key(frame_src(frame)), (0u8, p));
        let out = egress(table, connected_ports(old.ports), p, mac_key(frame_dest(frame)));
        let f = wire_frame(
            frame_dest(frame),
            frame_src(frame),
            frame_type_len(frame),
            frame_payload(frame),
        );
        &&& new.table == table
        &&& forall|j: int|
            0 <= j < out.len() ==> sent_frame(#[trigger] old.ports[out[j] as int], ms1, ms2, f)
        &&& forall|k: int|
            0 <= k < ms.len() && !egress_pipe(old.ports, out, k) ==> #[trigger] ms2[k] == ms1[k]
        &&& forall|i: int|
            0 <= i < N_INTERFACES && !out.contains(i as usize) ==> #[trigger] new.ports[i]
                == old.ports[i]
    } else {
        &&& new.table == old.table
        &&& new.ports == old.ports
        &&& ms2 == ms1
    }
}

/// Dropping links keeps ports disjoint.
proof fn lemma_disjoint_after_drops(a: Seq<NicState>, b: Seq<NicState>)
    requires
        ports_disjoint(a),
        a.len() == b.len(),
        forall|i: int| 0 <= i < b.len() ==> (#[trigger] b[i]).link is None || b[i].link == a[i].link,
    ensures
        ports_disjoint(b),
{
    assert forall|i: int, j: int, k: int|
        0 <= i < b.len() && 0 <= j < b.len() && i != j && #[trigger] pipe_of(b[i], k)
            implies !#[trigger] pipe_of(b[j], k) by {
        assert(pipe_of(a[i], k));
        if pipe_of(b[j], k) {
            assert(pipe_of(a[j], k));
        }
    }
}

impl View for Switch {
    type V = SwitchState;

    closed spec fn view(&self) -> SwitchState {
        SwitchState {
            mac: self.mac,
            table: self.switching_table@,
            ports: Seq::new(self.interfaces@.len(), |i: int| self.interfaces@[i]@),
            working_interface: self.working_interface,
        }
    }
}

/// Once a frame from `a` has come in on port `p`, a frame to `a` goes out on
/// `p` alone, whichever port it comes in on.
pub proof fn lemma_learned_address_targets_port(
    table: Map<u64, (u8, usize)>,
    connected: Seq<bool>,
    a: u64,
    p: usize,
    ingress: usize,
)
    ensures
        table.insert(a, (0u8, p))[a] == (0u8, p),
        egress(table.insert(a, (0u8, p)), connected, ingress, a) == seq![p],
{
}

impl Switch {
    /// Eight ports, each naming pipes of `medium`, and a table whose ports are ports of the switch.
    pub open spec fn wf_in(&self, medium: &Medium) -> bool {
        &&& self@.ports.len() == N_INTERFACES
        &&& ports_in(self@.ports, medium@.len())
        &&& ports_disjoint(self@.ports)
        &&& forall|k: u64| #[trigger] self@.table.contains_key(k) ==> self@.table[k].1 < N_INTERFACES
    }

    /// A switch with address `mac`, free ports and an empty table.
    pub fn new(mac: MacAddr) -> (r: Switch)
        ensures
            r@.mac == mac,
            r@.table == Map::<u64, (u8, usize)>::empty(),
            r@.ports.len() == N_INTERFACES,
            forall|i: int| 0 <= i < N_INTERFACES ==> (#[trigger] r@.ports[i]).link is None,
    {
        let mut interfaces: Vec<NIC> = Vec::new();
        let mut i: usize = 0;
        while i < N_INTERFACES
            invariant
                i <= N_INTERFACES,
                interfaces@.len() == i,
                forall|j: int| 0 <= j < i ==> (#[trigger] interfaces@[j])@.link is None,
            decreases N_INTERFACES - i,
        {
            interfaces.push(NIC::default());
            i += 1;
        }
        Switch {
            mac,
            switching_table: HashMap::new(),
            interfaces,
            working_interface: 0,
            transmit_state: TransmitState::new(),
            receive_state: ReceiveState::new(),
        }
    }

    pub fn mac(&self) -> (r: MacAddr)
        ensures
            r == self@.mac,
    {
        self.mac
    }

    /// A switch takes every frame, whatever its destination.
    pub fn recognize_address(&self, dest: &MacAddr) -> (r: bool)
        ensures
            r,
    {
        true
    }

    /// The NIC of port `i`.
    pub fn interface(&self, i: usize) -> (r: &NIC)
        requires
            i < self@.ports.len(),
        ensures
            r@ == self@.ports[i as int],
    {
        &self.interfaces[i]
    }

    /// The port learned for `mac`, if any.
    pub fn learned_port(&self, mac: &MacAddr) -> (r: Option<usize>)
        ensures
            r == (if self@.table.contains_key(mac_key(mac@)) {
                Some(self@.table[mac_key(mac@)].1)
            } else {
                None
            }),
    {
        match self.switching_table.get(&mac.key()) {
            Some(entry) => Some(entry.1),
            None => None,
        }
    }

    /// The lowest port that is not connected, if any.
    pub fn available_interface(&self) -> (r: Option<usize>)
        ensures
            r == first_free(self@.ports),
    {
        let mut i: usize = 0;
        while i < self.interfaces.len()
            invariant
                i <= self@.ports.len(),
                self@.ports.len() == self.interfaces@.len(),
                forall|j: int| 0 <= j < i ==> (#[trigger] self@.ports[j]).link is Some,
            decreases self.interfaces.len() - i,
        {
            if !self.interfaces[i].is_connected() {
                proof {
                    crate::hub::lemma_first_free(self@.ports, i as int);
                }
                return Some(i);
            }
            i += 1;
        }
        None
    }

    /// Joins the lowest free port and `other` by a fresh connection. Where no
    /// port is free or `other` is connected, nothing changes and `false` is returned.
    pub fn connect(&mut self, medium: &mut Medium, other: &mut NIC) -> (r: bool)
        requires
            old(medium).wf(),
            old(self).wf_in(old(medium)),
            old(other).wf_in(old(medium)),
            old(medium)@.len() + 2 <= usize::MAX,
        ensures
            final(medium).wf(),
            final(self).wf_in(final(medium)),
            final(other).wf_in(final(medium)),
            final(self)@.table == old(self)@.table,
            r == (first_free(old(self)@.ports) is Some && old(other)@.link is None),
            !r ==> final(self)@ == old(self)@ && final(other)@ == old(other)@ && final(medium)@
                == old(medium)@,
            r ==> ({
                let n = old(medium)@.len() as int;
                let i = first_free(old(self)@.ports).unwrap() as int;
                &&& final(self)@.ports == old(self)@.ports.update(i, NicState { link: Some((n as usize, (n + 1) as usize)), ..old(self)@.ports[i] })
                &&& final(other)@ == (NicState { link: Some(((n + 1) as usize, n as usize)), ..old(other)@ })
                &&& final(medium)@.len() == n + 2
                &&& final(medium)@.subrange(0, n) == old(medium)@
                &&& fresh(final(medium)@[n])
                &&& fresh(final(medium)@[n + 1])
            }),
    {
        match self.available_interface() {
            Some(i) => {
                let ghost before = self@;
                let ok = self.interfaces[i].connect(medium, other);
                proof {
                    assert(self@.ports =~= before.ports.update(i as int, self.interfaces@[i as int]@));
                    assert forall|j: int| 0 <= j < self@.ports.len() implies link_in(#[trigger] self@.ports[j], medium@.len()) by {
                        if j != i {
                            assert(link_in(before.ports[j], old(medium)@.len()));
                        }
                    }
                    if !ok {
                        assert(self@.ports =~= before.ports);
                        assert(self@ == before);
                    } else {
                        let n = old(medium)@.len() as int;
                        assert forall|a: int, b: int, k: int|
                            0 <= a < self@.ports.len() && 0 <= b < self@.ports.len() && a != b && #[trigger] pipe_of(self@.ports[a], k)
                                implies !#[trigger] pipe_of(self@.ports[b], k) by {
                            if a == i {
                                assert(link_in(before.ports[b], old(medium)@.len()));
                                assert(self@.ports[b] == before.ports[b]);
                            } else if b == i {
                                assert(link_in(before.ports[a], old(medium)@.len()));
                                assert(self@.ports[a] == before.ports[a]);
                            } else {
                                assert(self@.ports[a] == before.ports[a]);
                                assert(self@.ports[b] == before.ports[b]);
                            }
                        }
                    }
                    assert(self@.table == before.table);
                    assert(self@.ports.len() == N_INTERFACES);
                    assert(ports_in(self@.ports, medium@.len()));
                    assert(forall|key: u64| #[trigger] self@.table.contains_key(key) ==> self@.table[key].1 < N_INTERFACES);
                }
                ok
            },
            None => false,
        }
    }

    /// The ports that a frame to `dest`, come in on `ingress`, goes out on.
    pub fn egress_ports(&self, ingress: usize, dest: &MacAddr) -> (r: Vec<usize>)
        requires
            self@.ports.len() == N_INTERFACES,
        ensures
            r@ == egress(self@.table, connected_ports(self@.ports), ingress, mac_key(dest@)),
            forall|k: int| 0 <= k < r@.len() ==> (#[trigger] r@[k]) < N_INTERFACES || self@.table.contains_key(mac_key(dest@)),
    {
        let mut r: Vec<usize> = Vec::new();
        match self.switching_table.get(&dest.key()) {
            Some(entry) => {
                r.push(entry.1);
                return r;
            },
            None => {},
        }
        let ghost connected = connected_ports(self@.ports);
        let mut i: usize = 0;
        while i < N_INTERFACES
            invariant
                i <= N_INTERFACES,
                self@.ports.len() == N_INTERFACES,
                self.interfaces@.len() == N_INTERFACES,
                connected == connected_ports(self@.ports),
                r@ == flood(connected, ingress, i as nat),
                forall|k: int| 0 <= k < r@.len() ==> (#[trigger] r@[k]) < i,
            decreases N_INTERFACES - i,
        {
            if self.interfaces[i].is_connected() && i != ingress {
                r.push(i);
            }
            i += 1;
        }
        r
    }

    /// Learns that `src` is reached through `ingress`, then sends the frame
    /// on every port that `egress` gives, and returns those ports. On each
    /// such port that is clear to send, the frame is appended to its outgoing
    /// pipe; no pipe but those of these ports changes. Each send is atomic:
    /// it takes place within the switch's tick (see `transmit_frame_at_once`).
    pub fn forward(
        &mut self,
        medium: &mut Medium,
        ingress: usize,
        dest: &MacAddr,
        src: &MacAddr,
        type_len: u16,
        data: &Vec<u8>,
    ) -> (sent_on: Vec<usize>)
        requires
            old(medium).wf(),
            old(self).wf_in(old(medium)),
            ingress < N_INTERFACES,
            data@.len() <= MAX_ENVELOPE_FRAME_SIZE,
        ensures
            final(medium).wf(),
            final(self).wf_in(final(medium)),
            final(medium)@.len() == old(medium)@.len(),
            final(self)@.mac == old(self)@.mac,
            final(self)@.table == old(self)@.table.insert(mac_key(src@), (0u8, ingress)),
            sent_on@ == egress(final(self)@.table, connected_ports(old(self)@.ports), ingress, mac_key(dest@)),
            forall|j: int| 0 <= j < sent_on@.len() ==> sent_frame(
                #[trigger] old(self)@.ports[sent_on@[j] as int],
                old(medium)@,
                final(medium)@,
                wire_frame(dest@, src@, type_len, data@),
            ),
            forall|k: int| 0 <= k < old(medium)@.len() && !egress_pipe(old(self)@.ports, sent_on@, k)
                ==> #[trigger] final(medium)@[k] == old(medium)@[k],
            forall|i: int| 0 <= i < N_INTERFACES && !sent_on@.contains(i as usize) ==> (#[trigger] final(self)@.ports[i]) == old(self)@.ports[i],
            forall|i: int| 0 <= i < N_INTERFACES ==> (#[trigger] final(self)@.ports[i]).link is None || final(self)@.ports[i].link == old(self)@.ports[i].link,
    {
        self.switching_table.insert(src.key(), (0, ingress));
        let ghost ports0 = self@.ports;
        let ghost m0 = medium@;
        let ghost f = wire_frame(dest@, src@, type_len, data@);
        proof {
            assert(self@.ports =~= old(self)@.ports);
            assert forall|key: u64| #[trigger] self@.table.contains_key(key) implies self@.table[key].1 < N_INTERFACES by {
                if key != mac_key(src@) {
                    assert(old(self)@.table.contains_key(key));
                }
            }
        }
        let ports = self.egress_ports(ingress, dest);
        proof {
            lemma_egress_distinct(self@.table, connected_ports(ports0), ingress, mac_key(dest@));
        }
        let mut k: usize = 0;
        while k < ports.len()
            invariant
                k <= ports@.len(),
                medium.wf(),
                self.wf_in(medium),
                medium@.len() == m0.len(),
                m0 == old(medium)@,
                self@.mac == old(self)@.mac,
                self@.table == old(self)@.table.insert(mac_key(src@), (0u8, ingress)),
                ports@ == egress(self@.table, connected_ports(ports0), ingress, mac_key(dest@)),
                ports0 == old(self)@.ports,
                ports_disjoint(ports0),
                ports_in(ports0, m0.len()),
                ports0.len() == N_INTERFACES,
                f == wire_frame(dest@, src@, type_len, data@),
                self.interfaces@.len() == N_INTERFACES,
                data@.len() <= MAX_ENVELOPE_FRAME_SIZE,
                forall|j: int| 0 <= j < ports@.len() ==> (#[trigger] ports@[j]) < N_INTERFACES,
                forall|a: int, b: int| 0 <= a < b < ports@.len() ==> ports@[a] != ports@[b],
                forall|i: int| 0 <= i < N_INTERFACES && !ports@.subrange(0, k as int).contains(i as usize) ==> (#[trigger] self@.ports[i]) == ports0[i],
                forall|i: int| 0 <= i < N_INTERFACES ==> (#[trigger] self@.ports[i]).link is None || self@.ports[i].link == ports0[i].link,
                forall|j: int| 0 <= j < k ==> sent_frame(#[trigger] ports0[ports@[j] as int], m0, medium@, f),
                forall|x: int| 0 <= x < m0.len() && !egress_pipe(ports0, ports@.subrange(0, k as int), x)
                    ==> #[trigger] medium@[x] == m0[x],
            decreases ports@.len() - k,
        {
            let q = ports[k];
            self.working_interface = q;
            let payload = copy_range(data, 0, data.len());
            proof {
                assert(payload@ =~= data@);
            }
            let ghost before = self@.ports;
            let ghost mb = medium@;
            proof {
                assert(link_in(self@.ports[q as int], medium@.len()));
                assert(!ports@.subrange(0, k as int).contains(q)) by {
                    if ports@.subrange(0, k as int).contains(q) {
                        let w = choose|w: int| 0 <= w < k && ports@.subrange(0, k as int)[w] == q;
                        assert(ports@[w] == ports@[k as int]);
                    }
                }
                assert(before[q as int] == ports0[q as int]);
                // the pipes of port q are as they were at the start
                assert forall|x: int| #[trigger] pipe_of(ports0[q as int], x) && 0 <= x < m0.len() implies mb[x] == m0[x] by {
                    if egress_pipe(ports0, ports@.subrange(0, k as int), x) {
                        let w = choose|w: int| 0 <= w < k && pipe_of(ports0[ports@.subrange(0, k as int)[w] as int], x);
                        assert(ports@.subrange(0, k as int)[w] == ports@[w]);
                        assert(ports@[w] != q);
                        assert(pipe_of(ports0[ports@[w] as int], x));
                    }
                }
            }
            let _ = transmit_frame_at_once(&mut self.interfaces[q], &mut self.transmit_state, medium, dest, src, type_len, payload);
            proof {
                let sq = ports0[q as int];
                assert(self@.ports =~= before.update(q as int, self.interfaces@[q as int]@));
                assert forall|j: int| 0 <= j < self@.ports.len() implies link_in(#[trigger] self@.ports[j], medium@.len()) by {
                    if j != q {
                        assert(link_in(before[j], medium@.len()));
                    }
                }
                lemma_disjoint_after_drops(ports0, self@.ports);
                assert forall|i: int| 0 <= i < N_INTERFACES && !ports@.subrange(0, k + 1).contains(i as usize) implies (#[trigger] self@.ports[i]) == ports0[i] by {
                    assert(ports@.subrange(0, k + 1)[k as int] == q);
                    if i != q {
                        if ports@.subrange(0, k as int).contains(i as usize) {
                            let w = choose|w: int| 0 <= w < k && ports@.subrange(0, k as int)[w] == i as usize;
                            assert(ports@.subrange(0, k + 1)[w] == i as usize);
                        }
                    }
                }
                if let Some((tx, rx)) = sq.link {
                    assert(pipe_of(sq, tx as int) && pipe_of(sq, rx as int));
                    assert(mb[tx as int] == m0[tx as int]);
                    assert(mb[rx as int] == m0[rx as int]);
                }
                assert(sent_frame(sq, m0, medium@, f));
                assert forall|j: int| 0 <= j < k + 1 implies sent_frame(#[trigger] ports0[ports@[j] as int], m0, medium@, f) by {
                    if j < k {
                        let sj = ports0[ports@[j] as int];
                        assert(sent_frame(sj, m0, mb, f));
                        if let Some((tx, rx)) = sj.link {
                            assert(link_in(sj, m0.len()));
                            assert(pipe_of(sj, tx as int));
                            assert(ports@[j] != q);
                            assert(!pipe_of(sq, tx as int));
                            assert(medium@[tx as int] == mb[tx as int]);
                        }
                    }
                }
                assert forall|x: int| 0 <= x < m0.len() && !egress_pipe(ports0, ports@.subrange(0, k + 1), x)
                    implies #[trigger] medium@[x] == m0[x] by {
                    assert(ports@.subrange(0, k + 1)[k as int] == q);
                    if egress_pipe(ports0, ports@.subrange(0, k as int), x) {
                        let w = choose|w: int| 0 <= w < k && pipe_of(ports0[ports@.subrange(0, k as int)[w] as int], x);
                        assert(ports@.subrange(0, k + 1)[w] == ports@.subrange(0, k as int)[w]);
                    }
                    assert(!pipe_of(sq, x));
                }
            }
            k += 1;
        }
        proof {
            assert(ports@.subrange(0, ports@.len() as int) =~= ports@);
        }
        ports
    }

    /// Switches the frame waiting on port `p`: receives it, and, when it
    /// passes the checks, learns its source and forwards it. A frame that
    /// fails the checks is dropped. Returns the ports the frame went out on.
    pub fn switch_frame(&mut self, medium: &mut Medium, p: usize) -> (sent_on: Vec<usize>)
        requires
            old(medium).wf(),
            old(self).wf_in(old(medium)),
            p < N_INTERFACES,
        ensures
            final(medium).wf(),
            final(self).wf_in(final(medium)),
            final(medium)@.len() == old(medium)@.len(),
            ({
                let frame = queued_for(old(self)@.ports[p as int], old(medium)@);
                if frame_accepted(frame, old(self)@.mac@, true) && frame_payload(frame).len() <= MAX_ENVELOPE_FRAME_SIZE {
                    &&& final(self)@.table == old(self)@.table.insert(mac_key(frame_src(frame)), (0u8, p))
                    &&& sent_on@ == egress(final(self)@.table, connected_ports(old(self)@.ports), p, mac_key(frame_dest(frame)))
                } else {
                    &&& final(self)@.table == old(self)@.table
                    &&& sent_on@.len() == 0
                }
            }),
            switched(old(self)@, old(medium)@, p, final(self)@, final(medium)@),
    {
        self.working_interface = p;
        let ghost before = self@;
        proof {
            assert(link_in(self@.ports[p as int], medium@.len()));
        }
        let mac = self.mac;
        let r = receive_frame(&mut self.interfaces[p], &mut self.receive_state, medium, &mac, true);
        proof {
            assert(self@.ports =~= before.ports.update(p as int, self.interfaces@[p as int]@));
            assert(self@.ports =~= before.ports);
            assert(medium@.len() == old(medium)@.len());
            assert(self@.table == before.table);
            assert forall|j: int| 0 <= j < self@.ports.len() implies link_in(#[trigger] self@.ports[j], medium@.len()) by {
                assert(link_in(before.ports[j], old(medium)@.len()));
            }
            assert(ports_in(self@.ports, medium@.len()));
            assert(before.table == old(self)@.table);
            assert forall|key: u64| #[trigger] self@.table.contains_key(key) implies self@.table[key].1 < N_INTERFACES by {
                assert(old(self)@.table.contains_key(key));
            }
            assert(self.wf_in(medium));
        }
        match r {
            Ok(ReceiveStatus::Received(dest, src, type_len, data)) => {
                let out = self.forward(medium, p, &dest, &src, type_len, &data);
                proof {
                    let frame = queued_for(old(self)@.ports[p as int], old(medium)@);
                    assert(frame_accepted(frame, old(self)@.mac@, true));
                    assert(dest@ == frame_dest(frame) && src@ == frame_src(frame));
                }
                out
            },
            _ => Vec::new(),
        }
    }

    /// One tick: when any port senses a carrier, one of them, drawn at
    /// random, has its frame switched.
    pub fn tick(&mut self, medium: &mut Medium)
        requires
            old(medium).wf(),
            old(self).wf_in(old(medium)),
        ensures
            final(medium).wf(),
            final(self).wf_in(final(medium)),
            final(medium)@.len() == old(medium)@.len(),
            (forall|i: int| 0 <= i < N_INTERFACES ==> !receiving(#[trigger] old(self)@.ports[i], old(medium)@)) ==> final(self)@ == old(self)@ && final(medium)@ == old(medium)@,
            (exists|i: int| 0 <= i < N_INTERFACES && receiving(#[trigger] old(self)@.ports[i], old(medium)@))
                ==> exists|p: usize|
                p < N_INTERFACES && receiving(#[trigger] old(self)@.ports[p as int], old(medium)@)
                    && switched(old(self)@, old(medium)@, p, final(self)@, final(medium)@),
    {
        let mut candidates: Vec<usize> = Vec::new();
        let mut i: usize = 0;
        while i < N_INTERFACES
            invariant
                i <= N_INTERFACES,
                self.wf_in(medium),
                self.interfaces@.len() == N_INTERFACES,
                forall|k: int| 0 <= k < candidates@.len() ==> (#[trigger] candidates@[k]) < N_INTERFACES && receiving(self@.ports[candidates@[k] as int], medium@),
                forall|j: int| 0 <= j < i && receiving(#[trigger] self@.ports[j], medium@) ==> candidates@.contains(j as usize),
            decreases N_INTERFACES - i,
        {
            proof {
                assert(link_in(self@.ports[i as int], medium@.len()));
            }
            let ghost old_candidates = candidates@;
            if self.interfaces[i].is_receiving(medium) {
                candidates.push(i);
            }
            proof {
                assert forall|j: int| 0 <= j <= i && receiving(#[trigger] self@.ports[j], medium@) implies candidates@.contains(j as usize) by {
                    if j < i {
                        let w = choose|w: int| 0 <= w < old_candidates.len() && old_candidates[w] == j as usize;
                        assert(candidates@[w] == j as usize);
                    } else {
                        assert(candidates@[candidates@.len() - 1] == i);
                    }
                }
            }
            i += 1;
        }
        proof {
            assert(self@ == old(self)@);
        }
        match choose_one(&candidates) {
            Some(p) => {
                proof {
                    let w = choose|w: int| 0 <= w < candidates@.len() && candidates@[w] == p;
                    assert(receiving(old(self)@.ports[p as int], old(medium)@));
                }
                let _ = self.switch_frame(medium, p);
                proof {
                    assert(receiving(old(self)@.ports[p as int], old(medium)@));
                    assert(switched(old(self)@, old(medium)@, p, self@, medium@));
                }
            },
            None => {
                proof {
                    assert forall|j: int| 0 <= j < N_INTERFACES implies !receiving(#[trigger] old(self)@.ports[j], old(medium)@) by {
                        if receiving(old(self)@.ports[j], old(medium)@) {
                            assert(candidates@.contains(j as usize));
                        }
                    }
                }
            },
        }
    }
}

} // verus!
