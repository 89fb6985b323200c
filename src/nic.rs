//! Network interface cards: one address, a transmitting flag, and at most one link end.
use crate::mac_addr::MacAddr;
use crate::medium::{PipeState, after_close, after_recv, after_send, Link, Medium, LINK_CAPACITY};
use vstd::prelude::*;

verus! {

/// What a NIC holds.
pub ghost struct NicState {
    pub mac: MacAddr,
    pub transmitting: bool,
    /// The pipes `(tx, rx)` of the link end installed, if any.
    pub link: Option<(usize, usize)>,
}

/// A network interface card.
#[derive(Debug)]
pub struct NIC {
    mac: MacAddr,
    transmitting: bool,
    connection: Option<Link>,
}

/// Whether the link end of a NIC in state `s`, if any, names two distinct
/// pipes among `n`.
pub open spec fn link_in(s: NicState, n: nat) -> bool {
    s.link matches Some((tx, rx)) ==> (tx < n && rx < n && tx != rx)
}

/// Whether a NIC in state `s` senses a carrier: it is connected and a byte
/// waits on its incoming pipe.
pub open spec fn receiving(s: NicState, ms: Seq<PipeState>) -> bool {
    s.link matches Some((tx, rx)) && ms[rx as int].queue.len() > 0
}

/// The NIC and pipes after the NIC's link end, if any, is dropped.
pub open spec fn disconnected(s: NicState, ms: Seq<PipeState>) -> (NicState, Seq<PipeState>) {
    match s.link {
        Some((tx, rx)) => (NicState { link: None, ..s }, after_close(ms, tx, rx)),
        None => (s, ms),
    }
}

impl View for NIC {
    type V = NicState;

    closed spec fn view(&self) -> NicState {
        NicState {
            mac: self.mac,
            transmitting: self.transmitting,
            link: match self.connection {
                Some(l) => Some((l.tx, l.rx)),
                None => None,
            },
        }
    }
}

impl NIC {
    /// Whether the NIC's link end, if any, belongs to `medium`.
    pub open spec fn wf_in(&self, medium: &Medium) -> bool {
        link_in(self@, medium@.len())
    }

    /// A NIC with address `mac`, not connected and not transmitting.
    pub fn new(mac: MacAddr) -> (r: NIC)
        ensures
            r@ == (NicState { mac, transmitting: false, link: None }),
    {
        NIC { mac, transmitting: false, connection: None }
    }

    pub fn mac(&self) -> (r: MacAddr)
        ensures
            r == self@.mac,
    {
        self.mac
    }

    pub fn transmitting(&self) -> (r: bool)
        ensures
            r == self@.transmitting,
    {
        self.transmitting
    }

    pub fn set_transmitting(&mut self, transmitting: bool)
        ensures
            final(self)@ == (NicState { transmitting, ..old(self)@ }),
    {
        self.transmitting = transmitting;
    }

    pub fn is_connected(&self) -> (r: bool)
        ensures
            r == self@.link is Some,
    {
        self.connection.is_some()
    }

    /// Carrier sense: whether a byte waits on the incoming pipe.
    pub fn is_receiving(&self, medium: &Medium) -> (r: bool)
        requires
            self.wf_in(medium),
        ensures
            r == receiving(self@, medium@),
            r ==> self@.link is Some,
    {
        match &self.connection {
            Some(link) => link.is_recieving(medium),
            None => false,
        }
    }

    /// Collision detect: a carrier is sensed while this NIC transmits.
    pub fn collision_detect(&self, medium: &Medium) -> (r: bool)
        requires
            self.wf_in(medium),
        ensures
            r == (receiving(self@, medium@) && self@.transmitting),
    {
        self.is_receiving(medium) && self.transmitting
    }

    /// Installs `connection` in the slot; a link end that was there is dropped.
    pub fn set_connection(&mut self, medium: &mut Medium, connection: Option<Link>)
        requires
            old(medium).wf(),
            old(self).wf_in(old(medium)),
            connection matches Some(l) ==> old(medium).holds(&l),
        ensures
            final(medium).wf(),
            final(self).wf_in(final(medium)),
            final(medium)@ == disconnected(old(self)@, old(medium)@).1,
            final(self)@ == (NicState {
                link: match connection {
                    Some(l) => Some((l.tx, l.rx)),
                    None => None,
                },
                ..old(self)@
            }),
    {
        let previous = self.connection.take();
        match previous {
            Some(link) => link.close(medium),
            None => {},
        }
        self.connection = connection;
    }

    /// Drops the link end, if any. Once disconnected, doing it again changes nothing.
    pub fn disconnect(&mut self, medium: &mut Medium)
        requires
            old(medium).wf(),
            old(self).wf_in(old(medium)),
        ensures
            final(medium).wf(),
            final(self).wf_in(final(medium)),
            (final(self)@, final(medium)@) == disconnected(old(self)@, old(medium)@),
    {
        self.set_connection(medium, None);
    }

    /// Sends `byte` on the link, if connected. A peer that has gone away
    /// disconnects this NIC; a full pipe drops the byte.
    pub fn transmit(&mut self, medium: &mut Medium, byte: u8)
        requires
            old(medium).wf(),
            old(self).wf_in(old(medium)),
        ensures
            final(medium).wf(),
            final(self).wf_in(final(medium)),
            final(medium)@.len() == old(medium)@.len(),
            (final(self)@, final(medium)@) == transmit_effect(old(self)@, old(medium)@, byte),
    {
        let mut closed = false;
        match &self.connection {
            Some(link) => {
                match link.send(medium, byte) {
                    Ok(()) => {},
                    Err(e) => {
                        closed = e == crate::medium::SendError::Closed;
                    },
                }
            },
            None => {},
        }
        if closed {
            self.set_connection(medium, None);
        }
    }

    /// Takes the next byte from the link, if connected and one waits. A peer
    /// that has gone away, with nothing left queued, disconnects this NIC.
    pub fn recieve(&mut self, medium: &mut Medium) -> (r: Option<u8>)
        requires
            old(medium).wf(),
            old(self).wf_in(old(medium)),
        ensures
            final(medium).wf(),
            final(self).wf_in(final(medium)),
            final(medium)@.len() == old(medium)@.len(),
            (r, final(self)@, final(medium)@) == recieve_effect(old(self)@, old(medium)@),
    {
        let mut result: Option<u8> = None;
        let mut gone = false;
        match &self.connection {
            Some(link) => {
                match link.recv(medium) {
                    Ok(b) => {
                        result = Some(b);
                    },
                    Err(e) => {
                        gone = e == crate::medium::RecvError::Disconnected;
                    },
                }
            },
            None => {},
        }
        if gone {
            self.set_connection(medium, None);
        }
        result
    }

    /// Joins this NIC and `other` by a fresh connection. Where either is
    /// already connected nothing changes and `false` is returned.
    pub fn connect(&mut self, medium: &mut Medium, other: &mut NIC) -> (r: bool)
        requires
            old(medium).wf(),
            old(self).wf_in(old(medium)),
            old(other).wf_in(old(medium)),
            old(medium)@.len() + 2 <= usize::MAX,
        ensures
            final(medium).wf(),
            final(self).wf_in(final(medium)),
            final(other).wf_in(final(medium)),
            r == (old(self)@.link is None && old(other)@.link is None),
            !r ==> final(self)@ == old(self)@ && final(other)@ == old(other)@ && final(medium)@
                == old(medium)@,
            r ==> ({
                let n = old(medium)@.len() as int;
                &&& final(self)@ == (NicState { link: Some((n as usize, (n + 1) as usize)), ..old(self)@ })
                &&& final(other)@ == (NicState { link: Some(((n + 1) as usize, n as usize)), ..old(other)@ })
                &&& final(medium)@.len() == n + 2
                &&& final(medium)@.subrange(0, n) == old(medium)@
                &&& final(medium)@[n].queue.len() == 0
                &&& final(medium)@[n + 1].queue.len() == 0
                &&& final(medium)@[n].sender_open && final(medium)@[n].receiver_open
                &&& final(medium)@[n + 1].sender_open && final(medium)@[n + 1].receiver_open
            }),
    {
        if self.connection.is_some() || other.connection.is_some() {
            return false;
        }
        let (one, two) = Link::connection(medium);
        self.connection = Some(one);
        other.connection = Some(two);
        true
    }
}

impl Default for NIC {
    /// A NIC with a random address, not connected and not transmitting.
    fn default() -> (r: NIC)
        ensures
            !r@.transmitting,
            r@.link is None,
    {
        NIC::new(MacAddr::random())
    }
}

/// A NIC and pipes after the NIC sends `byte`: a peer that has gone away
/// disconnects the NIC; a full pipe drops the byte.
pub open spec fn transmit_effect(s: NicState, ms: Seq<PipeState>, byte: u8) -> (
    NicState,
    Seq<PipeState>,
) {
    match s.link {
        None => (s, ms),
        Some((tx, rx)) => {
            let p = ms[tx as int];
            if !p.receiver_open {
                disconnected(s, ms)
            } else if p.queue.len() >= LINK_CAPACITY {
                (s, ms)
            } else {
                (s, ms.update(tx as int, after_send(p, byte)))
            }
        },
    }
}

/// What a NIC receives, and the NIC and pipes afterwards: the oldest queued
/// byte; or, with nothing queued and the peer gone, a disconnect.
pub open spec fn recieve_effect(s: NicState, ms: Seq<PipeState>) -> (
    Option<u8>,
    NicState,
    Seq<PipeState>,
) {
    match s.link {
        None => (None, s, ms),
        Some((tx, rx)) => {
            let p = ms[rx as int];
            if p.queue.len() > 0 {
                (Some(p.queue[0]), s, ms.update(rx as int, after_recv(p)))
            } else if !p.sender_open {
                (None, disconnected(s, ms).0, disconnected(s, ms).1)
            } else {
                (None, s, ms)
            }
        },
    }
}

/// A NIC that senses a carrier is connected.
pub proof fn lemma_receiving_implies_connected(s: NicState, ms: Seq<PipeState>)
    ensures
        receiving(s, ms) ==> s.link is Some,
{
}

/// Dropping the link end a second time changes nothing.
pub proof fn lemma_disconnect_idempotent(s: NicState, ms: Seq<PipeState>)
    ensures
        disconnected(disconnected(s, ms).0, disconnected(s, ms).1) == disconnected(s, ms),
{
}

} // verus!
