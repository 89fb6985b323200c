//! End devices: one NIC and one MAC, the endpoints of traffic.
use crate::access_control::{
    transmit_step, TransmitAction, MAX_ATTEMPTS, touches_only_link, drained, queued_for, receive_frame, transmit_frame,
    ReceiveState, TransmitState,
};
use crate::frame::{
    receive_outcome, recognized, wire_frame, ErrorControl, ReceiveStatus,
    MAX_PAYLOAD_SIZE,
};
use crate::mac_addr::MacAddr;
use crate::medium::{fresh, Medium};
use crate::nic::{disconnected, receiving, recieve_effect, transmit_effect, NicState, NIC};
use vstd::prelude::*;

verus! {

/// A station with one NIC, used as a traffic endpoint.
#[derive(Debug)]
pub struct EndDevice {
    pub nic: NIC,
    pub transmit_state: TransmitState,
    pub receive_state: ReceiveState,
}

impl EndDevice {
    /// A device with a random address, not connected.
    pub fn new() -> (r: EndDevice)
        ensures
            r.nic@.link is None,
            !r.nic@.transmitting,
    {
        EndDevice::with_mac(MacAddr::random())
    }

    /// A device with address `mac`, not connected.
    pub fn with_mac(mac: MacAddr) -> (r: EndDevice)
        ensures
            r.nic@ == (NicState { mac, transmitting: false, link: None }),
    {
        EndDevice { nic: NIC::new(mac), transmit_state: TransmitState::new(), receive_state: ReceiveState::new() }
    }

    pub fn mac(&self) -> (r: MacAddr)
        ensures
            r == self.nic@.mac,
    {
        self.nic.mac()
    }

    pub fn nic(&self) -> (r: &NIC)
        ensures
            r == &self.nic,
    {
        &self.nic
    }

    pub fn transmit_state(&self) -> (r: &TransmitState)
        ensures
            r == &self.transmit_state,
    {
        &self.transmit_state
    }

    pub fn receive_state(&self) -> (r: &ReceiveState)
        ensures
            r == &self.receive_state,
    {
        &self.receive_state
    }

    /// Whether this device takes a frame sent to `dest`: its own address or broadcast.
    pub fn recognize_address(&self, dest: &MacAddr) -> (r: bool)
        ensures
            r == recognized(dest@, self.nic@.mac@, false),
    {
        crate::frame::recognize_address(dest, &self.nic.mac(), false)
    }

    /// Joins this device's NIC and `other` by a fresh connection; `false`,
    /// with nothing changed, where either is connected.
    pub fn connect(&mut self, medium: &mut Medium, other: &mut NIC) -> (r: bool)
        requires
            old(medium).wf(),
            old(self).nic.wf_in(old(medium)),
            old(other).wf_in(old(medium)),
            old(medium)@.len() + 2 <= usize::MAX,
        ensures
            final(medium).wf(),
            final(self).nic.wf_in(final(medium)),
            final(other).wf_in(final(medium)),
            r == (old(self).nic@.link is None && old(other)@.link is None),
            !r ==> final(self).nic@ == old(self).nic@ && final(other)@ == old(other)@ && final(medium)@ == old(medium)@,
            r ==> ({
                let n = old(medium)@.len() as int;
                &&& final(self).nic@ == (NicState { link: Some((n as usize, (n + 1) as usize)), ..old(self).nic@ })
                &&& final(other)@ == (NicState { link: Some(((n + 1) as usize, n as usize)), ..old(other)@ })
                &&& final(medium)@.len() == n + 2
                &&& final(medium)@.subrange(0, n) == old(medium)@
                &&& fresh(final(medium)@[n])
                &&& fresh(final(medium)@[n + 1])
            }),
    {
        self.nic.connect(medium, other)
    }

    /// Drops the NIC's link end, if any.
    pub fn disconnect(&mut self, medium: &mut Medium)
        requires
            old(medium).wf(),
            old(self).nic.wf_in(old(medium)),
        ensures
            final(medium).wf(),
            final(self).nic.wf_in(final(medium)),
            (final(self).nic@, final(medium)@) == disconnected(old(self).nic@, old(medium)@),
            final(self).transmit_state == old(self).transmit_state,
            final(self).receive_state == old(self).receive_state,
    {
        self.nic.disconnect(medium)
    }

    /// Sends one byte on the wire.
    pub fn transmit(&mut self, medium: &mut Medium, byte: u8)
        requires
            old(medium).wf(),
            old(self).nic.wf_in(old(medium)),
        ensures
            final(medium).wf(),
            final(self).nic.wf_in(final(medium)),
            (final(self).nic@, final(medium)@) == transmit_effect(old(self).nic@, old(medium)@, byte),
            final(self).transmit_state == old(self).transmit_state,
            final(self).receive_state == old(self).receive_state,
    {
        self.nic.transmit(medium, byte)
    }

    /// Takes one byte from the wire, if one waits.
    pub fn receive(&mut self, medium: &mut Medium) -> (r: Option<u8>)
        requires
            old(medium).wf(),
            old(self).nic.wf_in(old(medium)),
        ensures
            final(medium).wf(),
            final(self).nic.wf_in(final(medium)),
            (r, final(self).nic@, final(medium)@) == recieve_effect(old(self).nic@, old(medium)@),
            final(self).transmit_state == old(self).transmit_state,
            final(self).receive_state == old(self).receive_state,
    {
        self.nic.recieve(medium)
    }

    /// Carrier sense.
    pub fn carrier_sense(&self, medium: &Medium) -> (r: bool)
        requires
            self.nic.wf_in(medium),
        ensures
            r == receiving(self.nic@, medium@),
    {
        self.nic.is_receiving(medium)
    }

    pub fn transmitting(&self) -> (r: bool)
        ensures
            r == self.nic@.transmitting,
    {
        self.nic.transmitting()
    }

    /// Collision detect: a carrier sensed while transmitting.
    pub fn collision_detect(&self, medium: &Medium) -> (r: bool)
        requires
            self.nic.wf_in(medium),
        ensures
            r == (receiving(self.nic@, medium@) && self.nic@.transmitting),
    {
        self.nic.collision_detect(medium)
    }

    /// Hands a frame to this device's transmitter; `transmit_step` sends it.
    pub fn transmit_frame(&mut self, dest: &MacAddr, src: &MacAddr, type_len: u16, payload: Vec<u8>)
        requires
            payload@.len() <= MAX_PAYLOAD_SIZE,
        ensures
            final(self).transmit_state.outgoing_frame@ == wire_frame(dest@, src@, type_len, payload@),
            final(self).transmit_state.active,
            final(self).transmit_state.attempts == 0,
            final(self).transmit_state.backoff_time == 0,
            final(self).transmit_state.ready(final(self).nic@),
            final(self).nic@ == (NicState { transmitting: false, ..old(self).nic@ }),
            final(self).receive_state == old(self).receive_state,
    {
        transmit_frame(&mut self.nic, &mut self.transmit_state, dest, src, type_len, payload)
    }

    /// One byte time of this device's transmitter, as `transmit_step` states.
    pub fn transmit_step(&mut self, medium: &mut Medium) -> (r: TransmitAction)
        requires
            old(medium).wf(),
            old(self).nic.wf_in(old(medium)),
            old(self).transmit_state.ready(old(self).nic@),
        ensures
            final(medium).wf(),
            final(self).nic.wf_in(final(medium)),
            final(self).transmit_state.ready(final(self).nic@),
            final(self).receive_state == old(self).receive_state,
            final(self).nic@.mac == old(self).nic@.mac,
            touches_only_link(old(self).nic@, old(medium)@, final(medium)@),
            !old(self).transmit_state.active ==> r == TransmitAction::Idle,
            r matches TransmitAction::Done(res) ==> (res is Ok <==> final(self).transmit_state.transmit_succeeding)
                && (res is Err ==> final(self).transmit_state.attempts == MAX_ATTEMPTS),
            r matches TransmitAction::Done(res) ==> 1 <= final(self).transmit_state.attempts <= MAX_ATTEMPTS
                && !final(self).transmit_state.active,
    {
        transmit_step(&mut self.nic, &mut self.transmit_state, medium)
    }

    /// Receives one frame addressed to this device or to broadcast.
    pub fn receive_frame(&mut self, medium: &mut Medium) -> (r: Result<ReceiveStatus, ReceiveStatus>)
        requires
            old(medium).wf(),
            old(self).nic.wf_in(old(medium)),
        ensures
            final(medium).wf(),
            final(self).nic.wf_in(final(medium)),
            final(self).nic@ == old(self).nic@,
            final(medium)@ == drained(old(self).nic@, old(medium)@),
            receive_outcome(r, queued_for(old(self).nic@, old(medium)@), old(self).nic@.mac@, false),
            final(self).transmit_state == old(self).transmit_state,
    {
        let mac = self.nic.mac();
        receive_frame(&mut self.nic, &mut self.receive_state, medium, &mac, false)
    }
}

impl ErrorControl for EndDevice {

}

impl ErrorControl for crate::switch::Switch {

}

} // verus!
