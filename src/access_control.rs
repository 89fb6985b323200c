//! Media access: CSMA/CD transmission with truncated binary exponential
//! backoff, and reception of one frame from the wire.
use crate::frame::{
    decapsulate_frame, encapsulate_frame, lemma_frame_round_trip, receive_outcome, recognized,
    wire_frame, ReceiveStatus, TransmitStatus, MAX_PAYLOAD_SIZE,
};
use crate::header::MIN_TYPE_VAL;
use crate::mac_addr::MacAddr;
use crate::medium::{after_send, Medium, PipeState, LINK_CAPACITY};
use crate::nic::{receiving, transmit_effect, NicState, NIC};
use crate::random::random_below;
use vstd::prelude::*;

verus! {

/// Length of a backoff slot, in byte times.
pub const SLOT_SIZE: usize = 512;

/// Interframe space, in byte times.
pub const IFS: usize = 12;

/// Attempts before a transmission is given up.
pub const MAX_ATTEMPTS: usize = 16;

/// The backoff range stops doubling after this many attempts.
pub const MAX_BACKOFF_EXP: usize = 10;

pub const HALF_DUPLEX: bool = true;

/// `2` to the power `n`.
pub open spec fn two_pow(n: nat) -> nat
    decreases n,
{
    if n == 0 {
        1
    } else {
        2 * two_pow((n - 1) as nat)
    }
}

/// Number of slots that the backoff before the next attempt draws from,
/// after `attempts` attempts.
pub open spec fn backoff_limit(attempts: nat) -> nat {
    two_pow(
        if attempts < MAX_BACKOFF_EXP {
            attempts
        } else {
            MAX_BACKOFF_EXP as nat
        },
    )
}

proof fn lemma_two_pow_le(i: nat, j: nat)
    requires
        i <= j,
    ensures
        two_pow(i) <= two_pow(j),
    decreases j,
{
    if j > i {
        lemma_two_pow_le(i, (j - 1) as nat);
    }
}

/// Draws the number of slot times to wait after `attempts` attempts: uniform
/// in `0 .. 2^min(attempts, MAX_BACKOFF_EXP)`.
pub fn backoff_slots(attempts: usize) -> (k: u64)
    ensures
        k < backoff_limit(attempts as nat),
        backoff_limit(attempts as nat) <= 1024,
{
    let e: usize = if attempts < MAX_BACKOFF_EXP {
        attempts
    } else {
        MAX_BACKOFF_EXP
    };
    let mut bound: u64 = 1;
    let mut i: usize = 0;
    while i < e
        invariant
            i <= e,
            e <= MAX_BACKOFF_EXP,
            bound == two_pow(i as nat),
        decreases e - i,
    {
        proof {
            lemma_two_pow_le(i as nat, 9);
            reveal_with_fuel(two_pow, 10);
        }
        bound = bound * 2;
        i += 1;
    }
    proof {
        lemma_two_pow_le(e as nat, 10);
        reveal_with_fuel(two_pow, 11);
    }
    random_below(bound)
}

/// One direction of a station's MAC: the frame being sent and the progress of the attempt.
#[derive(Debug)]
pub struct TransmitState {
    pub outgoing_frame: Vec<u8>,
    /// Index of the next byte to send.
    pub current_byte: usize,
    /// Length of the frame: the attempt ends when `current_byte` reaches it.
    pub last_byte: usize,
    pub attempts: usize,
    pub transmit_succeeding: bool,
    /// Set by the collision watcher; the byte transmitter ends the attempt on it.
    pub new_collision: bool,
    /// Byte times of backoff: drawn when an attempt collides, then counted
    /// down, one per byte time, before the next attempt.
    pub backoff_time: u64,
    /// Whether a frame is being sent.
    pub active: bool,
}

/// What one byte time of a transmission did.
#[derive(Clone, Copy, Debug, PartialEq, Eq)]
pub enum TransmitAction {
    /// No frame is being sent.
    Idle,
    /// A byte went out and the attempt goes on.
    Sending,
    /// The attempt ended on a collision; the next one follows after this
    /// many byte times.
    Backoff(u64),
    /// One byte time of backoff passed.
    Waiting,
    /// The transmission is over.
    Done(Result<TransmitStatus, TransmitStatus>),
}

/// The other direction: the frame being received.
#[derive(Clone, Debug)]
pub struct ReceiveState {
    /// The bytes captured by the latest reception.
    pub incoming_frame: Vec<u8>,
    /// Set while bytes are being captured.
    pub receiving: bool,
    /// Whether the latest reception handed a frame up.
    pub receive_succeeding: bool,
}

impl TransmitState {
    pub fn new() -> (r: TransmitState)
        ensures
            r.outgoing_frame@.len() == 0,
            r.attempts == 0,
            !r.transmit_succeeding,
            !r.new_collision,
            !r.active,
    {
        TransmitState {
            outgoing_frame: Vec::new(),
            current_byte: 0,
            last_byte: 0,
            attempts: 0,
            transmit_succeeding: false,
            new_collision: false,
            backoff_time: 0,
            active: false,
        }
    }

    /// Whether the state is consistent with a NIC in state `s`: between byte
    /// times no collision is pending, an active frame has bytes and attempts
    /// left, and a NIC that transmits does so for an attempt that still succeeds.
    pub open spec fn ready(&self, s: NicState) -> bool {
        &&& !self.new_collision
        &&& self.attempts <= MAX_ATTEMPTS
        &&& self.active ==> self.attempts < MAX_ATTEMPTS && self.last_byte
            == self.outgoing_frame@.len() && self.last_byte >= 1
        &&& s.transmitting ==> self.active && self.transmit_succeeding && self.current_byte
            < self.last_byte
    }

    /// One look of the collision watcher: a carrier sensed while an attempt
    /// that still succeeds is on the wire marks a collision.
    pub fn watch_for_collision(&mut self, nic: &NIC, medium: &Medium)
        requires
            nic.wf_in(medium),
        ensures
            final(self).outgoing_frame@ == old(self).outgoing_frame@,
            final(self).current_byte == old(self).current_byte,
            final(self).last_byte == old(self).last_byte,
            final(self).attempts == old(self).attempts,
            final(self).backoff_time == old(self).backoff_time,
            final(self).active == old(self).active,
            if old(self).transmit_succeeding && receiving(nic@, medium@) && nic@.transmitting {
                final(self).new_collision && !final(self).transmit_succeeding
            } else {
                final(self).new_collision == old(self).new_collision
                    && final(self).transmit_succeeding == old(self).transmit_succeeding
            },
    {
        if self.transmit_succeeding && nic.collision_detect(medium) {
            self.new_collision = true;
            self.transmit_succeeding = false;
        }
    }

    /// One byte time of the byte transmitter: sends the current byte, then
    /// ends the attempt on a collision or after the last byte.
    pub fn byte_transmitter(&mut self, nic: &mut NIC, medium: &mut Medium)
        requires
            old(medium).wf(),
            old(nic).wf_in(old(medium)),
            old(self).current_byte < old(self).last_byte,
            old(self).last_byte == old(self).outgoing_frame@.len(),
        ensures
            final(medium).wf(),
            final(nic).wf_in(final(medium)),
            final(self).outgoing_frame@ == old(self).outgoing_frame@,
            final(self).last_byte == old(self).last_byte,
            final(self).attempts == old(self).attempts,
            final(self).backoff_time == old(self).backoff_time,
            final(self).transmit_succeeding == old(self).transmit_succeeding,
            final(self).active == old(self).active,
            !final(self).new_collision,
            ({
                let (s, ms) = transmit_effect(
                    old(nic)@,
                    old(medium)@,
                    old(self).outgoing_frame@[old(self).current_byte as int],
                );
                &&& final(medium)@ == ms
                &&& if old(self).new_collision {
                    final(self).current_byte == old(self).current_byte && final(nic)@ == (
                    NicState { transmitting: false, ..s })
                } else {
                    final(self).current_byte == old(self).current_byte + 1 && final(nic)@ == (
                    NicState { transmitting: final(self).current_byte < final(self).last_byte, ..s })
                }
            }),
    {
        nic.transmit(medium, self.outgoing_frame[self.current_byte]);
        if self.new_collision {
            self.new_collision = false;
            nic.set_transmitting(false);
        } else {
            self.current_byte = self.current_byte + 1;
            nic.set_transmitting(self.current_byte < self.last_byte);
        }
    }
}

impl Default for TransmitState {
    fn default() -> (r: TransmitState)
        ensures
            r.outgoing_frame@.len() == 0,
            r.attempts == 0,
            !r.transmit_succeeding,
            !r.new_collision,
    {
        TransmitState::new()
    }
}

impl ReceiveState {
    pub fn new() -> (r: ReceiveState)
        ensures
            r.incoming_frame@.len() == 0,
            !r.receiving,
            !r.receive_succeeding,
    {
        ReceiveState { incoming_frame: Vec::new(), receiving: false, receive_succeeding: false }
    }
}

impl Default for ReceiveState {
    fn default() -> (r: ReceiveState)
        ensures
            r.incoming_frame@.len() == 0,
            !r.receiving,
            !r.receive_succeeding,
    {
        ReceiveState::new()
    }
}

/// Whether the NIC's outgoing pipe takes the whole frame: the NIC is
/// connected, senses no carrier, its peer still receives, and the pipe has room.
pub open spec fn clear_to_send(s: NicState, ms: Seq<PipeState>, len: nat) -> bool {
    &&& !receiving(s, ms)
    &&& s.link matches Some((tx, rx))
    &&& ms[tx as int].receiver_open
    &&& ms[tx as int].queue.len() + len <= LINK_CAPACITY
}

/// Whether every attempt collides: the NIC senses a carrier and its peer
/// still receives, so nothing it does drops the link.
pub open spec fn jammed(s: NicState, ms: Seq<PipeState>) -> bool {
    &&& receiving(s, ms)
    &&& s.link matches Some((tx, rx))
    &&& ms[tx as int].receiver_open
}

/// Whether, of pipes `ms0`, only the two pipes of the link of a NIC in state
/// `s` can differ in `ms`.
pub open spec fn touches_only_link(s: NicState, ms0: Seq<PipeState>, ms: Seq<PipeState>) -> bool {
    match s.link {
        Some((tx, rx)) => ms.len() == ms0.len() && forall|i: int|
            0 <= i < ms.len() && i != tx as int && i != rx as int ==> #[trigger] ms[i] == ms0[i],
        None => ms == ms0,
    }
}

/// The outgoing pipe `p` after every byte of `frame` is sent into it.
pub open spec fn after_send_all(p: PipeState, frame: Seq<u8>) -> PipeState {
    PipeState { queue: p.queue + frame, sent: p.sent + frame, ..p }
}

proof fn lemma_send_all_step(p: PipeState, f: Seq<u8>, i: int)
    requires
        0 <= i < f.len(),
    ensures
        after_send(after_send_all(p, f.take(i)), f[i]) == after_send_all(p, f.take(i + 1)),
{
    assert(f.take(i + 1) =~= f.take(i).push(f[i]));
    assert((p.queue + f.take(i)).push(f[i]) =~= p.queue + f.take(i + 1));
    assert((p.sent + f.take(i)).push(f[i]) =~= p.sent + f.take(i + 1));
}

/// Sends a frame by CSMA/CD within one tick, as a switch forwards: each
/// attempt sends the frame byte by byte while the collision watcher looks
/// for a carrier, and a collision ends the attempt. No simulated time passes
/// inside one call, so the backoff before each further attempt is drawn and
/// recorded in `backoff_time` but not waited; a carrier that is there at the
/// start is there at every attempt. Stations send with `transmit_frame` and
/// `transmit_step`, which do wait.
pub fn transmit_frame_at_once(
    nic: &mut NIC,
    state: &mut TransmitState,
    medium: &mut Medium,
    dest: &MacAddr,
    src: &MacAddr,
    type_len: u16,
    payload: Vec<u8>,
) -> (r: Result<TransmitStatus, TransmitStatus>)
    requires
        old(medium).wf(),
        old(nic).wf_in(old(medium)),
        payload@.len() <= MAX_PAYLOAD_SIZE,
    ensures
        final(medium).wf(),
        final(nic).wf_in(final(medium)),
        final(medium)@.len() == old(medium)@.len(),
        final(nic)@.mac == old(nic)@.mac,
        !final(nic)@.transmitting,
        final(nic)@.link is None || final(nic)@.link == old(nic)@.link,
        final(state).outgoing_frame@ == wire_frame(dest@, src@, type_len, payload@),
        1 <= final(state).attempts <= MAX_ATTEMPTS,
        r is Ok <==> final(state).transmit_succeeding,
        r is Ok <==> (final(state).attempts < MAX_ATTEMPTS && final(state).transmit_succeeding),
        r is Ok ==> r == Ok::<TransmitStatus, TransmitStatus>(TransmitStatus::Success),
        r is Err ==> r == Err::<TransmitStatus, TransmitStatus>(TransmitStatus::ExcessiveCollisions)
            && final(state).attempts == MAX_ATTEMPTS,
        !receiving(old(nic)@, old(medium)@) ==> r is Ok && final(state).attempts == 1,
        jammed(old(nic)@, old(medium)@) ==> r is Err,
        touches_only_link(old(nic)@, old(medium)@, final(medium)@),
        final(state).attempts == 1 ==> final(state).backoff_time == 0,
        final(state).attempts > 1 ==> final(state).backoff_time % 512 == 0 && final(state).backoff_time
            / 512 < backoff_limit((final(state).attempts - 1) as nat),
        jammed(old(nic)@, old(medium)@) ==> exists|jam: Seq<u8>|
            jam.len() <= MAX_ATTEMPTS && (forall|j: int| 0 <= j < jam.len() ==> #[trigger] jam[j]
                == final(state).outgoing_frame@[0]) && final(medium)@[old(nic)@.link.unwrap().0 as int].queue
                == old(medium)@[old(nic)@.link.unwrap().0 as int].queue + jam,
        clear_to_send(old(nic)@, old(medium)@, final(state).outgoing_frame@.len()) ==> ({
            let (tx, rx) = old(nic)@.link.unwrap();
            &&& final(nic)@.link == old(nic)@.link
            &&& final(medium)@ == old(medium)@.update(
                tx as int,
                after_send_all(old(medium)@[tx as int], final(state).outgoing_frame@),
            )
        }),
{
    let frame = encapsulate_frame(dest, src, type_len, &payload);
    state.outgoing_frame = frame;
    state.attempts = 0;
    state.transmit_succeeding = false;
    state.new_collision = false;
    state.backoff_time = 0;
    state.active = false;
    let ghost f = state.outgoing_frame@;
    let ghost s0 = nic@;
    let ghost m0 = medium@;
    let ghost carrier0 = receiving(nic@, medium@);
    let ghost clean = clear_to_send(nic@, medium@, f.len());
    let ghost collide = jammed(s0, m0);
    let ghost tx_open0 = s0.link matches Some((tx, rx)) && m0[tx as int].receiver_open;
    let ghost mut jam: Seq<u8> = Seq::empty();
    proof {
        crate::frame::lemma_encapsulated_frame_checks(dest@, src@, type_len, payload@);
        if clean {
            let (tx, rx) = s0.link.unwrap();
            assert(m0.update(tx as int, after_send_all(m0[tx as int], f.take(0))) =~= m0);
        }
    }
    while state.attempts < MAX_ATTEMPTS && !state.transmit_succeeding
        invariant
            medium.wf(),
            nic.wf_in(medium),
            medium@.len() == m0.len(),
            nic@.mac == s0.mac,
            !nic@.transmitting || state.attempts == 0,
            state.outgoing_frame@ == f,
            f.len() >= 64,
            f == wire_frame(dest@, src@, type_len, payload@),
            clean == clear_to_send(s0, m0, f.len()),
            collide == jammed(s0, m0),
            carrier0 == receiving(s0, m0),
            tx_open0 == (s0.link matches Some((tx, rx)) && m0[tx as int].receiver_open),
            state.attempts >= 1 && !state.transmit_succeeding ==> carrier0 && (nic@.link is None
                <==> !tx_open0) && (nic@.link is None ==> state.attempts == 1),
            state.transmit_succeeding ==> state.attempts <= 2,
            touches_only_link(s0, m0, medium@),
            state.attempts <= 1 ==> state.backoff_time == 0,
            state.attempts > 1 ==> state.backoff_time % 512 == 0 && state.backoff_time / 512
                < backoff_limit((state.attempts - 1) as nat),
            collide ==> jam.len() <= state.attempts && (forall|j: int| 0 <= j < jam.len() ==> #[trigger] jam[j] == f[0])
                && medium@[s0.link.unwrap().0 as int].queue == m0[s0.link.unwrap().0 as int].queue + jam,
            state.attempts <= MAX_ATTEMPTS,
            state.attempts == 0 ==> !state.transmit_succeeding && medium@ == m0 && nic@ == s0,
            nic@.link is None || nic@.link == s0.link,
            nic@.link matches Some((tx, rx)) ==> medium@[rx as int] == m0[rx as int] && medium@[tx as int].receiver_open == m0[tx as int].receiver_open,
            !carrier0 && state.attempts > 0 ==> state.transmit_succeeding && state.attempts == 1,
            collide ==> nic@.link == s0.link && !state.transmit_succeeding,
            clean && state.attempts > 0 ==> nic@.link == s0.link && medium@ == m0.update(
                s0.link.unwrap().0 as int,
                after_send_all(m0[s0.link.unwrap().0 as int], f),
            ),
        decreases MAX_ATTEMPTS - state.attempts,
    {
        let ghost a = state.attempts;
        if state.attempts > 0 {
            let k = backoff_slots(state.attempts);
            assert(k < 1024);
            state.backoff_time = k * 512;
            proof {
                assert(state.backoff_time % 512 == 0 && state.backoff_time / 512 == k) by (nonlinear_arith)
                    requires
                        state.backoff_time == k * 512,
                ;
            }
        }
        let ghost bt = state.backoff_time;
        let ghost jam_start = jam;

        let ghost link_start = nic@.link;
        let ghost will_collide = carrier0 && link_start is Some;
        state.current_byte = 0;
        state.last_byte = state.outgoing_frame.len();
        state.transmit_succeeding = true;
        state.new_collision = false;
        nic.set_transmitting(true);
        while nic.transmitting()
            invariant
                medium.wf(),
                nic.wf_in(medium),
                medium@.len() == m0.len(),
                nic@.mac == s0.mac,
                state.outgoing_frame@ == f,
                state.last_byte == f.len(),
                state.attempts == a,
                a < MAX_ATTEMPTS,
                f.len() >= 64,
                clean == clear_to_send(s0, m0, f.len()),
                collide == jammed(s0, m0),
                carrier0 == receiving(s0, m0),
                tx_open0 == (s0.link matches Some((tx, rx)) && m0[tx as int].receiver_open),
                will_collide == (carrier0 && link_start is Some),
                link_start is None || link_start == s0.link,
                link_start is None ==> nic@.link is None,
                a >= 1 ==> carrier0 && (link_start is None <==> !tx_open0) && (link_start is None ==> a == 1),
                !will_collide ==> state.transmit_succeeding && !state.new_collision,
                will_collide && state.transmit_succeeding ==> nic@.transmitting && !state.new_collision && nic@.link == s0.link && state.current_byte == 0,
                touches_only_link(s0, m0, medium@),
                state.backoff_time == bt,
                a == 0 ==> bt == 0,
                a > 0 ==> bt % 512 == 0 && bt / 512 < backoff_limit(a as nat),
                collide ==> jam.len() <= a + (if state.transmit_succeeding { 0int } else { 1int }) && (forall|j: int| 0 <= j < jam.len() ==> #[trigger] jam[j] == f[0])
                    && medium@[s0.link.unwrap().0 as int].queue == m0[s0.link.unwrap().0 as int].queue + jam,
                collide ==> jam.len() <= a + 1 && (state.transmit_succeeding ==> jam == jam_start) && jam_start.len() <= a,
                will_collide && !state.transmit_succeeding ==> !nic@.transmitting && (nic@.link is None <==> !tx_open0),
                nic@.transmitting ==> state.current_byte < state.last_byte,
                state.current_byte <= state.last_byte,
                nic@.link is None || nic@.link == s0.link,
                nic@.link matches Some((tx, rx)) ==> medium@[rx as int] == m0[rx as int] && medium@[tx as int].receiver_open == m0[tx as int].receiver_open,
                !carrier0 ==> state.transmit_succeeding && !state.new_collision && state.attempts == 0,
                collide ==> nic@.link == s0.link && (state.transmit_succeeding ==> (nic@.transmitting && !state.new_collision)),
                !carrier0 ==> (nic@.transmitting || state.current_byte == state.last_byte),
                clean ==> state.attempts == 0 && nic@.link == s0.link && medium@ == m0.update(
                    s0.link.unwrap().0 as int,
                    after_send_all(m0[s0.link.unwrap().0 as int], f.take(state.current_byte as int)),
                ),
            decreases state.last_byte - state.current_byte + (if nic@.transmitting { 1int } else { 0int }),
        {
            let ghost cur = state.current_byte as int;
            let ghost ms1 = medium@;
            state.watch_for_collision(nic, medium);
            state.byte_transmitter(nic, medium);
            proof {
                if collide {
                    let txi = s0.link.unwrap().0 as int;
                    if medium@[txi].queue.len() > ms1[txi].queue.len() {
                        assert(medium@[txi].queue == ms1[txi].queue.push(f[0]));
                        jam = jam.push(f[0]);
                        assert(medium@[txi].queue =~= m0[txi].queue + jam);
                    }
                }
                if clean {
                    let (tx, rx) = s0.link.unwrap();
                    let txi = tx as int;
                    assert(ms1[txi] == after_send_all(m0[txi], f.take(cur)));
                    assert(ms1[txi].queue.len() < LINK_CAPACITY);
                    lemma_send_all_step(m0[txi], f, cur);
                    assert(medium@ == ms1.update(txi, after_send(ms1[txi], f[cur])));
                    assert(medium@ =~= m0.update(txi, after_send_all(m0[txi], f.take(cur + 1))));
                }
            }
        }
        proof {
            if clean {
                assert(f.take(f.len() as int) =~= f);
            }
        }
        state.attempts = state.attempts + 1;
    }
    if state.transmit_succeeding {
        Ok(TransmitStatus::Success)
    } else {
        Err(TransmitStatus::ExcessiveCollisions)
    }
}

/// Hands a frame to the transmitter: it is encapsulated, and
/// `transmit_step` sends it from the next byte time on.
pub fn transmit_frame(
    nic: &mut NIC,
    state: &mut TransmitState,
    dest: &MacAddr,
    src: &MacAddr,
    type_len: u16,
    payload: Vec<u8>,
)
    requires
        payload@.len() <= MAX_PAYLOAD_SIZE,
    ensures
        final(state).outgoing_frame@ == wire_frame(dest@, src@, type_len, payload@),
        final(state).active,
        final(state).attempts == 0,
        final(state).backoff_time == 0,
        final(state).ready(final(nic)@),
        final(nic)@ == (NicState { transmitting: false, ..old(nic)@ }),
{
    let frame = encapsulate_frame(dest, src, type_len, &payload);
    proof {
        crate::frame::lemma_encapsulated_frame_checks(dest@, src@, type_len, payload@);
    }
    state.last_byte = frame.len();
    state.outgoing_frame = frame;
    state.current_byte = 0;
    state.attempts = 0;
    state.transmit_succeeding = false;
    state.new_collision = false;
    state.backoff_time = 0;
    state.active = true;
    nic.set_transmitting(false);
}

/// One byte time of a transmission by CSMA/CD.
///
/// While a backoff is counted down the step only waits. Otherwise an attempt
/// is on the wire, or starts from the frame's first byte: the collision
/// watcher looks for a carrier, then the byte transmitter sends the current
/// byte. A collision ends the attempt; the next follows after a backoff of
/// `k * SLOT_SIZE` byte times with `k` drawn by `backoff_slots`, or, after
/// `MAX_ATTEMPTS` attempts, the transmission fails. After the last byte of an
/// attempt without a collision it succeeds.
pub fn transmit_step(nic: &mut NIC, state: &mut TransmitState, medium: &mut Medium) -> (r:
    TransmitAction)
    requires
        old(medium).wf(),
        old(nic).wf_in(old(medium)),
        old(state).ready(old(nic)@),
    ensures
        final(medium).wf(),
        final(nic).wf_in(final(medium)),
        final(state).ready(final(nic)@),
        final(medium)@.len() == old(medium)@.len(),
        final(nic)@.mac == old(nic)@.mac,
        final(nic)@.link is None || final(nic)@.link == old(nic)@.link,
        final(state).outgoing_frame@ == old(state).outgoing_frame@,
        touches_only_link(old(nic)@, old(medium)@, final(medium)@),
        r matches TransmitAction::Done(res) ==> 1 <= final(state).attempts <= MAX_ATTEMPTS
            && !final(state).active && (res is Ok <==> final(state).transmit_succeeding) && (res is Err
            ==> res == Err::<TransmitStatus, TransmitStatus>(TransmitStatus::ExcessiveCollisions)
            && final(state).attempts == MAX_ATTEMPTS),
        r matches TransmitAction::Backoff(w) ==> 1 <= final(state).attempts < MAX_ATTEMPTS && w
            == final(state).backoff_time,
        !old(state).active ==> r == TransmitAction::Idle && final(nic)@ == old(nic)@
            && final(medium)@ == old(medium)@ && !final(state).active && final(state).attempts
            == old(state).attempts,
        old(state).active && !old(nic)@.transmitting && old(state).backoff_time > 0 ==> r
            == TransmitAction::Waiting && final(nic)@ == old(nic)@ && final(medium)@ == old(
            medium,
        )@ && final(state).active && final(state).attempts == old(state).attempts
            && final(state).backoff_time == old(state).backoff_time - 1,
        old(state).active && (old(nic)@.transmitting || old(state).backoff_time == 0) ==> ({
            let cur = if old(nic)@.transmitting {
                old(state).current_byte as int
            } else {
                0
            };
            let (s1, ms1) = transmit_effect(
                NicState { transmitting: true, ..old(nic)@ },
                old(medium)@,
                old(state).outgoing_frame@[cur],
            );
            &&& final(medium)@ == ms1
            &&& if receiving(old(nic)@, old(medium)@) {
                &&& final(nic)@ == (NicState { transmitting: false, ..s1 })
                &&& final(state).attempts == old(state).attempts + 1
                &&& !final(state).transmit_succeeding
                &&& if final(state).attempts == MAX_ATTEMPTS {
                    &&& r == TransmitAction::Done(
                        Err::<TransmitStatus, TransmitStatus>(TransmitStatus::ExcessiveCollisions),
                    )
                    &&& !final(state).active
                } else {
                    &&& r == TransmitAction::Backoff(final(state).backoff_time)
                    &&& final(state).active
                    &&& final(state).backoff_time % 512 == 0
                    &&& final(state).backoff_time / 512 < backoff_limit(final(state).attempts as nat)
                }
            } else if cur + 1 < old(state).outgoing_frame@.len() {
                &&& r == TransmitAction::Sending
                &&& final(nic)@ == (NicState { transmitting: true, ..s1 })
                &&& final(state).current_byte == cur + 1
                &&& final(state).attempts == old(state).attempts
                &&& final(state).active
            } else {
                &&& r == TransmitAction::Done(Ok::<TransmitStatus, TransmitStatus>(TransmitStatus::Success))
                &&& final(nic)@ == (NicState { transmitting: false, ..s1 })
                &&& final(state).attempts == old(state).attempts + 1
                &&& final(state).transmit_succeeding
                &&& !final(state).active
            }
        }),
{
    if !state.active {
        return TransmitAction::Idle;
    }
    if !nic.transmitting() {
        if state.backoff_time > 0 {
            state.backoff_time = state.backoff_time - 1;
            return TransmitAction::Waiting;
        }
        state.current_byte = 0;
        state.last_byte = state.outgoing_frame.len();
        state.transmit_succeeding = true;
        state.new_collision = false;
        nic.set_transmitting(true);
    }
    state.watch_for_collision(nic, medium);
    state.byte_transmitter(nic, medium);
    if nic.transmitting() {
        return TransmitAction::Sending;
    }
    state.attempts = state.attempts + 1;
    if state.transmit_succeeding {
        state.active = false;
        return TransmitAction::Done(Ok(TransmitStatus::Success));
    }
    if state.attempts >= MAX_ATTEMPTS {
        state.active = false;
        return TransmitAction::Done(Err(TransmitStatus::ExcessiveCollisions));
    }
    let k = backoff_slots(state.attempts);
    assert(k < 1024);
    state.backoff_time = k * 512;
    proof {
        assert(state.backoff_time % 512 == 0 && state.backoff_time / 512 == k) by (nonlinear_arith)
            requires
                state.backoff_time == k * 512,
        ;
    }
    TransmitAction::Backoff(state.backoff_time)
}

/// The bytes queued for a NIC in state `s`: the whole incoming pipe, or
/// nothing when it is not connected.
pub open spec fn queued_for(s: NicState, ms: Seq<PipeState>) -> Seq<u8> {
    match s.link {
        Some((tx, rx)) => ms[rx as int].queue,
        None => Seq::empty(),
    }
}

/// The pipes after a NIC in state `s` has taken everything queued for it.
pub open spec fn drained(s: NicState, ms: Seq<PipeState>) -> Seq<PipeState> {
    match s.link {
        Some((tx, rx)) => ms.update(
            rx as int,
            PipeState {
                queue: Seq::empty(),
                delivered: ms[rx as int].delivered + ms[rx as int].queue,
                ..ms[rx as int]
            },
        ),
        None => ms,
    }
}

/// Receives one frame: takes bytes from the wire while a carrier is sensed,
/// then checks what was captured. A station recognizes frames sent to `own`
/// or to the broadcast address, or every frame where `accept_all`. A capture
/// shorter than `MIN_FRAME_SIZE` is a `FrameCheckError`, after which the
/// caller may receive again once more bytes have arrived.
pub fn receive_frame(
    nic: &mut NIC,
    state: &mut ReceiveState,
    medium: &mut Medium,
    own: &MacAddr,
    accept_all: bool,
) -> (r: Result<ReceiveStatus, ReceiveStatus>)
    requires
        old(medium).wf(),
        old(nic).wf_in(old(medium)),
    ensures
        final(medium).wf(),
        final(nic).wf_in(final(medium)),
        final(nic)@ == old(nic)@,
        final(medium)@ == drained(old(nic)@, old(medium)@),
        final(state).incoming_frame@ == queued_for(old(nic)@, old(medium)@),
        !final(state).receiving,
        final(state).receive_succeeding == r is Ok,
        receive_outcome(r, queued_for(old(nic)@, old(medium)@), own@, accept_all),
{
    let ghost s0 = nic@;
    let ghost m0 = medium@;
    let ghost q0 = queued_for(s0, m0);
    state.receiving = true;
    let mut frame: Vec<u8> = Vec::new();
    proof {
        if let Some((tx, rx)) = s0.link {
            assert(m0[rx as int].queue.len() <= LINK_CAPACITY);
            assert(q0.subrange(0, q0.len() as int) =~= q0);
            assert(m0[rx as int].delivered + frame@ =~= m0[rx as int].delivered);
            assert(m0.update(rx as int, PipeState {
                queue: q0.subrange(0, q0.len() as int),
                delivered: m0[rx as int].delivered + frame@,
                ..m0[rx as int]
            }) =~= m0);
        }
    }
    while nic.is_receiving(medium)
        invariant
            medium.wf(),
            nic.wf_in(medium),
            nic@ == s0,
            m0.len() == medium@.len(),
            q0 == queued_for(s0, m0),
            q0.len() <= LINK_CAPACITY,
            frame@.len() <= q0.len(),
            frame@ == q0.take(frame@.len() as int),
            s0.link matches Some((tx, rx)) ==> medium@ == m0.update(
                rx as int,
                PipeState {
                    queue: q0.subrange(frame@.len() as int, q0.len() as int),
                    delivered: m0[rx as int].delivered + frame@,
                    ..m0[rx as int]
                },
            ),
            s0.link is None ==> medium@ == m0 && frame@.len() == 0,
        decreases q0.len() - frame@.len(),
    {
        let ghost k = frame@.len() as int;
        match nic.recieve(medium) {
            Some(b) => {
                frame.push(b);
                proof {
                    let (tx, rx) = s0.link.unwrap();
                    assert(q0.subrange(k, q0.len() as int)[0] == q0[k]);
                    assert(frame@ =~= q0.take(k + 1));
                    assert(q0.subrange(k, q0.len() as int).subrange(1, q0.len() - k) =~= q0.subrange(k + 1, q0.len() as int));
                    assert(m0[rx as int].delivered + q0.take(k).push(q0[k]) =~= m0[rx as int].delivered + frame@);
                    assert(medium@ =~= m0.update(
                        rx as int,
                        PipeState {
                            queue: q0.subrange(k + 1, q0.len() as int),
                            delivered: m0[rx as int].delivered + frame@,
                            ..m0[rx as int]
                        },
                    ));
                }
            },
            None => {},
        }
    }
    proof {
        if let Some((tx, rx)) = s0.link {
            assert(frame@ =~= q0);
            assert(q0.subrange(q0.len() as int, q0.len() as int) =~= Seq::<u8>::empty());
            assert(medium@ =~= drained(s0, m0));
        } else {
            assert(frame@ =~= q0);
        }
    }
    state.incoming_frame = frame;
    state.receiving = false;
    let r = decapsulate_frame(&state.incoming_frame, own, accept_all);
    state.receive_succeeding = r.is_ok();
    r
}

/// A frame sent over a point-to-point link whose outgoing pipe was empty,
/// with the payload's length in its type/length field and a destination that
/// the receiver recognizes, is received with the addresses, type/length and
/// payload it was sent with.
pub proof fn lemma_point_to_point_delivery(
    ms: Seq<PipeState>,
    tx: usize,
    rx: usize,
    receiver: NicState,
    dest: Seq<u8>,
    src: Seq<u8>,
    type_len: u16,
    payload: Seq<u8>,
    accept_all: bool,
    r: Result<ReceiveStatus, ReceiveStatus>,
)
    requires
        tx < ms.len(),
        receiver.link == Some((rx, tx)),
        ms[tx as int].queue.len() == 0,
        dest.len() == 6,
        src.len() == 6,
        type_len as nat == payload.len(),
        type_len < MIN_TYPE_VAL,
        recognized(dest, receiver.mac@, accept_all),
        receive_outcome(
            r,
            queued_for(
                receiver,
                ms.update(
                    tx as int,
                    after_send_all(ms[tx as int], wire_frame(dest, src, type_len, payload)),
                ),
            ),
            receiver.mac@,
            accept_all,
        ),
    ensures
        r matches Ok(ReceiveStatus::Received(d, s, t, p)) && d@ == dest && s@ == src && t
            == type_len && p@ == payload,
{
    let f = wire_frame(dest, src, type_len, payload);
    let ms1 = ms.update(tx as int, after_send_all(ms[tx as int], f));
    assert(queued_for(receiver, ms1) =~= f);
    lemma_frame_round_trip(dest, src, type_len, payload, receiver.mac@, accept_all);
}

} // verus!
