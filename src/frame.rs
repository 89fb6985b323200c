//! Frames on the wire: encapsulation with padding and frame check sequence,
//! and the checks that a receiver makes before it hands a frame up.
use crate::crc::{calculate_crc, crc, le_bytes, lemma_crc_trailer_zero};
use crate::header::{be16, header_bytes, EthernetHeader, ETHERNET_HEADER_SIZE, MIN_TYPE_VAL};
use crate::mac_addr::{broadcast_bytes, MacAddr};
use vstd::prelude::*;

verus! {

/// First byte of every frame.
pub const FLAG: u8 = 0xab;

/// Value of each padding byte.
pub const PAD_BYTE: u8 = 0x55;

/// Size of the frame check sequence.
pub const CRC_SIZE: usize = 4;

/// Header, payload, padding and check sequence together are at least this long.
pub const MIN_FRAME_SIZE: usize = 64;

/// Longest frame of the basic format, header and check sequence included.
pub const MAX_BASIC_FRAME_SIZE: usize = 1518;

/// Longest payload that a receiver hands up.
pub const MAX_ENVELOPE_FRAME_SIZE: usize = 2000;

/// Longest payload that can be encapsulated without the frame's length overflowing.
pub const MAX_PAYLOAD_SIZE: usize = usize::MAX - 83;

/// How a transmission ended.
#[derive(Clone, Copy, Debug, PartialEq, Eq, Structural)]
pub enum TransmitStatus {
    Success,
    ExcessiveCollisions,
}

/// How a reception ended: a frame handed up, or why none was.
#[derive(Clone, Debug, PartialEq, Eq)]
pub enum ReceiveStatus {
    Received(MacAddr, MacAddr, u16, Vec<u8>),
    FrameTooLong,
    FrameCheckError,
}

/// Number of padding bytes for a payload of `n` bytes.
pub open spec fn pad_len(n: nat) -> nat {
    if n + 18 >= 64 {
        0
    } else {
        (64 - 18 - n) as nat
    }
}

/// Flag, header, payload and padding: what the check sequence covers.
pub open spec fn frame_body(dest: Seq<u8>, src: Seq<u8>, type_len: u16, payload: Seq<u8>) -> Seq<
    u8,
> {
    seq![FLAG] + header_bytes(dest, src, type_len) + payload + Seq::new(
        pad_len(payload.len()),
        |i: int| PAD_BYTE,
    )
}

/// The whole frame: the body followed by its check sequence, least significant byte first.
pub open spec fn wire_frame(dest: Seq<u8>, src: Seq<u8>, type_len: u16, payload: Seq<u8>) -> Seq<
    u8,
> {
    frame_body(dest, src, type_len, payload) + le_bytes(
        crc(frame_body(dest, src, type_len, payload)),
    )
}

/// Whether a station with address `own` takes a frame sent to `dest`.
pub open spec fn recognized(dest: Seq<u8>, own: Seq<u8>, accept_all: bool) -> bool {
    accept_all || dest == broadcast_bytes() || dest == own
}

pub open spec fn frame_dest(frame: Seq<u8>) -> Seq<u8> {
    frame.subrange(1, 7)
}

pub open spec fn frame_src(frame: Seq<u8>) -> Seq<u8> {
    frame.subrange(7, 13)
}

pub open spec fn frame_type_len(frame: Seq<u8>) -> u16 {
    be16(frame[13], frame[14])
}

/// The payload after padding is removed: a type value keeps everything after
/// the header; a length keeps that many bytes, or all there are.
pub open spec fn frame_payload(frame: Seq<u8>) -> Seq<u8> {
    let rest = frame.subrange(15, frame.len() as int);
    let t = frame_type_len(frame);
    if t >= MIN_TYPE_VAL || t as int >= rest.len() {
        rest
    } else {
        rest.take(t as int)
    }
}

/// Whether a frame passes the size, check sequence and address checks.
pub open spec fn frame_accepted(frame: Seq<u8>, own: Seq<u8>, accept_all: bool) -> bool {
    &&& frame.len() >= MIN_FRAME_SIZE
    &&& crc(frame) == 0
    &&& recognized(frame_dest(frame), own, accept_all)
}

/// Whether `r` hands up exactly the addresses, type/length and payload of `frame`.
pub open spec fn delivers(r: Result<ReceiveStatus, ReceiveStatus>, frame: Seq<u8>) -> bool {
    r matches Ok(ReceiveStatus::Received(d, s, t, p)) && d@ == frame_dest(frame) && s@ == frame_src(
        frame,
    ) && t == frame_type_len(frame) && p@ == frame_payload(frame)
}

/// The result of receiving `frame` at a station with address `own`.
pub open spec fn receive_outcome(
    r: Result<ReceiveStatus, ReceiveStatus>,
    frame: Seq<u8>,
    own: Seq<u8>,
    accept_all: bool,
) -> bool {
    if !frame_accepted(frame, own, accept_all) {
        r == Err::<ReceiveStatus, ReceiveStatus>(ReceiveStatus::FrameCheckError)
    } else if frame_payload(frame).len() > MAX_ENVELOPE_FRAME_SIZE {
        r == Err::<ReceiveStatus, ReceiveStatus>(ReceiveStatus::FrameTooLong)
    } else {
        delivers(r, frame)
    }
}

/// Computes the checksum of a frame.
pub trait ErrorControl {
    fn fcs(frame: &Vec<u8>) -> (r: u32)
        ensures
            r == crc(frame@),
    {
        calculate_crc(frame.as_slice())
    }
}

fn push_all(out: &mut Vec<u8>, bytes: &[u8])
    requires
        old(out)@.len() + bytes@.len() <= usize::MAX,
    ensures
        final(out)@ == old(out)@ + bytes@,
{
    let mut i: usize = 0;
    while i < bytes.len()
        invariant
            i <= bytes.len(),
            out@ == old(out)@ + bytes@.subrange(0, i as int),
            old(out)@.len() + bytes@.len() <= usize::MAX,
        decreases bytes.len() - i,
    {
        out.push(bytes[i]);
        assert(out@ =~= old(out)@ + bytes@.subrange(0, i + 1));
        i += 1;
    }
    assert(bytes@.subrange(0, bytes@.len() as int) =~= bytes@);
}

/// Builds the frame that carries `payload` from `src` to `dest`: flag, header,
/// payload, padding up to the minimum size, and the check sequence.
pub fn encapsulate_frame(dest: &MacAddr, src: &MacAddr, type_len: u16, payload: &Vec<u8>) -> (r:
    Vec<u8>)
    requires
        payload@.len() <= MAX_PAYLOAD_SIZE,
    ensures
        r@ == wire_frame(dest@, src@, type_len, payload@),
{
    let used = ETHERNET_HEADER_SIZE + CRC_SIZE + payload.len();
    let pad_size: usize = if used >= MIN_FRAME_SIZE {
        0
    } else {
        MIN_FRAME_SIZE - used
    };
    let header = EthernetHeader::new(src, dest, type_len);
    let header_bytes = header.to_be_bytes();
    let mut out: Vec<u8> = Vec::new();
    out.push(FLAG);
    push_all(&mut out, header_bytes.as_slice());
    push_all(&mut out, payload.as_slice());
    let ghost before_pad = out@;
    let mut i: usize = 0;
    while i < pad_size
        invariant
            i <= pad_size,
            pad_size <= 64,
            before_pad.len() == 15 + payload@.len(),
            payload@.len() <= MAX_PAYLOAD_SIZE,
            out@ == before_pad + Seq::new(i as nat, |j: int| PAD_BYTE),
        decreases pad_size - i,
    {
        out.push(PAD_BYTE);
        assert(out@ =~= before_pad + Seq::new((i + 1) as nat, |j: int| PAD_BYTE));
        i += 1;
    }
    assert(out@ =~= frame_body(dest@, src@, type_len, payload@));
    let fcs = calculate_crc(out.as_slice());
    let trailer = [
        #[verifier::truncate]
        (fcs as u8),
        #[verifier::truncate]
        ((fcs >> 8u32) as u8),
        #[verifier::truncate]
        ((fcs >> 16u32) as u8),
        #[verifier::truncate]
        ((fcs >> 24u32) as u8),
    ];
    assert(trailer@ =~= le_bytes(fcs));
    push_all(&mut out, trailer.as_slice());
    out
}

pub(crate) fn copy_range(v: &Vec<u8>, lo: usize, hi: usize) -> (r: Vec<u8>)
    requires
        lo <= hi <= v@.len(),
    ensures
        r@ == v@.subrange(lo as int, hi as int),
{
    let mut r: Vec<u8> = Vec::new();
    let mut i: usize = lo;
    while i < hi
        invariant
            lo <= i <= hi,
            hi <= v@.len(),
            r@ == v@.subrange(lo as int, i as int),
        decreases hi - i,
    {
        r.push(v[i]);
        assert(r@ =~= v@.subrange(lo as int, i + 1));
        i += 1;
    }
    r
}

/// Whether a station with address `own` (or one that takes every frame, where
/// `accept_all`) takes a frame sent to `dest`.
pub fn recognize_address(dest: &MacAddr, own: &MacAddr, accept_all: bool) -> (r: bool)
    ensures
        r == recognized(dest@, own@, accept_all),
{
    accept_all || dest.is_broadcast() || dest.eq(own)
}

/// Checks a received frame and extracts its addresses, type/length and payload.
///
/// An undersized frame, a bad check sequence or a foreign destination is a
/// `FrameCheckError`; a payload over the envelope size is `FrameTooLong`.
pub fn decapsulate_frame(frame: &Vec<u8>, own: &MacAddr, accept_all: bool) -> (r: Result<
    ReceiveStatus,
    ReceiveStatus,
>)
    ensures
        receive_outcome(r, frame@, own@, accept_all),
{
    if frame.len() < MIN_FRAME_SIZE {
        return Err(ReceiveStatus::FrameCheckError);
    }
    if calculate_crc(frame.as_slice()) != 0 {
        return Err(ReceiveStatus::FrameCheckError);
    }
    let dest = MacAddr([frame[1], frame[2], frame[3], frame[4], frame[5], frame[6]]);
    assert(dest@ =~= frame_dest(frame@));
    if !recognize_address(&dest, own, accept_all) {
        return Err(ReceiveStatus::FrameCheckError);
    }
    let src = MacAddr([frame[7], frame[8], frame[9], frame[10], frame[11], frame[12]]);
    assert(src@ =~= frame_src(frame@));
    let type_len = ((frame[13] as u16) * 256 + (frame[14] as u16)) as u16;
    let rest = frame.len() - 15;
    let end = if type_len >= MIN_TYPE_VAL || type_len as usize >= rest {
        frame.len()
    } else {
        15 + type_len as usize
    };
    let data = copy_range(frame, 15, end);
    assert(data@ =~= frame_payload(frame@));
    if data.len() > MAX_ENVELOPE_FRAME_SIZE {
        return Err(ReceiveStatus::FrameTooLong);
    }
    Ok(ReceiveStatus::Received(dest, src, type_len, data))
}

/// Every encapsulated frame is at least the minimum size and its check sequence is zero.
pub proof fn lemma_encapsulated_frame_checks(
    dest: Seq<u8>,
    src: Seq<u8>,
    type_len: u16,
    payload: Seq<u8>,
)
    requires
        dest.len() == 6,
        src.len() == 6,
    ensures
        wire_frame(dest, src, type_len, payload).len() >= MIN_FRAME_SIZE,
        crc(wire_frame(dest, src, type_len, payload)) == 0,
{
    lemma_crc_trailer_zero(frame_body(dest, src, type_len, payload));
}

/// A frame whose type/length field holds the payload's length, sent to an
/// address the receiver recognizes, is handed up with the addresses,
/// type/length and payload it was built from.
pub proof fn lemma_frame_round_trip(
    dest: Seq<u8>,
    src: Seq<u8>,
    type_len: u16,
    payload: Seq<u8>,
    own: Seq<u8>,
    accept_all: bool,
)
    requires
        dest.len() == 6,
        src.len() == 6,
        type_len as nat == payload.len(),
        type_len < MIN_TYPE_VAL,
        recognized(dest, own, accept_all),
    ensures
        frame_accepted(wire_frame(dest, src, type_len, payload), own, accept_all),
        frame_dest(wire_frame(dest, src, type_len, payload)) == dest,
        frame_src(wire_frame(dest, src, type_len, payload)) == src,
        frame_type_len(wire_frame(dest, src, type_len, payload)) == type_len,
        frame_payload(wire_frame(dest, src, type_len, payload)) == payload,
{
    let body = frame_body(dest, src, type_len, payload);
    let f = wire_frame(dest, src, type_len, payload);
    let h = header_bytes(dest, src, type_len);
    lemma_encapsulated_frame_checks(dest, src, type_len, payload);
    crate::header::lemma_header_round_trip(dest, src, type_len);
    assert(f.subrange(1, 15) =~= h);
    assert(frame_dest(f) =~= h.subrange(0, 6));
    assert(frame_src(f) =~= h.subrange(6, 12));
    assert(f[13] == h[12] && f[14] == h[13]);
    let rest = f.subrange(15, f.len() as int);
    assert(rest.len() >= payload.len() + 4);
    assert(rest.take(type_len as int) =~= payload);
}

} // verus!
