//! The frame check sequence: a reflected 32-bit CRC with one fixed model.
use vstd::prelude::*;

verus! {

/// Generator polynomial, in its non-reflected form.
pub const CRC_POLYNOMIAL: u32 = 0x741b_8cd7;

/// Register contents before the first byte is fed in.
pub const CRC_INITIAL: u32 = 0xffff_ffff;

/// Value XORed into the reflected register at the end.
pub const CRC_FINAL_XOR: u32 = 0;

/// `b` with the order of its eight bits reversed.
pub open spec fn rev8(b: u8) -> u8 {
    ((b & 0x01) << 7u8) | ((b & 0x02) << 5u8) | ((b & 0x04) << 3u8) | ((b & 0x08) << 1u8) | ((b
        & 0x10) >> 1u8) | ((b & 0x20) >> 3u8) | ((b & 0x40) >> 5u8) | ((b & 0x80) >> 7u8)
}

/// `x` with the order of its 32 bits reversed.
pub open spec fn rev32(x: u32) -> u32 {
    ((rev8(x as u8) as u32) << 24u32) | ((rev8((x >> 8u32) as u8) as u32) << 16u32) | ((rev8(
        (x >> 16u32) as u8,
    ) as u32) << 8u32) | (rev8((x >> 24u32) as u8) as u32)
}

/// One shift of the register: a set bit that leaves on the left folds the
/// polynomial back in.
pub open spec fn shift_step(r: u32) -> u32 {
    if r & 0x8000_0000u32 != 0 {
        (r << 1u32) ^ CRC_POLYNOMIAL
    } else {
        r << 1u32
    }
}

/// `n` shifts of the register.
pub open spec fn shift_steps(r: u32, n: nat) -> u32
    decreases n,
{
    if n == 0 {
        r
    } else {
        shift_step(shift_steps(r, (n - 1) as nat))
    }
}

/// The register after byte `b` (reflected first) is fed in, most significant bit first.
pub open spec fn feed_byte(r: u32, b: u8) -> u32 {
    shift_steps(r ^ ((rev8(b) as u32) << 24u32), 8)
}

/// The register after every byte of `s` is fed in, in order.
pub open spec fn crc_register(s: Seq<u8>) -> u32
    decreases s.len(),
{
    if s.len() == 0 {
        CRC_INITIAL
    } else {
        feed_byte(crc_register(s.drop_last()), s.last())
    }
}

/// The checksum of `s`: the final register, reflected, XORed with the final value.
pub open spec fn crc(s: Seq<u8>) -> u32 {
    rev32(crc_register(s)) ^ CRC_FINAL_XOR
}

/// The four bytes of `x`, least significant first.
pub open spec fn le_bytes(x: u32) -> Seq<u8> {
    seq![x as u8, (x >> 8u32) as u8, (x >> 16u32) as u8, (x >> 24u32) as u8]
}

fn reverse_byte(b: u8) -> (r: u8)
    ensures
        r == rev8(b),
{
    ((b & 0x01) << 7u8) | ((b & 0x02) << 5u8) | ((b & 0x04) << 3u8) | ((b & 0x08) << 1u8) | ((b
        & 0x10) >> 1u8) | ((b & 0x20) >> 3u8) | ((b & 0x40) >> 5u8) | ((b & 0x80) >> 7u8)
}

fn reverse_word(x: u32) -> (r: u32)
    ensures
        r == rev32(x),
{
    let b0 = reverse_byte(x as u8) as u32;
    let b1 = reverse_byte((x >> 8u32) as u8) as u32;
    let b2 = reverse_byte((x >> 16u32) as u8) as u32;
    let b3 = reverse_byte((x >> 24u32) as u8) as u32;
    (b0 << 24u32) | (b1 << 16u32) | (b2 << 8u32) | b3
}

/// Computes the frame check sequence of `bytes`.
pub fn calculate_crc(bytes: &[u8]) -> (r: u32)
    ensures
        r == crc(bytes@),
{
    let mut reg: u32 = CRC_INITIAL;
    let mut i: usize = 0;
    while i < bytes.len()
        invariant
            i <= bytes.len(),
            reg == crc_register(bytes@.subrange(0, i as int)),
        decreases bytes.len() - i,
    {
        let data = reverse_byte(bytes[i]);
        let start = reg ^ ((data as u32) << 24u32);
        reg = start;
        let mut k: usize = 0;
        while k < 8
            invariant
                k <= 8,
                reg == shift_steps(start, k as nat),
            decreases 8 - k,
        {
            if reg & 0x8000_0000u32 != 0 {
                reg = (reg << 1u32) ^ CRC_POLYNOMIAL;
            } else {
                reg = reg << 1u32;
            }
            k += 1;
        }
        proof {
            assert(bytes@.subrange(0, i + 1).drop_last() =~= bytes@.subrange(0, i as int));
        }
        i += 1;
    }
    proof {
        assert(bytes@.subrange(0, bytes@.len() as int) =~= bytes@);
    }
    reverse_word(reg) ^ CRC_FINAL_XOR
}

proof fn lemma_crc_register_push(s: Seq<u8>, b: u8)
    ensures
        crc_register(s.push(b)) == feed_byte(crc_register(s), b),
{
    assert(s.push(b).drop_last() =~= s);
}

/// With the top byte clear, shifting never folds in the polynomial.
proof fn lemma_shift_steps_clear(x: u32, n: nat)
    requires
        x & 0xff00_0000u32 == 0,
        n <= 8,
    ensures
        shift_steps(x, n) == x << (n as u32),
    decreases n,
{
    if n == 0 {
        assert(x << 0u32 == x) by (bit_vector);
    } else {
        lemma_shift_steps_clear(x, (n - 1) as nat);
        let k: u32 = (n - 1) as u32;
        assert((x << k) & 0x8000_0000u32 == 0 && (x << k) << 1u32 == x << ((k + 1) as u32))
            by (bit_vector)
            requires
                x & 0xff00_0000u32 == 0,
                k < 8,
        ;
    }
}

/// Feeding the byte whose reflection equals the register's top byte clears it.
proof fn lemma_feed_cancels(r: u32, b: u8)
    requires
        rev8(b) == (r >> 24u32) as u8,
    ensures
        feed_byte(r, b) == r << 8u32,
{
    let c = rev8(b);
    let x = r ^ ((c as u32) << 24u32);
    assert(x & 0xff00_0000u32 == 0 && x << 8u32 == r << 8u32) by (bit_vector)
        requires
            c == (r >> 24u32) as u8,
            x == r ^ ((c as u32) << 24u32),
    ;
    lemma_shift_steps_clear(x, 8);
}

/// Appending the checksum of a message, least significant byte first, gives a
/// sequence whose checksum is zero.
pub proof fn lemma_crc_trailer_zero(m: Seq<u8>)
    ensures
        crc(m + le_bytes(crc(m))) == 0,
{
    let r = crc_register(m);
    let c = crc(m);
    let t = le_bytes(c);
    assert(c == rev32(r)) by (bit_vector)
        requires
            c == rev32(r) ^ 0u32,
    ;
    assert(rev8(c as u8) == (r >> 24u32) as u8 && rev8((c >> 8u32) as u8) == ((r << 8u32)
        >> 24u32) as u8 && rev8((c >> 16u32) as u8) == ((r << 16u32) >> 24u32) as u8 && rev8(
        (c >> 24u32) as u8,
    ) == ((r << 24u32) >> 24u32) as u8) by (bit_vector)
        requires
            c == rev32(r),
    ;
    let m1 = m.push(t[0]);
    let m2 = m1.push(t[1]);
    let m3 = m2.push(t[2]);
    let m4 = m3.push(t[3]);
    lemma_crc_register_push(m, t[0]);
    lemma_feed_cancels(r, t[0]);
    assert((r << 8u32) << 8u32 == r << 16u32 && (r << 16u32) << 8u32 == r << 24u32 && (r
        << 24u32) << 8u32 == 0) by (bit_vector);
    lemma_crc_register_push(m1, t[1]);
    lemma_feed_cancels(r << 8u32, t[1]);
    lemma_crc_register_push(m2, t[2]);
    lemma_feed_cancels(r << 16u32, t[2]);
    lemma_crc_register_push(m3, t[3]);
    lemma_feed_cancels(r << 24u32, t[3]);
    assert(m4 =~= m + t);
    assert(rev32(0u32) ^ 0u32 == 0) by (bit_vector);
}

} // verus!
