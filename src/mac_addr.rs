//! Six-byte hardware addresses.
use crate::random::random_octets;
use vstd::prelude::*;

verus! {

/// A hardware address. Equality is byte equality.
#[derive(Clone, Copy, Debug, Eq)]
pub struct MacAddr(pub [u8; 6]);

impl View for MacAddr {
    type V = Seq<u8>;

    open spec fn view(&self) -> Seq<u8> {
        self.0@
    }
}

/// The six bytes of the broadcast address.
pub open spec fn broadcast_bytes() -> Seq<u8> {
    seq![0xffu8, 0xffu8, 0xffu8, 0xffu8, 0xffu8, 0xffu8]
}

/// The address read as a 48-bit big-endian number.
pub open spec fn mac_key(a: Seq<u8>) -> u64 {
    ((a[0] as u64) * 0x100_0000_0000 + (a[1] as u64) * 0x1_0000_0000 + (a[2] as u64) * 0x100_0000
        + (a[3] as u64) * 0x1_0000 + (a[4] as u64) * 0x100 + (a[5] as u64)) as u64
}

impl MacAddr {
    /// An address drawn at random.
    pub fn random() -> (r: MacAddr) {
        MacAddr(random_octets())
    }

    /// The broadcast address, six 0xFF bytes.
    pub fn broadcast() -> (r: MacAddr)
        ensures
            r@ == broadcast_bytes(),
    {
        let r = MacAddr([0xff, 0xff, 0xff, 0xff, 0xff, 0xff]);
        assert(r@ =~= broadcast_bytes());
        r
    }

    /// The address's bytes.
    pub fn octets(&self) -> (r: [u8; 6])
        ensures
            r@ == self@,
    {
        self.0
    }

    /// Whether this is the broadcast address.
    pub fn is_broadcast(&self) -> (r: bool)
        ensures
            r == (self@ == broadcast_bytes()),
    {
        let r = self.0[0] == 0xff && self.0[1] == 0xff && self.0[2] == 0xff && self.0[3] == 0xff
            && self.0[4] == 0xff && self.0[5] == 0xff;
        proof {
            if r {
                assert(self@ =~= broadcast_bytes());
            }
        }
        r
    }

    /// The address as a 48-bit number, the first byte most significant.
    pub fn key(&self) -> (r: u64)
        ensures
            r == mac_key(self@),
    {
        let a = self.0;
        (a[0] as u64) * 0x100_0000_0000 + (a[1] as u64) * 0x1_0000_0000 + (a[2] as u64)
            * 0x100_0000 + (a[3] as u64) * 0x1_0000 + (a[4] as u64) * 0x100 + (a[5] as u64)
    }
}

impl PartialEq for MacAddr {
    fn eq(&self, other: &MacAddr) -> (r: bool) {
        let r = self.0[0] == other.0[0] && self.0[1] == other.0[1] && self.0[2] == other.0[2]
            && self.0[3] == other.0[3] && self.0[4] == other.0[4] && self.0[5] == other.0[5];
        proof {
            if r {
                assert(self@ =~= other@);
            }
        }
        r
    }
}

impl vstd::std_specs::cmp::PartialEqSpecImpl for MacAddr {
    open spec fn obeys_eq_spec() -> bool {
        true
    }

    open spec fn eq_spec(&self, other: &MacAddr) -> bool {
        self@ == other@
    }
}

impl Default for MacAddr {
    /// An address drawn at random.
    fn default() -> (r: MacAddr)
        ensures
            r@.len() == 6,
    {
        MacAddr::random()
    }
}

impl From<[u8; 6]> for MacAddr {
    fn from(bytes: [u8; 6]) -> (r: MacAddr) {
        MacAddr(bytes)
    }
}

impl vstd::std_specs::convert::FromSpecImpl<[u8; 6]> for MacAddr {
    open spec fn obeys_from_spec() -> bool {
        true
    }

    open spec fn from_spec(bytes: [u8; 6]) -> MacAddr {
        MacAddr(bytes)
    }
}

} // verus!
