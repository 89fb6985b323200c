//! The 14-byte Ethernet header and the type/length field.
use crate::mac_addr::MacAddr;
use vstd::prelude::*;

verus! {

/// Size of the header on the wire.
pub const ETHERNET_HEADER_SIZE: usize = 14;

/// Smallest value of the type/length field that names a type; smaller values are a length.
pub const MIN_TYPE_VAL: u16 = 1536;

/// The payload protocols named in the type field.
#[derive(Clone, Copy, Debug, PartialEq, Eq, Structural)]
pub enum EtherType {
    IPv4,
    Arp,
    IPv6,
}

/// The code of each protocol in the type field.
pub open spec fn ether_type_code(t: EtherType) -> u16 {
    match t {
        EtherType::IPv4 => 0x0800,
        EtherType::Arp => 0x0806,
        EtherType::IPv6 => 0x86dd,
    }
}

impl EtherType {
    /// The code of this protocol in the type field.
    pub fn code(self) -> (r: u16)
        ensures
            r == ether_type_code(self),
    {
        match self {
            EtherType::IPv4 => 0x0800,
            EtherType::Arp => 0x0806,
            EtherType::IPv6 => 0x86dd,
        }
    }

    /// The protocol with code `value`, if any.
    pub fn from_code(value: u16) -> (r: Option<EtherType>)
        ensures
            r matches Some(t) ==> ether_type_code(t) == value,
            r is None <==> (value != 0x0800 && value != 0x0806 && value != 0x86dd),
    {
        if value == 0x0800 {
            Some(EtherType::IPv4)
        } else if value == 0x0806 {
            Some(EtherType::Arp)
        } else if value == 0x86dd {
            Some(EtherType::IPv6)
        } else {
            None
        }
    }
}

/// The header's bytes on the wire: destination, source, then type/length big-endian.
pub open spec fn header_bytes(dest: Seq<u8>, src: Seq<u8>, type_len: u16) -> Seq<u8> {
    dest + src + seq![(type_len >> 8u16) as u8, type_len as u8]
}

/// The big-endian number in two bytes.
pub open spec fn be16(hi: u8, lo: u8) -> u16 {
    ((hi as u16) * 256 + (lo as u16)) as u16
}

/// The addressing part of a frame.
#[derive(Clone, Copy, Debug)]
pub struct EthernetHeader {
    pub destination: MacAddr,
    pub source: MacAddr,
    pub type_len: u16,
}

impl EthernetHeader {
    pub fn new(source: &MacAddr, destination: &MacAddr, type_len: u16) -> (r: EthernetHeader)
        ensures
            r.source == *source,
            r.destination == *destination,
            r.type_len == type_len,
    {
        EthernetHeader { destination: *destination, source: *source, type_len }
    }

    pub fn src(&self) -> (r: &MacAddr)
        ensures
            *r == self.source,
    {
        &self.source
    }

    pub fn dest(&self) -> (r: &MacAddr)
        ensures
            *r == self.destination,
    {
        &self.destination
    }

    pub fn type_len(&self) -> (r: u16)
        ensures
            r == self.type_len,
    {
        self.type_len
    }

    /// The header in network byte order.
    pub fn to_be_bytes(self) -> (r: [u8; 14])
        ensures
            r@ == header_bytes(self.destination@, self.source@, self.type_len),
    {
        let d = self.destination.0;
        let s = self.source.0;
        let t = self.type_len;
        let r = [
            d[0],
            d[1],
            d[2],
            d[3],
            d[4],
            d[5],
            s[0],
            s[1],
            s[2],
            s[3],
            s[4],
            s[5],
            (t >> 8u16) as u8,
            t as u8,
        ];
        assert(r@ =~= header_bytes(self.destination@, self.source@, self.type_len));
        r
    }

    /// Reads a header in network byte order.
    pub fn from_be_bytes(bytes: &[u8; 14]) -> (r: Option<EthernetHeader>)
        ensures
            r matches Some(h) && h.destination@ == bytes@.subrange(0, 6) && h.source@
                == bytes@.subrange(6, 12) && h.type_len == be16(bytes@[12], bytes@[13]),
    {
        let destination = MacAddr([bytes[0], bytes[1], bytes[2], bytes[3], bytes[4], bytes[5]]);
        let source = MacAddr([bytes[6], bytes[7], bytes[8], bytes[9], bytes[10], bytes[11]]);
        let type_len = (bytes[12] as u16) * 256 + (bytes[13] as u16);
        assert(destination@ =~= bytes@.subrange(0, 6));
        assert(source@ =~= bytes@.subrange(6, 12));
        Some(EthernetHeader { destination, source, type_len })
    }
}

/// Reading the bytes of a header gives that header back.
pub proof fn lemma_header_round_trip(dest: Seq<u8>, src: Seq<u8>, type_len: u16)
    requires
        dest.len() == 6,
        src.len() == 6,
    ensures
        header_bytes(dest, src, type_len).subrange(0, 6) == dest,
        header_bytes(dest, src, type_len).subrange(6, 12) == src,
        be16(header_bytes(dest, src, type_len)[12], header_bytes(dest, src, type_len)[13])
            == type_len,
{
    let h = header_bytes(dest, src, type_len);
    assert(h.subrange(0, 6) =~= dest);
    assert(h.subrange(6, 12) =~= src);
    let hi = (type_len >> 8u16) as u8;
    let lo = type_len as u8;
    assert(be16(hi, lo) == type_len) by (bit_vector)
        requires
            hi == (type_len >> 8u16) as u8,
            lo == type_len as u8,
    ;
}

} // verus!
