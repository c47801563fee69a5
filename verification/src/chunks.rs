//! The decoded form of a GUID: five fixed-width integer chunks, and its
//! projections to the portable 16-byte layout and to the native structure.

use vstd::prelude::*;

verus! {

/// A 48-bit unsigned integer, stored as a 16-bit high part and a 32-bit low
/// part.
#[allow(non_camel_case_types)]
#[derive(Eq, PartialEq, Ord, PartialOrd, Clone, Copy, Debug)]
pub struct u48 {
    /// The high-order 16 bits of the integer.
    pub hi: u16,
    /// The low-order 32 bits of the integer.
    pub lo: u32,
}

impl u48 {
    /// The mathematical value of the 48-bit integer.
    pub open spec fn as_int(self) -> int {
        self.hi * 0x1_0000_0000 + self.lo
    }

    /// Non-lossy cast of a 48-bit unsigned integer to a 64-bit unsigned
    /// integer.
    pub fn to_u64(self) -> (r: u64)
        ensures
            r == self.as_int(),
    {
        (self.hi as u64) * 0x1_0000_0000 + (self.lo as u64)
    }
}

/// The five chunks of the customary representation of a GUID.
///
/// For the GUID `6B29FC40-CA47-1067-B31D-00DD010662DA` the chunks are
/// `0x6B29FC40`, `0xCA47`, `0x1067`, `0xB31D` and the 48-bit value with high
/// part `0x00DD` and low part `0x010662DA`.
#[derive(Eq, PartialEq, Ord, PartialOrd, Clone, Copy, Debug)]
pub struct Chunks {
    pub chunk1: u32,
    pub chunk2: u16,
    pub chunk3: u16,
    pub chunk4: u16,
    pub chunk5: u48,
}

/// The portable 16-byte layout of a GUID: each chunk serialized big-endian,
/// chunks concatenated in source order.
pub open spec fn guid_bytes(c: Chunks) -> Seq<u8> {
    seq![
        ((c.chunk1 / 0x100_0000) % 0x100) as u8,
        ((c.chunk1 / 0x1_0000) % 0x100) as u8,
        ((c.chunk1 / 0x100) % 0x100) as u8,
        (c.chunk1 % 0x100) as u8,
        ((c.chunk2 / 0x100) % 0x100) as u8,
        (c.chunk2 % 0x100) as u8,
        ((c.chunk3 / 0x100) % 0x100) as u8,
        (c.chunk3 % 0x100) as u8,
        ((c.chunk4 / 0x100) % 0x100) as u8,
        (c.chunk4 % 0x100) as u8,
        ((c.chunk5.hi / 0x100) % 0x100) as u8,
        (c.chunk5.hi % 0x100) as u8,
        ((c.chunk5.lo / 0x100_0000) % 0x100) as u8,
        ((c.chunk5.lo / 0x1_0000) % 0x100) as u8,
        ((c.chunk5.lo / 0x100) % 0x100) as u8,
        (c.chunk5.lo % 0x100) as u8,
    ]
}

/// The structure representing a GUID in memory on the platform that defines
/// a native GUID ABI: three host-order integer members and an 8-byte tail.
#[allow(non_snake_case)]
#[derive(Eq, PartialEq, Clone, Copy, Debug)]
pub struct GUID {
    pub Data1: u32,
    pub Data2: u16,
    pub Data3: u16,
    pub Data4: [u8; 8],
}

impl Chunks {
    /// Serialize the chunks as the portable 16-byte big-endian layout.
    pub fn to_bytes(self) -> (r: [u8; 16])
        ensures
            r@ == guid_bytes(self),
    {
        let r: [u8; 16] = [
            ((self.chunk1 / 0x100_0000) % 0x100) as u8,
            ((self.chunk1 / 0x1_0000) % 0x100) as u8,
            ((self.chunk1 / 0x100) % 0x100) as u8,
            (self.chunk1 % 0x100) as u8,
            ((self.chunk2 / 0x100) % 0x100) as u8,
            (self.chunk2 % 0x100) as u8,
            ((self.chunk3 / 0x100) % 0x100) as u8,
            (self.chunk3 % 0x100) as u8,
            ((self.chunk4 / 0x100) % 0x100) as u8,
            (self.chunk4 % 0x100) as u8,
            ((self.chunk5.hi / 0x100) % 0x100) as u8,
            (self.chunk5.hi % 0x100) as u8,
            ((self.chunk5.lo / 0x100_0000) % 0x100) as u8,
            ((self.chunk5.lo / 0x1_0000) % 0x100) as u8,
            ((self.chunk5.lo / 0x100) % 0x100) as u8,
            (self.chunk5.lo % 0x100) as u8,
        ];
        proof {
            assert(r@ =~= guid_bytes(self));
        }
        r
    }

    /// The first three chunks as integers, and bytes 8 to 15 of the portable
    /// layout as an 8-byte array.
    pub fn to_parts(self) -> (r: (u32, u16, u16, [u8; 8]))
        ensures
            r.0 == self.chunk1,
            r.1 == self.chunk2,
            r.2 == self.chunk3,
            r.3@ == guid_bytes(self).subrange(8, 16),
    {
        let b = self.to_bytes();
        let tail: [u8; 8] = [b[8], b[9], b[10], b[11], b[12], b[13], b[14], b[15]];
        proof {
            assert(tail@ =~= guid_bytes(self).subrange(8, 16));
        }
        (self.chunk1, self.chunk2, self.chunk3, tail)
    }

    /// Project the chunks onto the native GUID structure: the first three
    /// chunks verbatim, and bytes 8 to 15 of the portable layout as the tail
    /// array.
    pub fn to_guid(self) -> (r: GUID)
        ensures
            r.Data1 == self.chunk1,
            r.Data2 == self.chunk2,
            r.Data3 == self.chunk3,
            r.Data4@ == guid_bytes(self).subrange(8, 16),
    {
        let tail: [u8; 8] = [
            ((self.chunk4 / 0x100) % 0x100) as u8,
            (self.chunk4 % 0x100) as u8,
            ((self.chunk5.hi / 0x100) % 0x100) as u8,
            (self.chunk5.hi % 0x100) as u8,
            ((self.chunk5.lo / 0x100_0000) % 0x100) as u8,
            ((self.chunk5.lo / 0x1_0000) % 0x100) as u8,
            ((self.chunk5.lo / 0x100) % 0x100) as u8,
            (self.chunk5.lo % 0x100) as u8,
        ];
        proof {
            assert(tail@ =~= guid_bytes(self).subrange(8, 16));
        }
        GUID { Data1: self.chunk1, Data2: self.chunk2, Data3: self.chunk3, Data4: tail }
    }
}

} // verus!
