//! A fixed-width tagged byte-buffer value: eight bytes that cell bodies may
//! read and write as integers of several widths, in little-endian order.
//!
//! The engine treats such values as opaque operands; the accessors here are
//! the value side of that boundary.

use vstd::prelude::*;

verus! {

/// The little-endian integer held in two bytes.
pub open spec fn le16(b0: u8, b1: u8) -> int {
    b0 + 256 * b1
}

/// The little-endian integer held in four bytes.
pub open spec fn le32(b0: u8, b1: u8, b2: u8, b3: u8) -> int {
    b0 + 256 * b1 + 65536 * b2 + 16777216 * b3
}

/// The little-endian integer held in eight bytes.
pub open spec fn le64(b0: u8, b1: u8, b2: u8, b3: u8, b4: u8, b5: u8, b6: u8, b7: u8) -> int {
    le32(b0, b1, b2, b3) + 0x1_0000_0000 * le32(b4, b5, b6, b7)
}

/// An eight-byte operand buffer, read and written at several integer
/// widths.
#[derive(Debug, Clone, Copy)]
pub struct Value {
    pub bytes: [u8; 8],
}

impl Value {
    /// The first byte.
    pub fn as_u8(&self) -> (r: u8)
        ensures
            r == self.bytes@[0],
    {
        self.bytes[0]
    }

    /// Write the first byte; the other bytes keep their values.
    pub fn set_u8(&mut self, v: u8)
        ensures
            final(self).bytes@ == old(self).bytes@.update(0, v),
    {
        self.bytes[0] = v;
    }

    /// The first two bytes as a little-endian integer.
    pub fn as_u16(&self) -> (r: u16)
        ensures
            r as int == le16(self.bytes@[0], self.bytes@[1]),
    {
        let b0 = self.bytes[0];
        let b1 = self.bytes[1];
        let r = (b0 as u16) | ((b1 as u16) << 8);
        proof {
            assert(r as int == b0 + 256 * b1) by (bit_vector)
                requires
                    r == (b0 as u16) | ((b1 as u16) << 8),
            ;
        }
        r
    }

    /// Write the first two bytes in little-endian order.
    pub fn set_u16(&mut self, v: u16)
        ensures
            final(self).bytes@[0] == v as u8,
            final(self).bytes@[1] == (v >> 8) as u8,
            le16(final(self).bytes@[0], final(self).bytes@[1]) == v as int,
            forall|i: int| 2 <= i < 8 ==> final(self).bytes@[i] == old(self).bytes@[i],
    {
        let b0 = v as u8;
        let b1 = (v >> 8) as u8;
        self.bytes[0] = b0;
        self.bytes[1] = b1;
        proof {
            assert(b0 + 256 * b1 == v as int) by (bit_vector)
                requires
                    b0 == v as u8,
                    b1 == (v >> 8) as u8,
            ;
        }
    }

    /// The first four bytes as a little-endian integer.
    pub fn as_u32(&self) -> (r: u32)
        ensures
            r as int == le32(self.bytes@[0], self.bytes@[1], self.bytes@[2], self.bytes@[3]),
    {
        let b0 = self.bytes[0];
        let b1 = self.bytes[1];
        let b2 = self.bytes[2];
        let b3 = self.bytes[3];
        let r = (b0 as u32) | ((b1 as u32) << 8) | ((b2 as u32) << 16) | ((b3 as u32) << 24);
        proof {
            assert(r as int == b0 + 256 * b1 + 65536 * b2 + 16777216 * b3) by (bit_vector)
                requires
                    r == (b0 as u32) | ((b1 as u32) << 8) | ((b2 as u32) << 16) | ((b3
                        as u32) << 24),
            ;
        }
        r
    }

    /// Write the first four bytes in little-endian order.
    pub fn set_u32(&mut self, v: u32)
        ensures
            le32(
                final(self).bytes@[0],
                final(self).bytes@[1],
                final(self).bytes@[2],
                final(self).bytes@[3],
            ) == v as int,
            forall|i: int| 4 <= i < 8 ==> final(self).bytes@[i] == old(self).bytes@[i],
    {
        let b0 = v as u8;
        let b1 = (v >> 8) as u8;
        let b2 = (v >> 16) as u8;
        let b3 = (v >> 24) as u8;
        self.bytes[0] = b0;
        self.bytes[1] = b1;
        self.bytes[2] = b2;
        self.bytes[3] = b3;
        proof {
            assert(b0 + 256 * b1 + 65536 * b2 + 16777216 * b3 == v as int) by (bit_vector)
                requires
                    b0 == v as u8,
                    b1 == (v >> 8) as u8,
                    b2 == (v >> 16) as u8,
                    b3 == (v >> 24) as u8,
            ;
        }
    }

    /// All eight bytes as a little-endian integer.
    pub fn as_u64(&self) -> (r: u64)
        ensures
            r as int == le64(
                self.bytes@[0],
                self.bytes@[1],
                self.bytes@[2],
                self.bytes@[3],
                self.bytes@[4],
                self.bytes@[5],
                self.bytes@[6],
                self.bytes@[7],
            ),
    {
        let b0 = self.bytes[0];
        let b1 = self.bytes[1];
        let b2 = self.bytes[2];
        let b3 = self.bytes[3];
        let b4 = self.bytes[4];
        let b5 = self.bytes[5];
        let b6 = self.bytes[6];
        let b7 = self.bytes[7];
        let r = (b0 as u64) | ((b1 as u64) << 8) | ((b2 as u64) << 16) | ((b3 as u64) << 24) | ((
        b4 as u64) << 32) | ((b5 as u64) << 40) | ((b6 as u64) << 48) | ((b7 as u64) << 56);
        proof {
            assert(r as int == b0 + 256 * b1 + 65536 * b2 + 16777216 * b3 + 0x1_0000_0000 * (b4
                + 256 * b5 + 65536 * b6 + 16777216 * b7)) by (bit_vector)
                requires
                    r == (b0 as u64) | ((b1 as u64) << 8) | ((b2 as u64) << 16) | ((b3
                        as u64) << 24) | ((b4 as u64) << 32) | ((b5 as u64) << 40) | ((b6
                        as u64) << 48) | ((b7 as u64) << 56),
            ;
        }
        r
    }

    /// Write all eight bytes in little-endian order.
    pub fn set_u64(&mut self, v: u64)
        ensures
            le64(
                final(self).bytes@[0],
                final(self).bytes@[1],
                final(self).bytes@[2],
                final(self).bytes@[3],
                final(self).bytes@[4],
                final(self).bytes@[5],
                final(self).bytes@[6],
                final(self).bytes@[7],
            ) == v as int,
    {
        let b0 = v as u8;
        let b1 = (v >> 8) as u8;
        let b2 = (v >> 16) as u8;
        let b3 = (v >> 24) as u8;
        let b4 = (v >> 32) as u8;
        let b5 = (v >> 40) as u8;
        let b6 = (v >> 48) as u8;
        let b7 = (v >> 56) as u8;
        self.bytes[0] = b0;
        self.bytes[1] = b1;
        self.bytes[2] = b2;
        self.bytes[3] = b3;
        self.bytes[4] = b4;
        self.bytes[5] = b5;
        self.bytes[6] = b6;
        self.bytes[7] = b7;
        proof {
            assert(b0 + 256 * b1 + 65536 * b2 + 16777216 * b3 + 0x1_0000_0000 * (b4 + 256 * b5
                + 65536 * b6 + 16777216 * b7) == v as int) by (bit_vector)
                requires
                    b0 == v as u8,
                    b1 == (v >> 8) as u8,
                    b2 == (v >> 16) as u8,
                    b3 == (v >> 24) as u8,
                    b4 == (v >> 32) as u8,
                    b5 == (v >> 40) as u8,
                    b6 == (v >> 48) as u8,
                    b7 == (v >> 56) as u8,
            ;
        }
    }

    /// The first byte reinterpreted as a signed integer.
    pub fn as_i8(&self) -> (r: i8)
        ensures
            r == self.bytes@[0] as i8,
    {
        self.bytes[0] as i8
    }

    /// Write the first byte from a signed integer.
    pub fn set_i8(&mut self, v: i8)
        ensures
            final(self).bytes@ == old(self).bytes@.update(0, v as u8),
    {
        self.bytes[0] = v as u8;
    }

    /// The first two bytes reinterpreted as a signed little-endian integer.
    pub fn as_i16(&self) -> (r: i16)
        ensures
            r as u16 as int == le16(self.bytes@[0], self.bytes@[1]),
    {
        let u = self.as_u16();
        let r = u as i16;
        proof {
            assert(r as u16 == u) by (bit_vector)
                requires
                    r == u as i16,
            ;
        }
        r
    }

    /// Write the first two bytes from a signed integer, little-endian.
    pub fn set_i16(&mut self, v: i16)
        ensures
            le16(final(self).bytes@[0], final(self).bytes@[1]) == v as u16 as int,
            forall|i: int| 2 <= i < 8 ==> final(self).bytes@[i] == old(self).bytes@[i],
    {
        self.set_u16(v as u16);
    }

    /// The first four bytes reinterpreted as a signed little-endian
    /// integer.
    pub fn as_i32(&self) -> (r: i32)
        ensures
            r as u32 as int == le32(self.bytes@[0], self.bytes@[1], self.bytes@[2], self.bytes@[3]),
    {
        let u = self.as_u32();
        let r = u as i32;
        proof {
            assert(r as u32 == u) by (bit_vector)
                requires
                    r == u as i32,
            ;
        }
        r
    }

    /// Write the first four bytes from a signed integer, little-endian.
    pub fn set_i32(&mut self, v: i32)
        ensures
            le32(
                final(self).bytes@[0],
                final(self).bytes@[1],
                final(self).bytes@[2],
                final(self).bytes@[3],
            ) == v as u32 as int,
            forall|i: int| 4 <= i < 8 ==> final(self).bytes@[i] == old(self).bytes@[i],
    {
        self.set_u32(v as u32);
    }

    /// All eight bytes reinterpreted as a signed little-endian integer.
    pub fn as_i64(&self) -> (r: i64)
        ensures
            r as u64 as int == le64(
                self.bytes@[0],
                self.bytes@[1],
                self.bytes@[2],
                self.bytes@[3],
                self.bytes@[4],
                self.bytes@[5],
                self.bytes@[6],
                self.bytes@[7],
            ),
    {
        let u = self.as_u64();
        let r = u as i64;
        proof {
            assert(r as u64 == u) by (bit_vector)
                requires
                    r == u as i64,
            ;
        }
        r
    }

    /// Write all eight bytes from a signed integer, little-endian.
    pub fn set_i64(&mut self, v: i64)
        ensures
            le64(
                final(self).bytes@[0],
                final(self).bytes@[1],
                final(self).bytes@[2],
                final(self).bytes@[3],
                final(self).bytes@[4],
                final(self).bytes@[5],
                final(self).bytes@[6],
                final(self).bytes@[7],
            ) == v as u64 as int,
    {
        self.set_u64(v as u64);
    }

    /// The buffer as two little-endian 32-bit lanes.
    pub fn as_u32_x2(&self) -> (r: [u32; 2])
        ensures
            r@[0] as int == le32(self.bytes@[0], self.bytes@[1], self.bytes@[2], self.bytes@[3]),
            r@[1] as int == le32(self.bytes@[4], self.bytes@[5], self.bytes@[6], self.bytes@[7]),
    {
        let b4 = self.bytes[4];
        let b5 = self.bytes[5];
        let b6 = self.bytes[6];
        let b7 = self.bytes[7];
        let hi = (b4 as u32) | ((b5 as u32) << 8) | ((b6 as u32) << 16) | ((b7 as u32) << 24);
        proof {
            assert(hi as int == b4 + 256 * b5 + 65536 * b6 + 16777216 * b7) by (bit_vector)
                requires
                    hi == (b4 as u32) | ((b5 as u32) << 8) | ((b6 as u32) << 16) | ((b7
                        as u32) << 24),
            ;
        }
        [self.as_u32(), hi]
    }

    /// Write the buffer as two little-endian 32-bit lanes.
    pub fn set_u32_x2(&mut self, lanes: [u32; 2])
        ensures
            le32(
                final(self).bytes@[0],
                final(self).bytes@[1],
                final(self).bytes@[2],
                final(self).bytes@[3],
            ) == lanes@[0] as int,
            le32(
                final(self).bytes@[4],
                final(self).bytes@[5],
                final(self).bytes@[6],
                final(self).bytes@[7],
            ) == lanes@[1] as int,
    {
        let lo = lanes[0];
        let hi = lanes[1];
        self.set_u32(lo);
        let b4 = hi as u8;
        let b5 = (hi >> 8) as u8;
        let b6 = (hi >> 16) as u8;
        let b7 = (hi >> 24) as u8;
        self.bytes[4] = b4;
        self.bytes[5] = b5;
        self.bytes[6] = b6;
        self.bytes[7] = b7;
        proof {
            assert(b4 + 256 * b5 + 65536 * b6 + 16777216 * b7 == hi as int) by (bit_vector)
                requires
                    b4 == hi as u8,
                    b5 == (hi >> 8) as u8,
                    b6 == (hi >> 16) as u8,
                    b7 == (hi >> 24) as u8,
            ;
        }
    }
}

} // verus!
