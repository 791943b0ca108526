//! The three flag bits carried in the leading byte of an encoded point.
use vstd::prelude::*;

verus! {

/// Flags of an encoded point: bit 7 of the first byte marks compression, bit 6
/// the point at infinity, and bit 5 (compressed form only) the larger root `y`.
#[derive(Clone, Copy, Debug, PartialEq, Eq, Structural)]
pub struct EncodingFlags {
    pub is_compressed: bool,
    pub is_infinity: bool,
    pub is_lexographically_largest: bool,
}

/// The bits that a set of flags adds to the first byte.
pub open spec fn flag_bits(f: EncodingFlags) -> u8 {
    ((if f.is_compressed { 0x80int } else { 0 }) + (if f.is_infinity { 0x40int } else { 0 }) + (
    if f.is_compressed && !f.is_infinity && f.is_lexographically_largest {
        0x20int
    } else {
        0
    })) as u8
}

/// Whether bit `k` of a byte is set.
pub open spec fn bit_set(b: u8, k: u8) -> bool {
    (b >> k) & 1 == 1
}

impl EncodingFlags {
    /// Reads the flags from the first byte of an encoding.
    pub fn get_flags(bytes: &[u8]) -> (r: EncodingFlags)
        requires
            bytes@.len() >= 1,
        ensures
            r.is_compressed == bit_set(bytes@[0], 7),
            r.is_infinity == bit_set(bytes@[0], 6),
            r.is_lexographically_largest == bit_set(bytes@[0], 5),
    {
        let b0 = bytes[0];
        let compression_flag_set = (b0 >> 7u8) & 1;
        let infinity_flag_set = (b0 >> 6u8) & 1;
        let sort_flag_set = (b0 >> 5u8) & 1;
        EncodingFlags {
            is_compressed: compression_flag_set == 1,
            is_infinity: infinity_flag_set == 1,
            is_lexographically_largest: sort_flag_set == 1,
        }
    }

    /// Sets the flag bits in the first byte of `bytes`, leaving the rest as it is.
    pub fn encode_flags(&self, bytes: &mut Vec<u8>)
        requires
            old(bytes)@.len() >= 1,
        ensures
            final(bytes)@ == old(bytes)@.update(0, old(bytes)@[0] | flag_bits(*self)),
    {
        let b0 = bytes[0];
        let mut b = b0;
        if self.is_compressed {
            b = b | 0x80u8;
        }
        if self.is_infinity {
            b = b | 0x40u8;
        }
        if self.is_compressed && !self.is_infinity && self.is_lexographically_largest {
            b = b | 0x20u8;
        }
        proof {
            let c = self.is_compressed;
            let i = self.is_infinity;
            let l = c && !i && self.is_lexographically_largest;
            let fb = flag_bits(*self);
            assert(fb == ((if c { 0x80u8 } else { 0u8 }) | (if i { 0x40u8 } else { 0u8 }) | (
            if l {
                0x20u8
            } else {
                0u8
            }))) by (bit_vector)
                requires
                    fb == ((if c { 0x80int } else { 0 }) + (if i { 0x40int } else { 0 }) + (if l {
                        0x20int
                    } else {
                        0
                    })) as u8,
            ;
            assert(b == b0 | fb) by (bit_vector)
                requires
                    fb == ((if c { 0x80u8 } else { 0u8 }) | (if i { 0x40u8 } else { 0u8 }) | (
                    if l {
                        0x20u8
                    } else {
                        0u8
                    })),
                    b == (if l {
                        (if i {
                            (if c { b0 | 0x80u8 } else { b0 }) | 0x40u8
                        } else {
                            (if c { b0 | 0x80u8 } else { b0 })
                        }) | 0x20u8
                    } else {
                        (if i {
                            (if c { b0 | 0x80u8 } else { b0 }) | 0x40u8
                        } else {
                            (if c { b0 | 0x80u8 } else { b0 })
                        })
                    }),
            ;
        }
        bytes.set(0, b);
    }
}

/// A byte below 32 with flag bits added reads back those flags, and masking the
/// flag bits gives the byte back.
pub proof fn lemma_flags_round_trip(x0: u8, f: EncodingFlags)
    requires
        x0 < 32,
    ensures
        bit_set(x0 | flag_bits(f), 7) == f.is_compressed,
        bit_set(x0 | flag_bits(f), 6) == f.is_infinity,
        bit_set(x0 | flag_bits(f), 5) == (f.is_compressed && !f.is_infinity
            && f.is_lexographically_largest),
        (x0 | flag_bits(f)) & 0x1f == x0,
        f.is_infinity ==> (x0 | flag_bits(f)) & 0x3f == x0,
{
    let c = f.is_compressed;
    let i = f.is_infinity;
    let l = c && !i && f.is_lexographically_largest;
    let fb = flag_bits(f);
    assert(((x0 | fb) >> 7) & 1 == 1 <==> c) by (bit_vector)
        requires
            x0 < 32,
            fb == ((if c { 0x80int } else { 0 }) + (if i { 0x40int } else { 0 }) + (if l {
                0x20int
            } else {
                0
            })) as u8,
    ;
    assert(((x0 | fb) >> 6) & 1 == 1 <==> i) by (bit_vector)
        requires
            x0 < 32,
            fb == ((if c { 0x80int } else { 0 }) + (if i { 0x40int } else { 0 }) + (if l {
                0x20int
            } else {
                0
            })) as u8,
    ;
    assert(((x0 | fb) >> 5) & 1 == 1 <==> l) by (bit_vector)
        requires
            x0 < 32,
            fb == ((if c { 0x80int } else { 0 }) + (if i { 0x40int } else { 0 }) + (if l {
                0x20int
            } else {
                0
            })) as u8,
    ;
    assert(i ==> (x0 | fb) & 0x3f == x0) by (bit_vector)
        requires
            x0 < 32,
            fb == ((if c { 0x80int } else { 0 }) + (if i { 0x40int } else { 0 }) + (if l {
                0x20int
            } else {
                0
            })) as u8,
            l ==> !i,
    ;
    assert((x0 | fb) & 0x1f == x0) by (bit_vector)
        requires
            x0 < 32,
            fb == ((if c { 0x80int } else { 0 }) + (if i { 0x40int } else { 0 }) + (if l {
                0x20int
            } else {
                0
            })) as u8,
    ;
}

} // verus!
