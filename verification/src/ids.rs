//! Fixed-width identifiers.  Each encodes as 8 bytes, big-endian, so that
//! lexicographic byte order matches numeric order; the top byte is reserved
//! for a storage tag and ids use 56 bits.  `Validity` is a signed logical
//! timestamp stored as the bitwise complement of its two's-complement image,
//! so that within one prefix newer validities sort before older ones.

use vstd::prelude::*;

use crate::byteorder::{be8, be8_read, be8_extend, be8_val, fits_id};

verus! {

/// Parsing an identifier from fewer than 8 bytes fails.
#[derive(Clone, Copy, Debug, PartialEq, Eq, Structural)]
pub enum IdError {
    InvalidId,
}

/// The two's-complement image of a signed timestamp as an unsigned word.
pub open spec fn i64_bits(v: i64) -> u64 {
    if v >= 0 {
        v as u64
    } else {
        (v + 0x10000000000000000) as u64
    }
}

/// The signed timestamp a two's-complement image stands for.
pub open spec fn bits_i64(x: u64) -> i64 {
    if x <= 0x7fffffffffffffffu64 {
        x as i64
    } else {
        (x - 0x10000000000000000) as i64
    }
}

/// The stored form of a validity: complement of the timestamp's image, so a
/// larger (newer) timestamp of the same sign gives smaller bytes.
pub open spec fn vld_word(v: i64) -> u64 {
    !i64_bits(v)
}

/// The eight stored bytes of a validity.
pub open spec fn vld_bytes(v: i64) -> Seq<u8> {
    be8(vld_word(v))
}

/// The id value recovered from eight key bytes: the top byte carries a tag
/// and is masked off.
pub open spec fn masked_id(s: Seq<u8>) -> u64 {
    be8_val(s) & 0xffffffffffffffu64
}

pub(crate) fn i64_to_bits(v: i64) -> (x: u64)
    ensures
        x == i64_bits(v),
{
    if v >= 0 {
        v as u64
    } else {
        ((v as i128) + 0x10000000000000000i128) as u64
    }
}

pub(crate) fn bits_to_i64(x: u64) -> (v: i64)
    ensures
        v == bits_i64(x),
{
    if x <= 0x7fffffffffffffffu64 {
        x as i64
    } else {
        ((x as i128) - 0x10000000000000000i128) as i64
    }
}

/// An attribute id.  `AttrId(0)` is the reserved lowest value.
#[derive(Clone, Copy, Debug, PartialEq, Eq, Structural)]
pub struct AttrId(pub u64);

/// An entity id.  `EntityId::zero()` is the reserved sentinel value.
#[derive(Clone, Copy, Debug, PartialEq, Eq, Structural)]
pub struct EntityId(pub u64);

/// A transaction id.
#[derive(Clone, Copy, Debug, PartialEq, Eq, Structural)]
pub struct TxId(pub u64);

/// A signed 64-bit logical timestamp tagging when a fact holds.
#[derive(Clone, Copy, Debug, PartialEq, Eq, Structural)]
pub struct Validity(pub i64);

impl AttrId {
    /// The id fits the 56 bits of usable range.
    pub open spec fn wf(self) -> bool {
        fits_id(self.0)
    }

    /// Appends the eight big-endian bytes; the caller overwrites byte 0 with
    /// a storage tag before persisting.
    pub fn extend_bytes_to(self, out: &mut Vec<u8>)
        ensures
            final(out)@ == old(out)@ + be8(self.0),
    {
        be8_extend(out, self.0);
    }

    /// Reads an id back from key bytes, masking off the tag byte.
    pub fn from_bytes(b: &[u8]) -> (r: Result<Self, IdError>)
        ensures
            b@.len() >= 8 ==> r == Ok::<Self, IdError>(AttrId(masked_id(b@.subrange(0, 8)))),
            b@.len() < 8 ==> r == Err::<Self, IdError>(IdError::InvalidId),
    {
        if b.len() < 8 {
            Err(IdError::InvalidId)
        } else {
            Ok(AttrId(be8_read(b, 0) & 0xffffffffffffffu64))
        }
    }
}

impl EntityId {
    /// The id fits the 56 bits of usable range.
    pub open spec fn wf(self) -> bool {
        fits_id(self.0)
    }

    /// The reserved lowest entity id.
    pub fn zero() -> (r: Self)
        ensures
            r.0 == 0,
    {
        EntityId(0)
    }

    /// Appends the eight big-endian bytes.
    pub fn extend_bytes_to(self, out: &mut Vec<u8>)
        ensures
            final(out)@ == old(out)@ + be8(self.0),
    {
        be8_extend(out, self.0);
    }

    /// Reads an id back from key bytes, masking off the tag byte.
    pub fn from_bytes(b: &[u8]) -> (r: Result<Self, IdError>)
        ensures
            b@.len() >= 8 ==> r == Ok::<Self, IdError>(EntityId(masked_id(b@.subrange(0, 8)))),
            b@.len() < 8 ==> r == Err::<Self, IdError>(IdError::InvalidId),
    {
        if b.len() < 8 {
            Err(IdError::InvalidId)
        } else {
            Ok(EntityId(be8_read(b, 0) & 0xffffffffffffffu64))
        }
    }
}

impl TxId {
    /// The id fits the 56 bits of usable range.
    pub open spec fn wf(self) -> bool {
        fits_id(self.0)
    }

    /// Appends the eight big-endian bytes.
    pub fn extend_bytes_to(self, out: &mut Vec<u8>)
        ensures
            final(out)@ == old(out)@ + be8(self.0),
    {
        be8_extend(out, self.0);
    }

    /// Reads an id back from key bytes, masking off the tag byte.
    pub fn from_bytes(b: &[u8]) -> (r: Result<Self, IdError>)
        ensures
            b@.len() >= 8 ==> r == Ok::<Self, IdError>(TxId(masked_id(b@.subrange(0, 8)))),
            b@.len() < 8 ==> r == Err::<Self, IdError>(IdError::InvalidId),
    {
        if b.len() < 8 {
            Err(IdError::InvalidId)
        } else {
            Ok(TxId(be8_read(b, 0) & 0xffffffffffffffu64))
        }
    }
}

impl Validity {
    /// Infinite past.
    pub fn min_validity() -> (r: Self)
        ensures
            r.0 == i64::MIN,
    {
        Validity(i64::MIN)
    }

    /// Infinite future.
    pub fn max_validity() -> (r: Self)
        ensures
            r.0 == i64::MAX,
    {
        Validity(i64::MAX)
    }

    /// Appends the eight stored bytes: the complement encoding.
    pub fn extend_bytes_to(self, out: &mut Vec<u8>)
        ensures
            final(out)@ == old(out)@ + vld_bytes(self.0),
    {
        let bits = i64_to_bits(self.0);
        be8_extend(out, !bits);
    }

    /// Reads a validity back from its eight stored bytes.
    pub fn from_bytes(b: &[u8]) -> (r: Result<Self, IdError>)
        ensures
            b@.len() >= 8 ==> r == Ok::<Self, IdError>(
                Validity(bits_i64(!be8_val(b@.subrange(0, 8)))),
            ),
            b@.len() < 8 ==> r == Err::<Self, IdError>(IdError::InvalidId),
    {
        if b.len() < 8 {
            Err(IdError::InvalidId)
        } else {
            Ok(Validity(bits_to_i64(!be8_read(b, 0))))
        }
    }
}

/// An id below 2^56 survives the tag overwrite: masking the read word, even
/// with an arbitrary byte in the top position, returns the id.
pub proof fn lemma_masked_id_roundtrip(x: u64, tag: u8)
    requires
        fits_id(x),
    ensures
        masked_id(seq![tag] + be8(x).skip(1)) == x,
{
    let s = seq![tag] + be8(x).skip(1);
    assert(s.len() == 8);
    assert(s[0] == tag && s[1] == be8(x)[1] && s[2] == be8(x)[2] && s[3] == be8(x)[3]
        && s[4] == be8(x)[4] && s[5] == be8(x)[5] && s[6] == be8(x)[6] && s[7] == be8(x)[7]);
    let b1 = ((x >> 48) & 0xff) as u8;
    let b2 = ((x >> 40) & 0xff) as u8;
    let b3 = ((x >> 32) & 0xff) as u8;
    let b4 = ((x >> 24) & 0xff) as u8;
    let b5 = ((x >> 16) & 0xff) as u8;
    let b6 = ((x >> 8) & 0xff) as u8;
    let b7 = (x & 0xff) as u8;
    assert((((tag as u64) << 56) | ((b1 as u64) << 48) | ((b2 as u64) << 40) | ((b3 as u64) << 32)
        | ((b4 as u64) << 24) | ((b5 as u64) << 16) | ((b6 as u64) << 8) | (b7 as u64))
        & 0xffffffffffffffu64 == x) by (bit_vector)
        requires
            x < 0x100000000000000u64 && b1 == ((x >> 48) & 0xff) as u8
                && b2 == ((x >> 40) & 0xff) as u8 && b3 == ((x >> 32) & 0xff) as u8
                && b4 == ((x >> 24) & 0xff) as u8 && b5 == ((x >> 16) & 0xff) as u8
                && b6 == ((x >> 8) & 0xff) as u8 && b7 == (x & 0xff) as u8,
    ;
}

/// A full 8-byte id field (no tag overwrite) also reads back exactly, since
/// its top byte is zero.
pub proof fn lemma_masked_id_plain(x: u64)
    requires
        fits_id(x),
    ensures
        masked_id(be8(x)) == x,
{
    crate::byteorder::lemma_be8_roundtrip(x);
    assert(be8_val(be8(x)) & 0xffffffffffffffu64 == x) by (bit_vector)
        requires
            be8_val(be8(x)) == x && x < 0x100000000000000u64,
    ;
}

/// The complement encoding undoes itself: a validity read back from its
/// stored bytes is the validity written.
pub proof fn lemma_vld_roundtrip(v: i64)
    ensures
        bits_i64(!be8_val(vld_bytes(v))) == v,
{
    crate::byteorder::lemma_be8_roundtrip(vld_word(v));
    let x = i64_bits(v);
    assert(!(!x) == x) by (bit_vector);
    assert(bits_i64(i64_bits(v)) == v);
}

} // verus!
