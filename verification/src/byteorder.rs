//! Big-endian byte images of 64-bit words, and lexicographic order on byte
//! sequences.  Every persisted key is compared by the KV store as a plain
//! byte string, so numeric fields are laid out big-endian: lexicographic
//! byte order then coincides with numeric order.

use vstd::prelude::*;

verus! {

/// The identifiers' usable range: the top byte of an 8-byte field is either
/// zero or overwritten by a storage tag, so ids carry 56 bits.
pub open spec fn fits_id(x: u64) -> bool {
    x < 0x100000000000000u64
}

/// The eight big-endian bytes of a 64-bit word.
pub open spec fn be8(x: u64) -> Seq<u8> {
    seq![
        ((x >> 56) & 0xff) as u8,
        ((x >> 48) & 0xff) as u8,
        ((x >> 40) & 0xff) as u8,
        ((x >> 32) & 0xff) as u8,
        ((x >> 24) & 0xff) as u8,
        ((x >> 16) & 0xff) as u8,
        ((x >> 8) & 0xff) as u8,
        (x & 0xff) as u8,
    ]
}

/// The low seven big-endian bytes: the image of an id whose top byte is
/// replaced by a storage tag.
pub open spec fn be7(x: u64) -> Seq<u8> {
    be8(x).skip(1)
}

/// The 64-bit word read back from eight bytes, big-endian.
pub open spec fn be8_val(s: Seq<u8>) -> u64 {
    ((s[0] as u64) << 56) | ((s[1] as u64) << 48) | ((s[2] as u64) << 40)
        | ((s[3] as u64) << 32) | ((s[4] as u64) << 24) | ((s[5] as u64) << 16)
        | ((s[6] as u64) << 8) | (s[7] as u64)
}

/// Strict lexicographic order on byte strings, as the sorted KV store
/// compares keys: a proper prefix sorts before its extensions.
pub open spec fn lex_lt(a: Seq<u8>, b: Seq<u8>) -> bool
    decreases a.len(),
{
    if b.len() == 0 {
        false
    } else if a.len() == 0 {
        true
    } else if a[0] < b[0] {
        true
    } else if a[0] > b[0] {
        false
    } else {
        lex_lt(a.skip(1), b.skip(1))
    }
}

/// Non-strict lexicographic order.
pub open spec fn lex_le(a: Seq<u8>, b: Seq<u8>) -> bool {
    lex_lt(a, b) || a == b
}

/// Appends the eight big-endian bytes of `x`.
pub fn be8_extend(out: &mut Vec<u8>, x: u64)
    ensures
        final(out)@ == old(out)@ + be8(x),
{
    proof {
        assert(((x >> 56) & 0xff) < 256 && ((x >> 48) & 0xff) < 256 && ((x >> 40) & 0xff) < 256
            && ((x >> 32) & 0xff) < 256 && ((x >> 24) & 0xff) < 256 && ((x >> 16) & 0xff) < 256
            && ((x >> 8) & 0xff) < 256 && (x & 0xff) < 256) by (bit_vector);
    }
    out.push(((x >> 56) & 0xff) as u8);
    out.push(((x >> 48) & 0xff) as u8);
    out.push(((x >> 40) & 0xff) as u8);
    out.push(((x >> 32) & 0xff) as u8);
    out.push(((x >> 24) & 0xff) as u8);
    out.push(((x >> 16) & 0xff) as u8);
    out.push(((x >> 8) & 0xff) as u8);
    out.push((x & 0xff) as u8);
    proof {
        assert(out@ =~= old(out)@ + be8(x));
    }
}

/// Appends the low seven big-endian bytes of `x`.
pub fn be7_extend(out: &mut Vec<u8>, x: u64)
    ensures
        final(out)@ == old(out)@ + be7(x),
{
    proof {
        assert(((x >> 48) & 0xff) < 256 && ((x >> 40) & 0xff) < 256
            && ((x >> 32) & 0xff) < 256 && ((x >> 24) & 0xff) < 256 && ((x >> 16) & 0xff) < 256
            && ((x >> 8) & 0xff) < 256 && (x & 0xff) < 256) by (bit_vector);
    }
    out.push(((x >> 48) & 0xff) as u8);
    out.push(((x >> 40) & 0xff) as u8);
    out.push(((x >> 32) & 0xff) as u8);
    out.push(((x >> 24) & 0xff) as u8);
    out.push(((x >> 16) & 0xff) as u8);
    out.push(((x >> 8) & 0xff) as u8);
    out.push((x & 0xff) as u8);
    proof {
        assert(out@ =~= old(out)@ + be7(x));
    }
}

/// Reads the 64-bit word at `b[off .. off + 8]`, big-endian.
pub fn be8_read(b: &[u8], off: usize) -> (x: u64)
    requires
        off + 8 <= b@.len(),
    ensures
        x == be8_val(b@.subrange(off as int, off as int + 8)),
{
    let x = ((b[off] as u64) << 56) | ((b[off + 1] as u64) << 48) | ((b[off + 2] as u64) << 40)
        | ((b[off + 3] as u64) << 32) | ((b[off + 4] as u64) << 24)
        | ((b[off + 5] as u64) << 16) | ((b[off + 6] as u64) << 8) | (b[off + 7] as u64);
    proof {
        let s = b@.subrange(off as int, off as int + 8);
        assert(s[0] == b@[off as int] && s[1] == b@[off as int + 1] && s[2] == b@[off as int + 2]
            && s[3] == b@[off as int + 3] && s[4] == b@[off as int + 4]
            && s[5] == b@[off as int + 5] && s[6] == b@[off as int + 6]
            && s[7] == b@[off as int + 7]);
    }
    x
}

/// Writing eight bytes and reading them back gives the word again.
pub proof fn lemma_be8_roundtrip(x: u64)
    ensures
        be8_val(be8(x)) == x,
{
    let b0 = ((x >> 56) & 0xff) as u8;
    let b1 = ((x >> 48) & 0xff) as u8;
    let b2 = ((x >> 40) & 0xff) as u8;
    let b3 = ((x >> 32) & 0xff) as u8;
    let b4 = ((x >> 24) & 0xff) as u8;
    let b5 = ((x >> 16) & 0xff) as u8;
    let b6 = ((x >> 8) & 0xff) as u8;
    let b7 = (x & 0xff) as u8;
    assert(((b0 as u64) << 56) | ((b1 as u64) << 48) | ((b2 as u64) << 40) | ((b3 as u64) << 32)
        | ((b4 as u64) << 24) | ((b5 as u64) << 16) | ((b6 as u64) << 8) | (b7 as u64) == x)
        by (bit_vector)
        requires
            b0 == ((x >> 56) & 0xff) as u8 && b1 == ((x >> 48) & 0xff) as u8
                && b2 == ((x >> 40) & 0xff) as u8 && b3 == ((x >> 32) & 0xff) as u8
                && b4 == ((x >> 24) & 0xff) as u8 && b5 == ((x >> 16) & 0xff) as u8
                && b6 == ((x >> 8) & 0xff) as u8 && b7 == (x & 0xff) as u8,
    ;
}

} // verus!
