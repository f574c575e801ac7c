//! The storage key codec: the binary layouts of the nine persisted record
//! families, the full-store range endpoints, and in-place validity
//! amendment.  These byte layouts are the persisted format; every key starts
//! with its family's tag byte overlaid on the top byte of an 8-byte id.

use vstd::prelude::*;
use vstd::slice::slice_subrange;
use vstd::std_specs::vec::vec_index_mut;
use vstd::utf8::{encode_utf8, decode_utf8, valid_utf8, encode_utf8_valid_utf8, encode_utf8_decode_utf8, decode_utf8_encode_utf8};

use crate::byteorder::{be7, be8, be8_val, be7_extend, be8_extend, be8_read};
use crate::errors::DecodeError;
use crate::ids::{AttrId, EntityId, TxId, Validity, masked_id, bits_i64, bits_to_i64, vld_bytes, lemma_masked_id_roundtrip, lemma_masked_id_plain, lemma_vld_roundtrip};
use crate::value::{DataValue, DvView, value_bytes, encode_value, decode_value, VB_REF};

verus! {

/// The nine record families, tagged 1 through 9 in the leading key byte.
#[derive(Clone, Copy, Debug, PartialEq, Eq, Structural)]
pub enum StorageTag {
    TripleAttrEntityValue,
    TripleAttrValueEntity,
    TripleAttrValueRefEntity,
    AttrById,
    Tx,
    SentinelEntityAttr,
    SentinelAttrValue,
    SentinelAttrById,
    SentinelAttrByName,
}

/// The byte a tag occupies in a key's leading position.
pub open spec fn spec_tag_byte(t: StorageTag) -> u8 {
    match t {
        StorageTag::TripleAttrEntityValue => 1,
        StorageTag::TripleAttrValueEntity => 2,
        StorageTag::TripleAttrValueRefEntity => 3,
        StorageTag::AttrById => 4,
        StorageTag::Tx => 5,
        StorageTag::SentinelEntityAttr => 6,
        StorageTag::SentinelAttrValue => 7,
        StorageTag::SentinelAttrById => 8,
        StorageTag::SentinelAttrByName => 9,
    }
}

impl StorageTag {
    /// The tag's byte value.
    pub fn to_byte(self) -> (r: u8)
        ensures
            r == spec_tag_byte(self),
    {
        match self {
            StorageTag::TripleAttrEntityValue => 1,
            StorageTag::TripleAttrValueEntity => 2,
            StorageTag::TripleAttrValueRefEntity => 3,
            StorageTag::AttrById => 4,
            StorageTag::Tx => 5,
            StorageTag::SentinelEntityAttr => 6,
            StorageTag::SentinelAttrValue => 7,
            StorageTag::SentinelAttrById => 8,
            StorageTag::SentinelAttrByName => 9,
        }
    }

    /// Reads a tag back from a leading key byte; any other byte is a
    /// corruption signal.
    pub fn try_from(value: u8) -> (r: Result<StorageTag, DecodeError>)
        ensures
            (1 <= value <= 9) ==> (r matches Ok(t) && spec_tag_byte(t) == value),
            (value == 0 || value > 9) ==> r == Err::<StorageTag, DecodeError>(DecodeError::BadTag),
    {
        match value {
            1 => Ok(StorageTag::TripleAttrEntityValue),
            2 => Ok(StorageTag::TripleAttrValueEntity),
            3 => Ok(StorageTag::TripleAttrValueRefEntity),
            4 => Ok(StorageTag::AttrById),
            5 => Ok(StorageTag::Tx),
            6 => Ok(StorageTag::SentinelEntityAttr),
            7 => Ok(StorageTag::SentinelAttrValue),
            8 => Ok(StorageTag::SentinelAttrById),
            9 => Ok(StorageTag::SentinelAttrByName),
            _ => Err(DecodeError::BadTag),
        }
    }
}

/// Inline capacity of keys that carry a variable-length part.
pub const LARGE_VEC_SIZE: usize = 60;

pub const VEC_SIZE_32: usize = 32;

pub const VEC_SIZE_24: usize = 24;

pub const VEC_SIZE_16: usize = 16;

pub const VEC_SIZE_8: usize = 8;

/// A byte buffer carrying a single encoded key.  The capacity parameter
/// names the family's expected size.
pub struct EncodedVec<const N: usize> {
    inner: Vec<u8>,
}

impl<const N: usize> View for EncodedVec<N> {
    type V = Seq<u8>;

    closed spec fn view(&self) -> Seq<u8> {
        self.inner@
    }
}

impl<const N: usize> EncodedVec<N> {
    /// Wraps already-encoded key bytes.
    pub fn from_slice(src: &[u8]) -> (r: Self)
        ensures
            r@ == src@,
    {
        EncodedVec { inner: vstd::slice::slice_to_vec(src) }
    }

    /// The encoded bytes, as the KV store sees them.
    pub fn as_slice(&self) -> (r: &[u8])
        ensures
            r@ == self@,
    {
        self.inner.as_slice()
    }

    /// Number of encoded bytes.
    pub fn len(&self) -> (r: usize)
        ensures
            r == self@.len(),
    {
        self.inner.len()
    }

    /// An equal buffer: encoded keys are cheaply copied.
    pub fn dup(&self) -> (r: Self)
        ensures
            r@ == self@,
    {
        EncodedVec { inner: vstd::slice::slice_to_vec(self.inner.as_slice()) }
    }

    /// Replaces the carried key with a copy of `src`.
    pub fn copy_from_slice(&mut self, src: &[u8])
        ensures
            final(self)@ == src@,
    {
        self.inner.clear();
        self.inner.extend_from_slice(src);
        proof {
            assert(self@ =~= src@);
        }
    }
}

/// Layout of an AEV triple key: tag 1 over the attribute id, then entity,
/// validity, value.
pub open spec fn aev_key_bytes(aid: AttrId, eid: EntityId, v: DvView, vld: Validity) -> Seq<u8> {
    seq![1u8] + be7(aid.0) + be8(eid.0) + vld_bytes(vld.0) + value_bytes(v)
}

/// Layout of an AVE triple key: as AEV but under tag 2, so the two
/// orderings scan as separate families.
pub open spec fn ave_key_bytes(aid: AttrId, v: DvView, eid: EntityId, vld: Validity) -> Seq<u8> {
    seq![2u8] + be7(aid.0) + be8(eid.0) + vld_bytes(vld.0) + value_bytes(v)
}

/// Layout of an AVE key for a reference-typed attribute: the value is an
/// entity id, fixed width, so the owning entity moves to the tail and
/// (attr, value, validity) stays a fixed-length scan prefix.
pub open spec fn ave_ref_key_bytes(
    val: EntityId,
    aid: AttrId,
    eid: EntityId,
    vld: Validity,
) -> Seq<u8> {
    seq![3u8] + be7(aid.0) + be8(val.0) + vld_bytes(vld.0) + be8(eid.0)
}

/// Layout of an attribute-metadata key: tag 4 over the attribute id, then
/// the writing transaction.
pub open spec fn attr_by_id_key_bytes(aid: AttrId, tx: TxId) -> Seq<u8> {
    seq![4u8] + be7(aid.0) + be8(tx.0)
}

/// Layout of a transaction-log key: tag 5 over the transaction id.
pub open spec fn tx_key_bytes(tx: TxId) -> Seq<u8> {
    seq![5u8] + be7(tx.0)
}

/// Layout of an existence sentinel per (entity, attribute).
pub open spec fn sentinel_entity_attr_key_bytes(eid: EntityId, aid: AttrId) -> Seq<u8> {
    seq![6u8] + be7(eid.0) + be8(aid.0)
}

/// Layout of a uniqueness sentinel per (attribute, value).
pub open spec fn sentinel_attr_val_key_bytes(aid: AttrId, v: DvView) -> Seq<u8> {
    seq![7u8] + be7(aid.0) + value_bytes(v)
}

/// Layout of an attribute-id allocation sentinel.
pub open spec fn sentinel_attr_by_id_key_bytes(aid: AttrId) -> Seq<u8> {
    seq![8u8] + be7(aid.0)
}

/// Layout of an attribute-name directory key: the tag, then the name's
/// UTF-8 bytes.
pub open spec fn sentinel_attr_by_name_key_bytes(name: Seq<char>) -> Seq<u8> {
    seq![9u8] + encode_utf8(name)
}

/// Encodes an AEV triple key.
pub fn encode_aev_key(aid: AttrId, eid: EntityId, val: &DataValue, vld: Validity) -> (r:
    EncodedVec<LARGE_VEC_SIZE>)
    requires
        aid.wf(),
        eid.wf(),
    ensures
        r@ == aev_key_bytes(aid, eid, val@, vld),
{
    let mut ret: Vec<u8> = Vec::new();
    ret.push(StorageTag::TripleAttrEntityValue.to_byte());
    be7_extend(&mut ret, aid.0);
    eid.extend_bytes_to(&mut ret);
    vld.extend_bytes_to(&mut ret);
    encode_value(val, &mut ret);
    proof {
        assert(ret@ =~= aev_key_bytes(aid, eid, val@, vld));
    }
    EncodedVec { inner: ret }
}

/// Encodes an AVE triple key.
pub fn encode_ave_key(aid: AttrId, val: &DataValue, eid: EntityId, vld: Validity) -> (r:
    EncodedVec<LARGE_VEC_SIZE>)
    requires
        aid.wf(),
        eid.wf(),
    ensures
        r@ == ave_key_bytes(aid, val@, eid, vld),
{
    let mut ret: Vec<u8> = Vec::new();
    ret.push(StorageTag::TripleAttrValueEntity.to_byte());
    be7_extend(&mut ret, aid.0);
    eid.extend_bytes_to(&mut ret);
    vld.extend_bytes_to(&mut ret);
    encode_value(val, &mut ret);
    proof {
        assert(ret@ =~= ave_key_bytes(aid, val@, eid, vld));
    }
    EncodedVec { inner: ret }
}

/// Encodes an AVE key that stands for any entity holding a unique value.
pub fn encode_ave_key_for_unique_v(aid: AttrId, val: &DataValue, vld: Validity) -> (r:
    EncodedVec<LARGE_VEC_SIZE>)
    requires
        aid.wf(),
    ensures
        r@ == ave_key_bytes(aid, val@, EntityId(0), vld),
{
    encode_ave_key(aid, val, EntityId(0), vld)
}

/// Encodes an AVE key for a reference-typed attribute.
pub fn encode_ave_ref_key(val: EntityId, aid: AttrId, eid: EntityId, vld: Validity) -> (r:
    EncodedVec<LARGE_VEC_SIZE>)
    requires
        aid.wf(),
        val.wf(),
        eid.wf(),
    ensures
        r@ == ave_ref_key_bytes(val, aid, eid, vld),
{
    let mut ret: Vec<u8> = Vec::new();
    ret.push(StorageTag::TripleAttrValueRefEntity.to_byte());
    be7_extend(&mut ret, aid.0);
    val.extend_bytes_to(&mut ret);
    vld.extend_bytes_to(&mut ret);
    eid.extend_bytes_to(&mut ret);
    proof {
        assert(ret@ =~= ave_ref_key_bytes(val, aid, eid, vld));
    }
    EncodedVec { inner: ret }
}

/// Encodes an attribute-metadata key.
pub fn encode_attr_by_id(aid: AttrId, tx: TxId) -> (r: EncodedVec<VEC_SIZE_16>)
    requires
        aid.wf(),
        tx.wf(),
    ensures
        r@ == attr_by_id_key_bytes(aid, tx),
{
    let mut ret: Vec<u8> = Vec::new();
    ret.push(StorageTag::AttrById.to_byte());
    be7_extend(&mut ret, aid.0);
    tx.extend_bytes_to(&mut ret);
    proof {
        assert(ret@ =~= attr_by_id_key_bytes(aid, tx));
    }
    EncodedVec { inner: ret }
}

/// Encodes a transaction-log key.
pub fn encode_tx(tx: TxId) -> (r: EncodedVec<VEC_SIZE_8>)
    requires
        tx.wf(),
    ensures
        r@ == tx_key_bytes(tx),
{
    let mut ret: Vec<u8> = Vec::new();
    ret.push(StorageTag::Tx.to_byte());
    be7_extend(&mut ret, tx.0);
    proof {
        assert(ret@ =~= tx_key_bytes(tx));
    }
    EncodedVec { inner: ret }
}

/// Encodes an existence sentinel per (entity, attribute).
pub fn encode_sentinel_entity_attr(eid: EntityId, aid: AttrId) -> (r: EncodedVec<VEC_SIZE_16>)
    requires
        eid.wf(),
        aid.wf(),
    ensures
        r@ == sentinel_entity_attr_key_bytes(eid, aid),
{
    let mut ret: Vec<u8> = Vec::new();
    ret.push(StorageTag::SentinelEntityAttr.to_byte());
    be7_extend(&mut ret, eid.0);
    aid.extend_bytes_to(&mut ret);
    proof {
        assert(ret@ =~= sentinel_entity_attr_key_bytes(eid, aid));
    }
    EncodedVec { inner: ret }
}

/// Encodes a uniqueness sentinel per (attribute, value).
pub fn encode_sentinel_attr_val(aid: AttrId, val: &DataValue) -> (r: EncodedVec<LARGE_VEC_SIZE>)
    requires
        aid.wf(),
    ensures
        r@ == sentinel_attr_val_key_bytes(aid, val@),
{
    let mut ret: Vec<u8> = Vec::new();
    ret.push(StorageTag::SentinelAttrValue.to_byte());
    be7_extend(&mut ret, aid.0);
    encode_value(val, &mut ret);
    proof {
        assert(ret@ =~= sentinel_attr_val_key_bytes(aid, val@));
    }
    EncodedVec { inner: ret }
}

/// Encodes an attribute-id allocation sentinel.
pub fn encode_sentinel_attr_by_id(aid: AttrId) -> (r: EncodedVec<VEC_SIZE_8>)
    requires
        aid.wf(),
    ensures
        r@ == sentinel_attr_by_id_key_bytes(aid),
{
    let mut ret: Vec<u8> = Vec::new();
    ret.push(StorageTag::SentinelAttrById.to_byte());
    be7_extend(&mut ret, aid.0);
    proof {
        assert(ret@ =~= sentinel_attr_by_id_key_bytes(aid));
    }
    EncodedVec { inner: ret }
}

/// Encodes an attribute-name directory key.
pub fn encode_sentinel_attr_by_name(name: &str) -> (r: EncodedVec<LARGE_VEC_SIZE>)
    ensures
        r@ == sentinel_attr_by_name_key_bytes(name@),
{
    let mut ret: Vec<u8> = Vec::new();
    ret.push(StorageTag::SentinelAttrByName.to_byte());
    ret.extend_from_slice(name.as_bytes());
    proof {
        assert(ret@ =~= sentinel_attr_by_name_key_bytes(name@));
    }
    EncodedVec { inner: ret }
}


/// What `decode_ae_key` returns, as a function of the key bytes.
pub open spec fn ae_decoded(s: Seq<u8>) -> Result<(AttrId, EntityId, Validity), DecodeError> {
    if s.len() < 24 {
        Err(DecodeError::TruncatedKey)
    } else if s[0] != 1 && s[0] != 2 {
        Err(DecodeError::BadTag)
    } else {
        Ok(
            (
                AttrId(masked_id(s.subrange(0, 8))),
                EntityId(masked_id(s.subrange(8, 16))),
                Validity(bits_i64(!be8_val(s.subrange(16, 24)))),
            ),
        )
    }
}

/// Decodes the fixed-width fields of an AEV or AVE key.
pub fn decode_ae_key(src: &[u8]) -> (r: Result<(AttrId, EntityId, Validity), DecodeError>)
    ensures
        r == ae_decoded(src@),
{
    if src.len() < 24 {
        return Err(DecodeError::TruncatedKey);
    }
    let tag = src[0];
    if tag != 1 && tag != 2 {
        return Err(DecodeError::BadTag);
    }
    let aid = AttrId(be8_read(src, 0) & 0xffffffffffffffu64);
    let eid = EntityId(be8_read(src, 8) & 0xffffffffffffffu64);
    let vld = Validity(bits_to_i64(!be8_read(src, 16)));
    Ok((aid, eid, vld))
}

/// Decodes the value carried after the 24 fixed bytes of an AEV or AVE key.
pub fn decode_value_from_key(src: &[u8]) -> (r: Result<DataValue, DecodeError>)
    ensures
        forall|v: DvView|
            (v.wf() && src@.len() >= 24 && src@.skip(24) == value_bytes(v)) ==> (r matches Ok(d)
                && d@ == v),
        src@.len() < 24 ==> r == Err::<DataValue, DecodeError>(DecodeError::TruncatedKey),
        src@.len() == 24 ==> r == Err::<DataValue, DecodeError>(DecodeError::ValueDeserError),
        (src@.len() > 24 && src@[24] > VB_REF) ==> r == Err::<DataValue, DecodeError>(
            DecodeError::ValueDeserError,
        ),
        (src@.len() >= 24 && r is Err) ==> r->Err_0 == DecodeError::ValueDeserError,
{
    if src.len() < 24 {
        return Err(DecodeError::TruncatedKey);
    }
    let payload = slice_subrange(src, 24, src.len());
    proof {
        assert(payload@ =~= src@.skip(24));
    }
    decode_value(payload)
}

/// Decodes the value stored after the 8-byte transaction header of a triple
/// record's value cell.
pub fn decode_value_from_val(src: &[u8]) -> (r: Result<DataValue, DecodeError>)
    ensures
        forall|v: DvView|
            (v.wf() && src@.len() >= 8 && src@.skip(8) == value_bytes(v)) ==> (r matches Ok(d)
                && d@ == v),
        src@.len() < 8 ==> r == Err::<DataValue, DecodeError>(DecodeError::TruncatedKey),
        src@.len() == 8 ==> r == Err::<DataValue, DecodeError>(DecodeError::ValueDeserError),
        (src@.len() > 8 && src@[8] > VB_REF) ==> r == Err::<DataValue, DecodeError>(
            DecodeError::ValueDeserError,
        ),
        (src@.len() >= 8 && r is Err) ==> r->Err_0 == DecodeError::ValueDeserError,
{
    if src.len() < 8 {
        return Err(DecodeError::TruncatedKey);
    }
    let payload = slice_subrange(src, 8, src.len());
    proof {
        assert(payload@ =~= src@.skip(8));
    }
    decode_value(payload)
}

/// What `decode_ave_ref_key` returns, as a function of the key bytes.
pub open spec fn ave_ref_decoded(s: Seq<u8>) -> Result<
    (AttrId, EntityId, EntityId, Validity),
    DecodeError,
> {
    if s.len() < 32 {
        Err(DecodeError::TruncatedKey)
    } else if s[0] != 3 {
        Err(DecodeError::BadTag)
    } else {
        Ok(
            (
                AttrId(masked_id(s.subrange(0, 8))),
                EntityId(masked_id(s.subrange(8, 16))),
                EntityId(masked_id(s.subrange(24, 32))),
                Validity(bits_i64(!be8_val(s.subrange(16, 24)))),
            ),
        )
    }
}

/// Decodes a reference-typed AVE key into (attribute, value entity, owning
/// entity, validity).
pub fn decode_ave_ref_key(src: &[u8]) -> (r: Result<
    (AttrId, EntityId, EntityId, Validity),
    DecodeError,
>)
    ensures
        r == ave_ref_decoded(src@),
{
    if src.len() < 32 {
        return Err(DecodeError::TruncatedKey);
    }
    if src[0] != 3 {
        return Err(DecodeError::BadTag);
    }
    let aid = AttrId(be8_read(src, 0) & 0xffffffffffffffu64);
    let vid = EntityId(be8_read(src, 8) & 0xffffffffffffffu64);
    let eid = EntityId(be8_read(src, 24) & 0xffffffffffffffu64);
    let vld = Validity(bits_to_i64(!be8_read(src, 16)));
    Ok((aid, vid, eid, vld))
}

/// What `decode_attr_key_by_id` returns, as a function of the key bytes.
pub open spec fn attr_by_id_decoded(s: Seq<u8>) -> Result<(AttrId, TxId), DecodeError> {
    if s.len() < 16 {
        Err(DecodeError::TruncatedKey)
    } else if s[0] != 4 {
        Err(DecodeError::BadTag)
    } else {
        Ok((AttrId(masked_id(s.subrange(0, 8))), TxId(masked_id(s.subrange(8, 16)))))
    }
}

/// Decodes an attribute-metadata key.
pub fn decode_attr_key_by_id(src: &[u8]) -> (r: Result<(AttrId, TxId), DecodeError>)
    ensures
        r == attr_by_id_decoded(src@),
{
    if src.len() < 16 {
        return Err(DecodeError::TruncatedKey);
    }
    if src[0] != 4 {
        return Err(DecodeError::BadTag);
    }
    let aid = AttrId(be8_read(src, 0) & 0xffffffffffffffu64);
    let tx = TxId(be8_read(src, 8) & 0xffffffffffffffu64);
    Ok((aid, tx))
}

/// Decodes a uniqueness sentinel into its attribute and value.
pub fn decode_sentinel_attr_val(src: &[u8]) -> (r: Result<(AttrId, DataValue), DecodeError>)
    ensures
        src@.len() < 8 ==> r == Err::<(AttrId, DataValue), DecodeError>(DecodeError::TruncatedKey),
        (src@.len() >= 8 && src@[0] != 7) ==> r == Err::<(AttrId, DataValue), DecodeError>(
            DecodeError::BadTag,
        ),
        forall|v: DvView|
            (v.wf() && src@.len() >= 8 && src@[0] == 7 && src@.skip(8) == value_bytes(v)) ==> (
            r matches Ok(p) && p.0 == AttrId(masked_id(src@.subrange(0, 8))) && p.1@ == v),
        (src@.len() >= 8 && src@[0] == 7 && src@.len() == 8) ==> r == Err::<
            (AttrId, DataValue),
            DecodeError,
        >(DecodeError::ValueDeserError),
        (src@.len() > 8 && src@[0] == 7 && src@[8] > VB_REF) ==> r == Err::<
            (AttrId, DataValue),
            DecodeError,
        >(DecodeError::ValueDeserError),
        (src@.len() >= 8 && src@[0] == 7 && r is Err) ==> r->Err_0
            == DecodeError::ValueDeserError,
{
    if src.len() < 8 {
        return Err(DecodeError::TruncatedKey);
    }
    if src[0] != 7 {
        return Err(DecodeError::BadTag);
    }
    let aid = AttrId(be8_read(src, 0) & 0xffffffffffffffu64);
    let payload = slice_subrange(src, 8, src.len());
    proof {
        assert(payload@ =~= src@.skip(8));
    }
    match decode_value(payload) {
        Ok(val) => Ok((aid, val)),
        Err(e) => Err(e),
    }
}

/// Relies on `std::str::from_utf8`: it succeeds exactly on valid UTF-8 and
/// returns the string those bytes encode.
#[verifier::external_body]
fn utf8_to_str<'a>(b: &'a [u8]) -> (r: Option<&'a str>)
    ensures
        r is Some ==> valid_utf8(b@) && r->Some_0@ == decode_utf8(b@),
        r is None ==> !valid_utf8(b@),
{
    std::str::from_utf8(b).ok()
}

/// Decodes an attribute-name directory key back to the name.  Exactly the
/// keys the encoder produces decode, to the name they were built from.
pub fn decode_sentinel_attr_by_name(src: &[u8]) -> (r: Result<&str, DecodeError>)
    ensures
        src@.len() < 1 ==> (r is Err && r->Err_0 == DecodeError::TruncatedKey),
        (src@.len() >= 1 && src@[0] != 9) ==> (r is Err && r->Err_0 == DecodeError::BadTag),
        (src@.len() >= 1 && src@[0] == 9 && valid_utf8(src@.skip(1))) ==> r is Ok,
        (src@.len() >= 1 && src@[0] == 9 && !valid_utf8(src@.skip(1))) ==> (r is Err && r->Err_0
            == DecodeError::ValueDeserError),
        forall|t: Seq<char>|
            src@ == sentinel_attr_by_name_key_bytes(t) ==> (r matches Ok(s) && s@ == t),
        (r is Ok) ==> src@ == sentinel_attr_by_name_key_bytes(r->Ok_0@),
{
    if src.len() < 1 {
        return Err(DecodeError::TruncatedKey);
    }
    if src[0] != 9 {
        return Err(DecodeError::BadTag);
    }
    let payload = slice_subrange(src, 1, src.len());
    proof {
        assert(payload@ =~= src@.skip(1));
    }
    match utf8_to_str(payload) {
        Some(s) => {
            proof {
                decode_utf8_encode_utf8(payload@);
                assert(src@ =~= sentinel_attr_by_name_key_bytes(s@));
                assert forall|t: Seq<char>|
                    src@ == sentinel_attr_by_name_key_bytes(t) implies s@ == t by {
                    assert(payload@ =~= encode_utf8(t));
                    encode_utf8_decode_utf8(t);
                }
            }
            Ok(s)
        },
        None => {
            proof {
                assert forall|t: Seq<char>|
                    src@ != sentinel_attr_by_name_key_bytes(t) by {
                    encode_utf8_valid_utf8(t);
                    if src@ == sentinel_attr_by_name_key_bytes(t) {
                        assert(payload@ =~= encode_utf8(t));
                    }
                }
            }
            Err(DecodeError::ValueDeserError)
        },
    }
}

/// The maximum Unicode code point; its UTF-8 form closes the name
/// directory's key range.
pub const LARGEST_UTF_CHAR: char = '\u{10FFFF}';

/// The lexicographically smallest legal key: the AEV key of the reserved
/// lowest attribute, entity, value and the infinite past.
pub open spec fn smallest_key_bytes() -> Seq<u8> {
    aev_key_bytes(AttrId(0), EntityId(0), DvView::Null, Validity(i64::MIN))
}

/// The lexicographically largest legal key: the name-directory key of the
/// maximum code point.
pub open spec fn largest_key_bytes() -> Seq<u8> {
    sentinel_attr_by_name_key_bytes(seq![LARGEST_UTF_CHAR])
}

/// One endpoint of a full-store scan.
pub fn smallest_key() -> (r: EncodedVec<LARGE_VEC_SIZE>)
    ensures
        r@ == smallest_key_bytes(),
{
    encode_aev_key(AttrId(0), EntityId::zero(), &DataValue::Null, Validity::min_validity())
}

/// The other endpoint of a full-store scan.
pub fn largest_key() -> (r: EncodedVec<LARGE_VEC_SIZE>)
    ensures
        r@ == largest_key_bytes(),
{
    let name: &str = "\u{10FFFF}";
    proof {
        reveal_strlit("\u{10FFFF}");
        assert(name@ =~= seq![LARGEST_UTF_CHAR]);
    }
    encode_sentinel_attr_by_name(name)
}

impl<const N: usize> EncodedVec<N> {
    /// Overwrites the validity field of an encoded AEV or AVE key in place,
    /// re-pointing it at another time without reallocating.
    pub fn encoded_entity_amend_validity(&mut self, vld: Validity)
        requires
            old(self)@.len() >= 24,
            old(self)@[0] == 1 || old(self)@[0] == 2,
        ensures
            final(self)@ == old(self)@.subrange(0, 16) + vld_bytes(vld.0) + old(self)@.skip(24),
    {
        let mut b: Vec<u8> = Vec::new();
        vld.extend_bytes_to(&mut b);
        let mut i: usize = 0;
        while i < 8
            invariant
                i <= 8,
                b@ == vld_bytes(vld.0),
                self@.len() == old(self)@.len(),
                old(self)@.len() >= 24,
                forall|j: int|
                    0 <= j < old(self)@.len() && !(16 <= j < 16 + i) ==> self@[j] == old(self)@[j],
                forall|j: int| 0 <= j < i ==> self@[16 + j] == b@[j],
            decreases 8 - i,
        {
            let byte = b[i];
            *vec_index_mut(&mut self.inner, 16 + i) = byte;
            i += 1;
        }
        proof {
            assert(self@ =~= old(self)@.subrange(0, 16) + vld_bytes(vld.0) + old(self)@.skip(24));
        }
    }

    /// Re-points the key at the infinite future.
    pub fn encoded_entity_amend_validity_to_inf_future(&mut self)
        requires
            old(self)@.len() >= 24,
            old(self)@[0] == 1 || old(self)@[0] == 2,
        ensures
            final(self)@ == old(self)@.subrange(0, 16) + vld_bytes(i64::MAX) + old(self)@.skip(24),
    {
        self.encoded_entity_amend_validity(Validity::max_validity());
    }

    /// Re-points the key at the infinite past.
    pub fn encoded_entity_amend_validity_to_inf_past(&mut self)
        requires
            old(self)@.len() >= 24,
            old(self)@[0] == 1 || old(self)@[0] == 2,
        ensures
            final(self)@ == old(self)@.subrange(0, 16) + vld_bytes(i64::MIN) + old(self)@.skip(24),
    {
        self.encoded_entity_amend_validity(Validity::min_validity());
    }
}

/// Round trip of an AEV key: decoding returns the ids and validity it was
/// built from, and the value bytes sit exactly after the fixed fields.
pub proof fn lemma_aev_round_trip(aid: AttrId, eid: EntityId, v: DvView, vld: Validity)
    requires
        aid.wf(),
        eid.wf(),
    ensures
        ae_decoded(aev_key_bytes(aid, eid, v, vld)) == Ok::<(AttrId, EntityId, Validity), DecodeError>((aid, eid, vld)),
        aev_key_bytes(aid, eid, v, vld).skip(24) == value_bytes(v),
{
    let k = aev_key_bytes(aid, eid, v, vld);
    assert(k.subrange(0, 8) =~= seq![1u8] + be8(aid.0).skip(1));
    assert(k.subrange(8, 16) =~= be8(eid.0));
    assert(k.subrange(16, 24) =~= vld_bytes(vld.0));
    assert(k.skip(24) =~= value_bytes(v));
    lemma_masked_id_roundtrip(aid.0, 1);
    lemma_masked_id_plain(eid.0);
    lemma_vld_roundtrip(vld.0);
}

/// Round trip of an AVE key.
pub proof fn lemma_ave_round_trip(aid: AttrId, v: DvView, eid: EntityId, vld: Validity)
    requires
        aid.wf(),
        eid.wf(),
    ensures
        ae_decoded(ave_key_bytes(aid, v, eid, vld)) == Ok::<(AttrId, EntityId, Validity), DecodeError>((aid, eid, vld)),
        ave_key_bytes(aid, v, eid, vld).skip(24) == value_bytes(v),
{
    let k = ave_key_bytes(aid, v, eid, vld);
    assert(k.subrange(0, 8) =~= seq![2u8] + be8(aid.0).skip(1));
    assert(k.subrange(8, 16) =~= be8(eid.0));
    assert(k.subrange(16, 24) =~= vld_bytes(vld.0));
    assert(k.skip(24) =~= value_bytes(v));
    lemma_masked_id_roundtrip(aid.0, 2);
    lemma_masked_id_plain(eid.0);
    lemma_vld_roundtrip(vld.0);
}

/// Round trip of a reference-typed AVE key.
pub proof fn lemma_ave_ref_round_trip(val: EntityId, aid: AttrId, eid: EntityId, vld: Validity)
    requires
        val.wf(),
        aid.wf(),
        eid.wf(),
    ensures
        ave_ref_decoded(ave_ref_key_bytes(val, aid, eid, vld)) == Ok::<(AttrId, EntityId, EntityId, Validity), DecodeError>((aid, val, eid, vld)),
{
    let k = ave_ref_key_bytes(val, aid, eid, vld);
    assert(k.subrange(0, 8) =~= seq![3u8] + be8(aid.0).skip(1));
    assert(k.subrange(8, 16) =~= be8(val.0));
    assert(k.subrange(16, 24) =~= vld_bytes(vld.0));
    assert(k.subrange(24, 32) =~= be8(eid.0));
    lemma_masked_id_roundtrip(aid.0, 3);
    lemma_masked_id_plain(val.0);
    lemma_masked_id_plain(eid.0);
    lemma_vld_roundtrip(vld.0);
}

/// Round trip of an attribute-metadata key.
pub proof fn lemma_attr_by_id_round_trip(aid: AttrId, tx: TxId)
    requires
        aid.wf(),
        tx.wf(),
    ensures
        attr_by_id_decoded(attr_by_id_key_bytes(aid, tx)) == Ok::<(AttrId, TxId), DecodeError>((aid, tx)),
{
    let k = attr_by_id_key_bytes(aid, tx);
    assert(k.subrange(0, 8) =~= seq![4u8] + be8(aid.0).skip(1));
    assert(k.subrange(8, 16) =~= be8(tx.0));
    lemma_masked_id_roundtrip(aid.0, 4);
    lemma_masked_id_plain(tx.0);
}

/// Round trip of a uniqueness sentinel's fixed fields: the attribute reads
/// back and the value bytes sit exactly after it.
pub proof fn lemma_sentinel_attr_val_parts(aid: AttrId, v: DvView)
    requires
        aid.wf(),
    ensures
        masked_id(sentinel_attr_val_key_bytes(aid, v).subrange(0, 8)) == aid.0,
        sentinel_attr_val_key_bytes(aid, v).skip(8) == value_bytes(v),
        sentinel_attr_val_key_bytes(aid, v)[0] == 7,
{
    let k = sentinel_attr_val_key_bytes(aid, v);
    assert(k.subrange(0, 8) =~= seq![7u8] + be8(aid.0).skip(1));
    assert(k.skip(8) =~= value_bytes(v));
    lemma_masked_id_roundtrip(aid.0, 7);
}

/// Amending the validity of an AEV key yields the AEV key of the new
/// validity: every other field is unchanged.
pub proof fn lemma_amend_validity_aev(
    aid: AttrId,
    eid: EntityId,
    v: DvView,
    vld: Validity,
    vld2: Validity,
)
    ensures
        aev_key_bytes(aid, eid, v, vld).subrange(0, 16) + vld_bytes(vld2.0) + aev_key_bytes(
            aid,
            eid,
            v,
            vld,
        ).skip(24) == aev_key_bytes(aid, eid, v, vld2),
{
    assert(aev_key_bytes(aid, eid, v, vld).subrange(0, 16) + vld_bytes(vld2.0) + aev_key_bytes(
        aid,
        eid,
        v,
        vld,
    ).skip(24) =~= aev_key_bytes(aid, eid, v, vld2));
}

/// Amending the validity of an AVE key likewise.
pub proof fn lemma_amend_validity_ave(
    aid: AttrId,
    v: DvView,
    eid: EntityId,
    vld: Validity,
    vld2: Validity,
)
    ensures
        ave_key_bytes(aid, v, eid, vld).subrange(0, 16) + vld_bytes(vld2.0) + ave_key_bytes(
            aid,
            v,
            eid,
            vld,
        ).skip(24) == ave_key_bytes(aid, v, eid, vld2),
{
    assert(ave_key_bytes(aid, v, eid, vld).subrange(0, 16) + vld_bytes(vld2.0) + ave_key_bytes(
        aid,
        v,
        eid,
        vld,
    ).skip(24) =~= ave_key_bytes(aid, v, eid, vld2));
}

} // verus!

