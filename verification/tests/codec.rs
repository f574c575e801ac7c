use triplekv::encode::{
    encode_aev_key, encode_ave_key, encode_ave_key_for_unique_v, encode_ave_ref_key,
    encode_attr_by_id, encode_tx, encode_sentinel_entity_attr, encode_sentinel_attr_val,
    encode_sentinel_attr_by_id, encode_sentinel_attr_by_name, decode_ae_key, decode_ave_ref_key,
    decode_attr_key_by_id, decode_sentinel_attr_val, decode_sentinel_attr_by_name,
    decode_value_from_key, decode_value_from_val, smallest_key, largest_key, StorageTag,
    EncodedVec, LARGE_VEC_SIZE,
};
use triplekv::errors::DecodeError;
use triplekv::ids::{AttrId, EntityId, TxId, Validity, IdError};
use triplekv::value::{DataValue, decode_value};

#[test]
fn aev_key_layout_and_round_trip() {
    let k = encode_aev_key(AttrId(5), EntityId(7), &DataValue::Int(42), Validity(100));
    let b = k.as_slice();
    assert_eq!(b[0], 0x01);
    assert_eq!(&b[1..8], &[0, 0, 0, 0, 0, 0, 5]);
    assert_eq!(&b[8..16], &[0, 0, 0, 0, 0, 0, 0, 7]);
    assert_eq!(&b[16..24], &(!100u64).to_be_bytes());
    let (a, e, t) = decode_ae_key(b).unwrap();
    assert_eq!((a, e, t), (AttrId(5), EntityId(7), Validity(100)));
    assert_eq!(decode_value_from_key(b).unwrap(), DataValue::Int(42));
}

#[test]
fn ave_key_round_trip() {
    let k = encode_ave_key(AttrId(9), &DataValue::Str(String::from("v")), EntityId(4), Validity(-3));
    let b = k.as_slice();
    assert_eq!(b[0], 0x02);
    let (a, e, t) = decode_ae_key(b).unwrap();
    assert_eq!((a, e, t), (AttrId(9), EntityId(4), Validity(-3)));
    assert_eq!(decode_value_from_key(b).unwrap(), DataValue::Str(String::from("v")));
}

#[test]
fn ave_key_for_unique_v_uses_zero_entity() {
    let k = encode_ave_key_for_unique_v(AttrId(9), &DataValue::Bool(true), Validity(5));
    let (a, e, t) = decode_ae_key(k.as_slice()).unwrap();
    assert_eq!((a, e, t), (AttrId(9), EntityId(0), Validity(5)));
}

#[test]
fn ave_ref_key_round_trip() {
    let k = encode_ave_ref_key(EntityId(33), AttrId(2), EntityId(44), Validity(17));
    let b = k.as_slice();
    assert_eq!(b[0], 0x03);
    assert_eq!(b.len(), 32);
    let (a, v, e, t) = decode_ave_ref_key(b).unwrap();
    assert_eq!((a, v, e, t), (AttrId(2), EntityId(33), EntityId(44), Validity(17)));
}

#[test]
fn attr_by_id_round_trip() {
    let k = encode_attr_by_id(AttrId(12), TxId(99));
    let b = k.as_slice();
    assert_eq!(b[0], 0x04);
    assert_eq!(b.len(), 16);
    let (a, tx) = decode_attr_key_by_id(b).unwrap();
    assert_eq!((a, tx), (AttrId(12), TxId(99)));
}

#[test]
fn tx_key_layout() {
    let k = encode_tx(TxId(300));
    let b = k.as_slice();
    assert_eq!(b[0], 0x05);
    assert_eq!(b.len(), 8);
    assert_eq!(&b[1..8], &[0, 0, 0, 0, 0, 1, 44]);
}

#[test]
fn sentinel_entity_attr_layout() {
    let k = encode_sentinel_entity_attr(EntityId(8), AttrId(3));
    let b = k.as_slice();
    assert_eq!(b[0], 0x06);
    assert_eq!(b.len(), 16);
    assert_eq!(&b[1..8], &[0, 0, 0, 0, 0, 0, 8]);
    assert_eq!(&b[8..16], &[0, 0, 0, 0, 0, 0, 0, 3]);
}

#[test]
fn sentinel_attr_val_round_trip() {
    let k = encode_sentinel_attr_val(AttrId(6), &DataValue::Int(-5));
    let b = k.as_slice();
    assert_eq!(b[0], 0x07);
    let (a, v) = decode_sentinel_attr_val(b).unwrap();
    assert_eq!(a, AttrId(6));
    assert_eq!(v, DataValue::Int(-5));
}

#[test]
fn sentinel_attr_by_id_layout() {
    let k = encode_sentinel_attr_by_id(AttrId(77));
    let b = k.as_slice();
    assert_eq!(b[0], 0x08);
    assert_eq!(b.len(), 8);
    assert_eq!(&b[1..8], &[0, 0, 0, 0, 0, 0, 77]);
}

#[test]
fn sentinel_attr_by_name_round_trip() {
    let k = encode_sentinel_attr_by_name("person/name\u{00e9}\u{2192}");
    let b = k.as_slice();
    assert_eq!(b[0], 0x09);
    let name = decode_sentinel_attr_by_name(b).unwrap();
    assert_eq!(name, "person/name\u{00e9}\u{2192}");
}

#[test]
fn sentinel_attr_by_name_rejects_bad_utf8() {
    let r = decode_sentinel_attr_by_name(&[0x09, 0xff, 0xfe]);
    assert_eq!(r.unwrap_err(), DecodeError::ValueDeserError);
}

#[test]
fn value_variants_round_trip_through_sentinel_keys() {
    let vals = vec![
        DataValue::Null,
        DataValue::Bool(true),
        DataValue::Bool(false),
        DataValue::Int(0),
        DataValue::Int(i64::MIN),
        DataValue::Int(i64::MAX),
        DataValue::Str(String::new()),
        DataValue::Str(String::from("h\u{00e9}llo")),
        DataValue::RefId(EntityId(123456789)),
    ];
    for v in vals {
        let k = encode_sentinel_attr_val(AttrId(1), &v);
        let (_, back) = decode_sentinel_attr_val(k.as_slice()).unwrap();
        assert_eq!(back, v);
    }
}

#[test]
fn value_payloads_are_messagepack() {
    // Int 42 -> positive fixint, Str "hi" -> fixstr of length 2, booleans ->
    // their MessagePack markers: the payload really is transformed.
    let k = encode_aev_key(AttrId(1), EntityId(1), &DataValue::Int(42), Validity(0));
    assert_eq!(&k.as_slice()[24..], &[2, 0x2a]);
    let k = encode_sentinel_attr_val(AttrId(1), &DataValue::Str(String::from("hi")));
    assert_eq!(&k.as_slice()[8..], &[3, 0xa2, b'h', b'i']);
    let k = encode_sentinel_attr_val(AttrId(1), &DataValue::Bool(true));
    assert_eq!(&k.as_slice()[8..], &[1, 0xc3]);
    let k = encode_sentinel_attr_val(AttrId(1), &DataValue::Bool(false));
    assert_eq!(&k.as_slice()[8..], &[1, 0xc2]);
    let k = encode_sentinel_attr_val(AttrId(1), &DataValue::Int(-5));
    assert_eq!(&k.as_slice()[8..], &[2, 0xfb]);
    let k = encode_sentinel_attr_val(AttrId(1), &DataValue::Null);
    assert_eq!(&k.as_slice()[8..], &[0]);
    let k = encode_sentinel_attr_val(AttrId(1), &DataValue::RefId(EntityId(7)));
    assert_eq!(&k.as_slice()[8..], &[4, 0x07]);
}

#[test]
fn decode_value_from_val_skips_tx_header() {
    let mut cell: Vec<u8> = Vec::new();
    cell.extend_from_slice(&[0u8; 8]);
    let k = encode_sentinel_attr_val(AttrId(1), &DataValue::Int(7));
    cell.extend_from_slice(&k.as_slice()[8..]);
    assert_eq!(decode_value_from_val(&cell).unwrap(), DataValue::Int(7));
}

#[test]
fn decode_errors() {
    assert_eq!(decode_ae_key(&[1, 2, 3]).unwrap_err(), DecodeError::TruncatedKey);
    let k = encode_aev_key(AttrId(5), EntityId(7), &DataValue::Null, Validity(0));
    let mut b = k.as_slice().to_vec();
    b[0] = 0x06;
    assert_eq!(decode_ae_key(&b).unwrap_err(), DecodeError::BadTag);
    assert_eq!(decode_ave_ref_key(&[3u8; 8]).unwrap_err(), DecodeError::TruncatedKey);
    assert_eq!(decode_attr_key_by_id(&[5u8; 16]).unwrap_err(), DecodeError::BadTag);
    assert_eq!(decode_sentinel_attr_val(&[7u8]).unwrap_err(), DecodeError::TruncatedKey);
    assert_eq!(decode_sentinel_attr_by_name(&[]).unwrap_err(), DecodeError::TruncatedKey);
    assert_eq!(decode_value(&[]).unwrap_err(), DecodeError::ValueDeserError);
    assert_eq!(decode_value_from_key(&[1u8; 24]).unwrap_err(), DecodeError::ValueDeserError);
    let mut long = vec![1u8; 25];
    long[24] = 200;
    assert_eq!(decode_value_from_key(&long).unwrap_err(), DecodeError::ValueDeserError);
    assert_eq!(decode_value_from_val(&[7u8; 8]).unwrap_err(), DecodeError::ValueDeserError);
    assert_eq!(
        decode_sentinel_attr_val(&[7, 0, 0, 0, 0, 0, 0, 1, 99]).unwrap_err(),
        DecodeError::ValueDeserError
    );
    assert_eq!(decode_value(&[9, 1]).unwrap_err(), DecodeError::ValueDeserError);
    assert_eq!(decode_value(&[2]).unwrap_err(), DecodeError::ValueDeserError);
}

#[test]
fn id_from_bytes_masks_tag_and_rejects_short_input() {
    let k = encode_aev_key(AttrId(5), EntityId(7), &DataValue::Null, Validity(0));
    let b = k.as_slice();
    assert_eq!(AttrId::from_bytes(&b[0..8]).unwrap(), AttrId(5));
    assert_eq!(EntityId::from_bytes(&b[8..16]).unwrap(), EntityId(7));
    assert_eq!(AttrId::from_bytes(&[1, 2, 3]).unwrap_err(), IdError::InvalidId);
    assert_eq!(TxId::from_bytes(&[]).unwrap_err(), IdError::InvalidId);
    assert_eq!(Validity::from_bytes(&(!100u64).to_be_bytes()).unwrap(), Validity(100));
}

#[test]
fn storage_tag_bytes() {
    for b in 1u8..=9u8 {
        let t = StorageTag::try_from(b).unwrap();
        assert_eq!(t.to_byte(), b);
    }
    assert_eq!(StorageTag::try_from(0).unwrap_err(), DecodeError::BadTag);
    assert_eq!(StorageTag::try_from(10).unwrap_err(), DecodeError::BadTag);
}

#[test]
fn smallest_key_bytes_value() {
    let s = smallest_key();
    let mut expect: Vec<u8> = Vec::new();
    expect.push(1);
    expect.extend_from_slice(&[0u8; 7]);
    expect.extend_from_slice(&[0u8; 8]);
    expect.extend_from_slice(&(!(i64::MIN as u64)).to_be_bytes());
    expect.push(0);
    assert_eq!(s.as_slice(), &expect[..]);
}

#[test]
fn largest_key_bytes_value() {
    let l = largest_key();
    assert_eq!(l.as_slice(), &[9, 0xf4, 0x8f, 0xbf, 0xbf]);
}

#[test]
fn smallest_key_below_reserved_aev_key() {
    let s = smallest_key();
    let k = encode_aev_key(AttrId(1), EntityId::zero(), &DataValue::Null, Validity::max_validity());
    assert!(s.as_slice() < k.as_slice());
}

#[test]
fn largest_key_above_every_other_family() {
    let l = largest_key();
    let keys: Vec<Vec<u8>> = vec![
        encode_aev_key(AttrId(5), EntityId(7), &DataValue::Int(1), Validity(0)).as_slice().to_vec(),
        encode_ave_key(AttrId(5), &DataValue::Int(1), EntityId(7), Validity(0)).as_slice().to_vec(),
        encode_ave_ref_key(EntityId(1), AttrId(2), EntityId(3), Validity(0)).as_slice().to_vec(),
        encode_attr_by_id(AttrId(1), TxId(1)).as_slice().to_vec(),
        encode_tx(TxId(1)).as_slice().to_vec(),
        encode_sentinel_entity_attr(EntityId(1), AttrId(1)).as_slice().to_vec(),
        encode_sentinel_attr_val(AttrId(1), &DataValue::Null).as_slice().to_vec(),
        encode_sentinel_attr_by_id(AttrId(1)).as_slice().to_vec(),
        smallest_key().as_slice().to_vec(),
    ];
    for k in keys {
        assert!(k[..] < l.as_slice()[..]);
        assert!(smallest_key().as_slice() <= &k[..]);
    }
}

#[test]
fn newer_validity_sorts_first() {
    let older = encode_aev_key(AttrId(3), EntityId(9), &DataValue::Int(1), Validity(10));
    let newer = encode_aev_key(AttrId(3), EntityId(9), &DataValue::Int(1), Validity(20));
    assert!(newer.as_slice() < older.as_slice());
    let older = encode_ave_key(AttrId(3), &DataValue::Int(1), EntityId(9), Validity(10));
    let newer = encode_ave_key(AttrId(3), &DataValue::Int(1), EntityId(9), Validity(20));
    assert!(newer.as_slice() < older.as_slice());
}

#[test]
fn negative_validities_order_within_their_sign() {
    let older = encode_aev_key(AttrId(3), EntityId(9), &DataValue::Int(1), Validity(-20));
    let newer = encode_aev_key(AttrId(3), EntityId(9), &DataValue::Int(1), Validity(-10));
    assert!(newer.as_slice() < older.as_slice());
}

#[test]
fn aev_orders_by_entity_before_validity() {
    let a = encode_aev_key(AttrId(3), EntityId(1), &DataValue::Int(9), Validity(0));
    let b = encode_aev_key(AttrId(3), EntityId(2), &DataValue::Int(0), Validity(500));
    assert!(a.as_slice() < b.as_slice());
}

#[test]
fn distinct_families_never_collide() {
    let aev = encode_aev_key(AttrId(1), EntityId(1), &DataValue::Null, Validity(0));
    let ave = encode_ave_key(AttrId(1), &DataValue::Null, EntityId(1), Validity(0));
    assert_ne!(aev.as_slice(), ave.as_slice());
    assert_eq!(&aev.as_slice()[1..], &ave.as_slice()[1..]);
}

#[test]
fn amend_validity_repoints_key_in_place() {
    let mut k = encode_aev_key(AttrId(5), EntityId(7), &DataValue::Int(42), Validity(10));
    k.encoded_entity_amend_validity(Validity(77));
    let (a, e, t) = decode_ae_key(k.as_slice()).unwrap();
    assert_eq!((a, e, t), (AttrId(5), EntityId(7), Validity(77)));
    assert_eq!(decode_value_from_key(k.as_slice()).unwrap(), DataValue::Int(42));
    let direct = encode_aev_key(AttrId(5), EntityId(7), &DataValue::Int(42), Validity(77));
    assert_eq!(k.as_slice(), direct.as_slice());
}

#[test]
fn amend_validity_endpoints() {
    let mut k = encode_ave_key(AttrId(5), &DataValue::Int(1), EntityId(7), Validity(10));
    k.encoded_entity_amend_validity_to_inf_future();
    let (_, _, t) = decode_ae_key(k.as_slice()).unwrap();
    assert_eq!(t, Validity(i64::MAX));
    k.encoded_entity_amend_validity_to_inf_past();
    let (_, _, t) = decode_ae_key(k.as_slice()).unwrap();
    assert_eq!(t, Validity(i64::MIN));
}

#[test]
fn encoded_vec_copy_from_slice() {
    let mut k: EncodedVec<LARGE_VEC_SIZE> = EncodedVec::from_slice(&[1, 2, 3]);
    assert_eq!(k.len(), 3);
    let d = k.dup();
    k.copy_from_slice(&[9, 9]);
    assert_eq!(k.as_slice(), &[9, 9]);
    assert_eq!(d.as_slice(), &[1, 2, 3]);
}
