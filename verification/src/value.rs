//! The tagged `DataValue` carried in keys, and its self-delimiting byte
//! encoding.  A one-byte variant tag of the key codec's own is followed by a
//! MessagePack payload produced by `rmp_serde`; decoding dispatches on the
//! tag and inverts the payload.

use vstd::prelude::*;
use vstd::slice::slice_subrange;
use vstd::utf8::encode_utf8;

use crate::errors::DecodeError;
use crate::ids::EntityId;

verus! {

/// A value bound to an attribute: the variants the codec carries.
#[derive(Debug, PartialEq)]
pub enum DataValue {
    Null,
    Bool(bool),
    Int(i64),
    Str(String),
    RefId(EntityId),
}

/// The mathematical image of a `DataValue`.
pub enum DvView {
    Null,
    Bool(bool),
    Int(int),
    Str(Seq<char>),
    RefId(int),
}

impl View for DataValue {
    type V = DvView;

    open spec fn view(&self) -> DvView {
        match self {
            DataValue::Null => DvView::Null,
            DataValue::Bool(b) => DvView::Bool(*b),
            DataValue::Int(i) => DvView::Int(*i as int),
            DataValue::Str(s) => DvView::Str(s@),
            DataValue::RefId(e) => DvView::RefId(e.0 as int),
        }
    }
}

impl DvView {
    /// Payloads the encoding represents faithfully: numeric fields within
    /// their machine range, and a string whose UTF-8 form fits the 32-bit
    /// length prefix of the MessagePack string format.
    pub open spec fn wf(self) -> bool {
        match self {
            DvView::Int(i) => i64::MIN <= i <= i64::MAX,
            DvView::RefId(e) => 0 <= e <= u64::MAX,
            DvView::Str(s) => encode_utf8(s).len() < 0x100000000,
            _ => true,
        }
    }
}

/// Leading tag byte of each value variant.
pub const VB_NULL: u8 = 0;
pub const VB_BOOL: u8 = 1;
pub const VB_INT: u8 = 2;
pub const VB_STR: u8 = 3;
pub const VB_REF: u8 = 4;

/// The MessagePack bytes of a signed 64-bit integer.
pub uninterp spec fn msgpack_i64_bytes(x: int) -> Seq<u8>;

/// The MessagePack bytes of an unsigned 64-bit integer.
pub uninterp spec fn msgpack_u64_bytes(x: int) -> Seq<u8>;

/// The MessagePack bytes of a string.
pub uninterp spec fn msgpack_str_bytes(s: Seq<char>) -> Seq<u8>;

/// The byte encoding of a value: its variant tag, then its payload.
pub open spec fn value_bytes(v: DvView) -> Seq<u8> {
    match v {
        DvView::Null => seq![VB_NULL],
        DvView::Bool(b) => seq![VB_BOOL, if b { 0xc3u8 } else { 0xc2u8 }],
        DvView::Int(i) => seq![VB_INT] + msgpack_i64_bytes(i),
        DvView::Str(s) => seq![VB_STR] + msgpack_str_bytes(s),
        DvView::RefId(e) => seq![VB_REF] + msgpack_u64_bytes(e),
    }
}

/// How an encoding splits: its head byte names the variant, the rest is the
/// payload.
pub proof fn lemma_value_bytes_parts(v: DvView)
    ensures
        value_bytes(v).len() >= 1,
        value_bytes(v)[0] == match v {
            DvView::Null => VB_NULL,
            DvView::Bool(_) => VB_BOOL,
            DvView::Int(_) => VB_INT,
            DvView::Str(_) => VB_STR,
            DvView::RefId(_) => VB_REF,
        },
        (v is Int) ==> value_bytes(v).skip(1) == msgpack_i64_bytes(v->Int_0),
        (v is Str) ==> value_bytes(v).skip(1) == msgpack_str_bytes(v->Str_0),
        (v is RefId) ==> value_bytes(v).skip(1) == msgpack_u64_bytes(v->RefId_0),
{
    match v {
        DvView::Null => {},
        DvView::Bool(_) => {},
        DvView::Int(i) => {
            assert(value_bytes(v).skip(1) =~= msgpack_i64_bytes(i));
        },
        DvView::Str(s) => {
            assert(value_bytes(v).skip(1) =~= msgpack_str_bytes(s));
        },
        DvView::RefId(e) => {
            assert(value_bytes(v).skip(1) =~= msgpack_u64_bytes(e));
        },
    }
}

/// Relies on `rmp_serde::to_vec` for `i64`: the bytes are a function of the
/// integer alone, and encoding into a byte vector cannot fail.
#[verifier::external_body]
fn rmp_encode_i64(x: i64) -> (r: Vec<u8>)
    ensures
        r@ == msgpack_i64_bytes(x as int),
        r@.len() >= 1,
{
    rmp_serde::to_vec(&x).unwrap()
}

/// Relies on `rmp_serde::from_slice` for `i64`: it inverts `to_vec` on any
/// exact encoding.
#[verifier::external_body]
fn rmp_decode_i64(src: &[u8]) -> (r: Option<i64>)
    ensures
        forall|x: i64| src@ == msgpack_i64_bytes(x as int) ==> r == Some(x),
{
    rmp_serde::from_slice(src).ok()
}

/// Relies on `rmp_serde::to_vec` for `u64`.
#[verifier::external_body]
fn rmp_encode_u64(x: u64) -> (r: Vec<u8>)
    ensures
        r@ == msgpack_u64_bytes(x as int),
        r@.len() >= 1,
{
    rmp_serde::to_vec(&x).unwrap()
}

/// Relies on `rmp_serde::from_slice` for `u64`: it inverts `to_vec` on any
/// exact encoding.
#[verifier::external_body]
fn rmp_decode_u64(src: &[u8]) -> (r: Option<u64>)
    ensures
        forall|x: u64| src@ == msgpack_u64_bytes(x as int) ==> r == Some(x),
{
    rmp_serde::from_slice(src).ok()
}

/// Relies on `rmp_serde::to_vec` for `str`: the bytes are a function of the
/// characters alone.
#[verifier::external_body]
fn rmp_encode_str(s: &str) -> (r: Vec<u8>)
    ensures
        r@ == msgpack_str_bytes(s@),
        r@.len() >= 1,
{
    rmp_serde::to_vec(s).unwrap()
}

/// Relies on `rmp_serde::from_slice` for `String`: it inverts `to_vec` on
/// any exact encoding whose UTF-8 form fits the format's 32-bit length
/// prefix.  Beyond that size the prefix `to_vec` writes wraps, so nothing
/// is claimed there.
#[verifier::external_body]
fn rmp_decode_str(src: &[u8]) -> (r: Option<String>)
    ensures
        forall|t: Seq<char>|
            (encode_utf8(t).len() < 0x100000000 && src@ == msgpack_str_bytes(t)) ==> r is Some
                && r->Some_0@ == t,
{
    rmp_serde::from_slice(src).ok()
}

/// Relies on `rmp_serde::to_vec` for `bool`: MessagePack stores `false` as
/// `0xc2` and `true` as `0xc3`.
#[verifier::external_body]
fn rmp_encode_bool(b: bool) -> (r: Vec<u8>)
    ensures
        r@ == seq![if b { 0xc3u8 } else { 0xc2u8 }],
{
    rmp_serde::to_vec(&b).unwrap()
}

impl DataValue {
    /// An equal value: variants and payloads are preserved.
    pub fn dup(&self) -> (r: Self)
        ensures
            r@ == self@,
    {
        match self {
            DataValue::Null => DataValue::Null,
            DataValue::Bool(b) => DataValue::Bool(*b),
            DataValue::Int(i) => DataValue::Int(*i),
            DataValue::Str(s) => DataValue::Str(s.clone()),
            DataValue::RefId(e) => DataValue::RefId(*e),
        }
    }
}

/// Appends the self-delimiting encoding of `v`.
pub fn encode_value(v: &DataValue, out: &mut Vec<u8>)
    ensures
        final(out)@ == old(out)@ + value_bytes(v@),
{
    match v {
        DataValue::Null => {
            out.push(VB_NULL);
            proof {
                assert(out@ =~= old(out)@ + value_bytes(v@));
            }
        },
        DataValue::Bool(b) => {
            out.push(VB_BOOL);
            let mut p = rmp_encode_bool(*b);
            out.append(&mut p);
            proof {
                assert(out@ =~= old(out)@ + value_bytes(v@));
            }
        },
        DataValue::Int(i) => {
            out.push(VB_INT);
            let mut p = rmp_encode_i64(*i);
            out.append(&mut p);
            proof {
                assert(out@ =~= old(out)@ + value_bytes(v@));
            }
        },
        DataValue::Str(s) => {
            out.push(VB_STR);
            let mut p = rmp_encode_str(s.as_str());
            out.append(&mut p);
            proof {
                assert(out@ =~= old(out)@ + value_bytes(v@));
            }
        },
        DataValue::RefId(e) => {
            out.push(VB_REF);
            let mut p = rmp_encode_u64(e.0);
            out.append(&mut p);
            proof {
                assert(out@ =~= old(out)@ + value_bytes(v@));
            }
        },
    }
}

/// Decodes a value from exactly the bytes `encode_value` appends.  Every
/// exact encoding decodes back to an equal value; an empty or unknown-tag
/// input is rejected as `ValueDeserError`.
pub fn decode_value(src: &[u8]) -> (r: Result<DataValue, DecodeError>)
    ensures
        forall|v: DvView| v.wf() && src@ == value_bytes(v) ==> (r matches Ok(d) && d@ == v),
        src@.len() == 0 ==> r == Err::<DataValue, DecodeError>(DecodeError::ValueDeserError),
        (src@.len() >= 1 && src@[0] > VB_REF) ==> r == Err::<DataValue, DecodeError>(
            DecodeError::ValueDeserError,
        ),
        (r is Err) ==> r->Err_0 == DecodeError::ValueDeserError,
{
    if src.len() == 0 {
        return Err(DecodeError::ValueDeserError);
    }
    let tag = src[0];
    if tag == VB_NULL {
        if src.len() == 1 {
            let r = Ok(DataValue::Null);
            proof {
                assert forall|v: DvView| v.wf() && src@ == value_bytes(v) implies (r matches Ok(d)
                    && d@ == v) by {
                    lemma_value_bytes_parts(v);
                    assert(src@ =~= seq![VB_NULL]);
                }
            }
            r
        } else {
            let r = Err::<DataValue, DecodeError>(DecodeError::ValueDeserError);
            proof {
                assert forall|v: DvView| v.wf() implies src@ != value_bytes(v) by {
                    lemma_value_bytes_parts(v);
                }
            }
            r
        }
    } else if tag == VB_BOOL {
        if src.len() == 2 && src[1] == 0xc3u8 {
            let r = Ok(DataValue::Bool(true));
            proof {
                assert forall|v: DvView| v.wf() && src@ == value_bytes(v) implies (r matches Ok(d)
                    && d@ == v) by {
                    lemma_value_bytes_parts(v);
                }
            }
            r
        } else if src.len() == 2 && src[1] == 0xc2u8 {
            let r = Ok(DataValue::Bool(false));
            proof {
                assert forall|v: DvView| v.wf() && src@ == value_bytes(v) implies (r matches Ok(d)
                    && d@ == v) by {
                    lemma_value_bytes_parts(v);
                }
            }
            r
        } else {
            let r = Err::<DataValue, DecodeError>(DecodeError::ValueDeserError);
            proof {
                assert forall|v: DvView| v.wf() implies src@ != value_bytes(v) by {
                    lemma_value_bytes_parts(v);
                }
            }
            r
        }
    } else if tag == VB_INT {
        let payload = slice_subrange(src, 1, src.len());
        proof {
            assert(payload@ =~= src@.skip(1));
        }
        match rmp_decode_i64(payload) {
            Some(x) => {
                let r = Ok(DataValue::Int(x));
                proof {
                    assert forall|v: DvView| v.wf() && src@ == value_bytes(v) implies (r matches Ok(
                        d,
                    ) && d@ == v) by {
                        lemma_value_bytes_parts(v);
                        let i = v->Int_0;
                        assert(payload@ == msgpack_i64_bytes(i));
                        assert(i == (i as i64) as int);
                        assert(payload@ == msgpack_i64_bytes((i as i64) as int));
                    }
                }
                r
            },
            None => {
                let r = Err::<DataValue, DecodeError>(DecodeError::ValueDeserError);
                proof {
                    assert forall|v: DvView| v.wf() implies src@ != value_bytes(v) by {
                        lemma_value_bytes_parts(v);
                        if v is Int && src@ == value_bytes(v) {
                            let i = v->Int_0;
                            assert(payload@ == msgpack_i64_bytes((i as i64) as int));
                        }
                    }
                }
                r
            },
        }
    } else if tag == VB_STR {
        let payload = slice_subrange(src, 1, src.len());
        proof {
            assert(payload@ =~= src@.skip(1));
        }
        match rmp_decode_str(payload) {
            Some(s) => {
                let r = Ok(DataValue::Str(s));
                proof {
                    assert forall|v: DvView| v.wf() && src@ == value_bytes(v) implies (r matches Ok(
                        d,
                    ) && d@ == v) by {
                        lemma_value_bytes_parts(v);
                        let t = v->Str_0;
                        assert(payload@ == msgpack_str_bytes(t));
                    }
                }
                r
            },
            None => {
                let r = Err::<DataValue, DecodeError>(DecodeError::ValueDeserError);
                proof {
                    assert forall|v: DvView| v.wf() implies src@ != value_bytes(v) by {
                        lemma_value_bytes_parts(v);
                        if v is Str && src@ == value_bytes(v) {
                            assert(payload@ == msgpack_str_bytes(v->Str_0));
                        }
                    }
                }
                r
            },
        }
    } else if tag == VB_REF {
        let payload = slice_subrange(src, 1, src.len());
        proof {
            assert(payload@ =~= src@.skip(1));
        }
        match rmp_decode_u64(payload) {
            Some(x) => {
                let r = Ok(DataValue::RefId(EntityId(x)));
                proof {
                    assert forall|v: DvView| v.wf() && src@ == value_bytes(v) implies (r matches Ok(
                        d,
                    ) && d@ == v) by {
                        lemma_value_bytes_parts(v);
                        let e = v->RefId_0;
                        assert(payload@ == msgpack_u64_bytes(e));
                        assert(e == (e as u64) as int);
                        assert(payload@ == msgpack_u64_bytes((e as u64) as int));
                    }
                }
                r
            },
            None => {
                let r = Err::<DataValue, DecodeError>(DecodeError::ValueDeserError);
                proof {
                    assert forall|v: DvView| v.wf() implies src@ != value_bytes(v) by {
                        lemma_value_bytes_parts(v);
                        if v is RefId && src@ == value_bytes(v) {
                            let e = v->RefId_0;
                            assert(payload@ == msgpack_u64_bytes((e as u64) as int));
                        }
                    }
                }
                r
            },
        }
    } else {
        let r = Err::<DataValue, DecodeError>(DecodeError::ValueDeserError);
        proof {
            assert forall|v: DvView| v.wf() implies src@ != value_bytes(v) by {
                lemma_value_bytes_parts(v);
            }
        }
        r
    }
}

} // verus!
