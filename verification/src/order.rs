//! Order laws of the key codec: how the lexicographic order the KV store
//! applies to encoded keys reflects the ids, validities and families the
//! keys were built from.

use vstd::prelude::*;

use crate::byteorder::{be7, be8, lex_lt, lex_le, fits_id};
use crate::ids::{AttrId, EntityId, Validity, vld_word, vld_bytes, i64_bits};
use crate::value::{DvView, value_bytes};
use crate::encode::{
    aev_key_bytes, ave_key_bytes, ave_ref_key_bytes, attr_by_id_key_bytes, tx_key_bytes,
    sentinel_entity_attr_key_bytes, sentinel_attr_val_key_bytes, sentinel_attr_by_id_key_bytes,
    sentinel_attr_by_name_key_bytes, smallest_key_bytes, largest_key_bytes,
};

verus! {

/// One unfolding of the lexicographic comparison.
pub proof fn lemma_lex_step(a: Seq<u8>, b: Seq<u8>)
    requires
        a.len() > 0,
        b.len() > 0,
    ensures
        lex_lt(a, b) == (a[0] < b[0] || (a[0] == b[0] && lex_lt(a.skip(1), b.skip(1)))),
{
}

/// A shared prefix does not decide the comparison.
pub proof fn lemma_lex_common_prefix(p: Seq<u8>, a: Seq<u8>, b: Seq<u8>)
    ensures
        lex_lt(p + a, p + b) == lex_lt(a, b),
    decreases p.len(),
{
    if p.len() == 0 {
        assert(p + a =~= a);
        assert(p + b =~= b);
    } else {
        let pa = p + a;
        let pb = p + b;
        lemma_lex_step(pa, pb);
        assert(pa.skip(1) =~= p.skip(1) + a);
        assert(pb.skip(1) =~= p.skip(1) + b);
        lemma_lex_common_prefix(p.skip(1), a, b);
    }
}

/// Two equal-length blocks that differ decide the comparison, whatever
/// follows them.
pub proof fn lemma_lex_diff_block(a: Seq<u8>, b: Seq<u8>, x: Seq<u8>, y: Seq<u8>)
    requires
        a.len() == b.len(),
        a != b,
    ensures
        lex_lt(a + x, b + y) == lex_lt(a, b),
    decreases a.len(),
{
    if a.len() == 0 {
        assert(a =~= b);
    } else {
        lemma_lex_step(a + x, b + y);
        lemma_lex_step(a, b);
        if a[0] == b[0] {
            assert((a + x).skip(1) =~= a.skip(1) + x);
            assert((b + y).skip(1) =~= b.skip(1) + y);
            if a.skip(1) == b.skip(1) {
                assert forall|i: int| 0 <= i < a.len() implies a[i] == b[i] by {
                    if i >= 1 {
                        assert(a.skip(1)[i - 1] == b.skip(1)[i - 1]);
                    }
                }
                assert(a =~= b);
            }
            lemma_lex_diff_block(a.skip(1), b.skip(1), x, y);
        }
    }
}

/// Big-endian images compare as the words they carry.
pub proof fn lemma_be8_order(x: u64, y: u64)
    ensures
        lex_lt(be8(x), be8(y)) <==> x < y,
        (be8(x) == be8(y)) <==> x == y,
{
    let a0 = ((x >> 56) & 0xff) as u8;
    let a1 = ((x >> 48) & 0xff) as u8;
    let a2 = ((x >> 40) & 0xff) as u8;
    let a3 = ((x >> 32) & 0xff) as u8;
    let a4 = ((x >> 24) & 0xff) as u8;
    let a5 = ((x >> 16) & 0xff) as u8;
    let a6 = ((x >> 8) & 0xff) as u8;
    let a7 = (x & 0xff) as u8;
    let b0 = ((y >> 56) & 0xff) as u8;
    let b1 = ((y >> 48) & 0xff) as u8;
    let b2 = ((y >> 40) & 0xff) as u8;
    let b3 = ((y >> 32) & 0xff) as u8;
    let b4 = ((y >> 24) & 0xff) as u8;
    let b5 = ((y >> 16) & 0xff) as u8;
    let b6 = ((y >> 8) & 0xff) as u8;
    let b7 = (y & 0xff) as u8;
    let a = be8(x);
    let b = be8(y);
    let s1 = seq![a1, a2, a3, a4, a5, a6, a7];
    let s2 = seq![a2, a3, a4, a5, a6, a7];
    let s3 = seq![a3, a4, a5, a6, a7];
    let s4 = seq![a4, a5, a6, a7];
    let s5 = seq![a5, a6, a7];
    let s6 = seq![a6, a7];
    let s7 = seq![a7];
    let t1 = seq![b1, b2, b3, b4, b5, b6, b7];
    let t2 = seq![b2, b3, b4, b5, b6, b7];
    let t3 = seq![b3, b4, b5, b6, b7];
    let t4 = seq![b4, b5, b6, b7];
    let t5 = seq![b5, b6, b7];
    let t6 = seq![b6, b7];
    let t7 = seq![b7];
    lemma_lex_step(a, b);
    assert(a.skip(1) =~= s1);
    assert(b.skip(1) =~= t1);
    lemma_lex_step(s1, t1);
    assert(s1.skip(1) =~= s2);
    assert(t1.skip(1) =~= t2);
    lemma_lex_step(s2, t2);
    assert(s2.skip(1) =~= s3);
    assert(t2.skip(1) =~= t3);
    lemma_lex_step(s3, t3);
    assert(s3.skip(1) =~= s4);
    assert(t3.skip(1) =~= t4);
    lemma_lex_step(s4, t4);
    assert(s4.skip(1) =~= s5);
    assert(t4.skip(1) =~= t5);
    lemma_lex_step(s5, t5);
    assert(s5.skip(1) =~= s6);
    assert(t5.skip(1) =~= t6);
    lemma_lex_step(s6, t6);
    assert(s6.skip(1) =~= s7);
    assert(t6.skip(1) =~= t7);
    lemma_lex_step(s7, t7);
    assert(s7.skip(1).len() == 0 && t7.skip(1).len() == 0);
    assert(!lex_lt(s7.skip(1), t7.skip(1)));
    let c7 = a7 < b7;
    let c6 = a6 < b6 || (a6 == b6 && c7);
    let c5 = a5 < b5 || (a5 == b5 && c6);
    let c4 = a4 < b4 || (a4 == b4 && c5);
    let c3 = a3 < b3 || (a3 == b3 && c4);
    let c2 = a2 < b2 || (a2 == b2 && c3);
    let c1 = a1 < b1 || (a1 == b1 && c2);
    let c0 = a0 < b0 || (a0 == b0 && c1);
    assert(lex_lt(s7, t7) == c7);
    assert(lex_lt(s6, t6) == c6);
    assert(lex_lt(s5, t5) == c5);
    assert(lex_lt(s4, t4) == c4);
    assert(lex_lt(s3, t3) == c3);
    assert(lex_lt(s2, t2) == c2);
    assert(lex_lt(s1, t1) == c1);
    assert(lex_lt(a, b) == c0);
    let e7 = a7 == b7;
    let e6 = a6 == b6 && e7;
    let e5 = a5 == b5 && e6;
    let e4 = a4 == b4 && e5;
    let e3 = a3 == b3 && e4;
    let e2 = a2 == b2 && e3;
    let e1 = a1 == b1 && e2;
    let e0 = a0 == b0 && e1;
    assert((x < y) == c0 && (x == y) == e0) by (bit_vector)
        requires
            a0 == ((x >> 56) & 0xff) as u8 && a1 == ((x >> 48) & 0xff) as u8 && a2 == ((x >> 40)
                & 0xff) as u8 && a3 == ((x >> 32) & 0xff) as u8 && a4 == ((x >> 24) & 0xff) as u8
                && a5 == ((x >> 16) & 0xff) as u8 && a6 == ((x >> 8) & 0xff) as u8 && a7 == (x
                & 0xff) as u8 && b0 == ((y >> 56) & 0xff) as u8 && b1 == ((y >> 48) & 0xff) as u8
                && b2 == ((y >> 40) & 0xff) as u8 && b3 == ((y >> 32) & 0xff) as u8 && b4 == ((y
                >> 24) & 0xff) as u8 && b5 == ((y >> 16) & 0xff) as u8 && b6 == ((y >> 8)
                & 0xff) as u8 && b7 == (y & 0xff) as u8 && c7 == (a7 < b7) && c6 == (a6 < b6 || (a6
                == b6 && c7)) && c5 == (a5 < b5 || (a5 == b5 && c6)) && c4 == (a4 < b4 || (a4 == b4
                && c5)) && c3 == (a3 < b3 || (a3 == b3 && c4)) && c2 == (a2 < b2 || (a2 == b2
                && c3)) && c1 == (a1 < b1 || (a1 == b1 && c2)) && c0 == (a0 < b0 || (a0 == b0
                && c1)) && e7 == (a7 == b7) && e6 == (a6 == b6 && e7) && e5 == (a5 == b5 && e6)
                && e4 == (a4 == b4 && e5) && e3 == (a3 == b3 && e4) && e2 == (a2 == b2 && e3) && e1
                == (a1 == b1 && e2) && e0 == (a0 == b0 && e1),
    ;
    if e0 {
        assert(a =~= b);
    }
    if a == b {
        assert(a0 == b0 && a1 == b1 && a2 == b2 && a3 == b3 && a4 == b4 && a5 == b5 && a6 == b6
            && a7 == b7);
    }
}

/// Seven-byte id images compare as the ids they carry.
pub proof fn lemma_be7_order(x: u64, y: u64)
    requires
        fits_id(x),
        fits_id(y),
    ensures
        lex_lt(be7(x), be7(y)) <==> x < y,
        (be7(x) == be7(y)) <==> x == y,
{
    lemma_be8_order(x, y);
    assert(((x >> 56) & 0xff) as u8 == 0 && ((y >> 56) & 0xff) as u8 == 0) by (bit_vector)
        requires
            x < 0x100000000000000u64 && y < 0x100000000000000u64,
    ;
    let p = seq![0u8];
    assert(be8(x) =~= p + be7(x));
    assert(be8(y) =~= p + be7(y));
    lemma_lex_common_prefix(p, be7(x), be7(y));
    if be7(x) == be7(y) {
        assert(be8(x) =~= be8(y));
    }
    if x == y {
        assert(be7(x) =~= be7(y));
    }
}

/// Among timestamps of one sign the stored words reverse the order: a newer
/// validity has the smaller stored word.  Across signs the complement does
/// not reverse the order, so the sign classes stay apart here.
pub proof fn lemma_vld_order(t1: i64, t2: i64)
    requires
        (t1 >= 0) == (t2 >= 0),
    ensures
        (vld_word(t1) < vld_word(t2)) <==> t1 > t2,
        (vld_word(t1) == vld_word(t2)) <==> t1 == t2,
{
    let w1 = i64_bits(t1);
    let w2 = i64_bits(t2);
    assert((w1 > w2) == (t1 > t2) && (w1 == w2) == (t1 == t2));
    assert((!w1 < !w2 <==> w1 > w2) && (!w1 == !w2 <==> w1 == w2)) by (bit_vector);
}


/// Each family's keys lead with its own tag byte.
pub proof fn lemma_family_tags(
    aid: AttrId,
    eid: EntityId,
    v: DvView,
    vld: Validity,
    tx: crate::ids::TxId,
    val: EntityId,
    name: Seq<char>,
)
    ensures
        aev_key_bytes(aid, eid, v, vld)[0] == 1,
        aev_key_bytes(aid, eid, v, vld).len() > 0,
        ave_key_bytes(aid, v, eid, vld)[0] == 2,
        ave_key_bytes(aid, v, eid, vld).len() > 0,
        ave_ref_key_bytes(val, aid, eid, vld)[0] == 3,
        ave_ref_key_bytes(val, aid, eid, vld).len() > 0,
        attr_by_id_key_bytes(aid, tx)[0] == 4,
        attr_by_id_key_bytes(aid, tx).len() > 0,
        tx_key_bytes(tx)[0] == 5,
        tx_key_bytes(tx).len() > 0,
        sentinel_entity_attr_key_bytes(eid, aid)[0] == 6,
        sentinel_entity_attr_key_bytes(eid, aid).len() > 0,
        sentinel_attr_val_key_bytes(aid, v)[0] == 7,
        sentinel_attr_val_key_bytes(aid, v).len() > 0,
        sentinel_attr_by_id_key_bytes(aid)[0] == 8,
        sentinel_attr_by_id_key_bytes(aid).len() > 0,
        sentinel_attr_by_name_key_bytes(name)[0] == 9,
        sentinel_attr_by_name_key_bytes(name).len() > 0,
{
}

/// Keys whose leading bytes differ never collide, and compare by those
/// bytes: families are disjoint key ranges.
pub proof fn lemma_no_cross_family_collision(k1: Seq<u8>, k2: Seq<u8>)
    requires
        k1.len() > 0,
        k2.len() > 0,
        k1[0] != k2[0],
    ensures
        k1 != k2,
        lex_lt(k1, k2) <==> k1[0] < k2[0],
{
    lemma_lex_step(k1, k2);
    if k1 == k2 {
        assert(k1[0] == k2[0]);
    }
}

/// For a fixed attribute, AEV keys order by the entity and then by the
/// reversed validity: a newer fact of the same entity sorts first, whatever
/// the values.  The validity comparison holds within one sign class; the
/// complement transform does not reverse order across signs.
pub proof fn lemma_aev_key_order(
    aid: AttrId,
    e1: EntityId,
    v1: DvView,
    t1: Validity,
    e2: EntityId,
    v2: DvView,
    t2: Validity,
)
    requires
        aid.wf(),
        e1.wf(),
        e2.wf(),
        (t1.0 >= 0) == (t2.0 >= 0),
    ensures
        !(e1 == e2 && t1 == t2) ==> (lex_lt(
            aev_key_bytes(aid, e1, v1, t1),
            aev_key_bytes(aid, e2, v2, t2),
        ) <==> (e1.0 < e2.0 || (e1.0 == e2.0 && t1.0 > t2.0))),
{
    if !(e1 == e2 && t1 == t2) {
        let k1 = aev_key_bytes(aid, e1, v1, t1);
        let k2 = aev_key_bytes(aid, e2, v2, t2);
        let p = seq![1u8] + be7(aid.0);
        let m1 = vld_bytes(t1.0) + value_bytes(v1);
        let m2 = vld_bytes(t2.0) + value_bytes(v2);
        let r1 = be8(e1.0) + m1;
        let r2 = be8(e2.0) + m2;
        assert(k1 =~= p + r1);
        assert(k2 =~= p + r2);
        lemma_lex_common_prefix(p, r1, r2);
        if e1.0 != e2.0 {
            lemma_be8_order(e1.0, e2.0);
            lemma_lex_diff_block(be8(e1.0), be8(e2.0), m1, m2);
        } else {
            lemma_lex_common_prefix(be8(e1.0), m1, m2);
            lemma_vld_order(t1.0, t2.0);
            lemma_be8_order(vld_word(t1.0), vld_word(t2.0));
            lemma_lex_diff_block(vld_bytes(t1.0), vld_bytes(t2.0), value_bytes(v1), value_bytes(v2));
        }
    }
}

/// For a fixed attribute and value, AVE keys likewise order by the entity
/// and then by the reversed validity.
pub proof fn lemma_ave_key_order(
    aid: AttrId,
    v1: DvView,
    e1: EntityId,
    t1: Validity,
    v2: DvView,
    e2: EntityId,
    t2: Validity,
)
    requires
        aid.wf(),
        e1.wf(),
        e2.wf(),
        (t1.0 >= 0) == (t2.0 >= 0),
    ensures
        !(e1 == e2 && t1 == t2) ==> (lex_lt(
            ave_key_bytes(aid, v1, e1, t1),
            ave_key_bytes(aid, v2, e2, t2),
        ) <==> (e1.0 < e2.0 || (e1.0 == e2.0 && t1.0 > t2.0))),
{
    if !(e1 == e2 && t1 == t2) {
        let k1 = ave_key_bytes(aid, v1, e1, t1);
        let k2 = ave_key_bytes(aid, v2, e2, t2);
        let p = seq![2u8] + be7(aid.0);
        let m1 = vld_bytes(t1.0) + value_bytes(v1);
        let m2 = vld_bytes(t2.0) + value_bytes(v2);
        let r1 = be8(e1.0) + m1;
        let r2 = be8(e2.0) + m2;
        assert(k1 =~= p + r1);
        assert(k2 =~= p + r2);
        lemma_lex_common_prefix(p, r1, r2);
        if e1.0 != e2.0 {
            lemma_be8_order(e1.0, e2.0);
            lemma_lex_diff_block(be8(e1.0), be8(e2.0), m1, m2);
        } else {
            lemma_lex_common_prefix(be8(e1.0), m1, m2);
            lemma_vld_order(t1.0, t2.0);
            lemma_be8_order(vld_word(t1.0), vld_word(t2.0));
            lemma_lex_diff_block(vld_bytes(t1.0), vld_bytes(t2.0), value_bytes(v1), value_bytes(v2));
        }
    }
}

/// The stored word of the infinite past is below the stored word of any
/// non-negative timestamp.
proof fn lemma_vld_min_below(t: i64)
    requires
        t >= 0,
    ensures
        vld_word(i64::MIN) < vld_word(t),
{
    assert(i64_bits(i64::MIN) == 0x8000000000000000u64);
    let w = i64_bits(t);
    assert(w <= 0x7fffffffffffffffu64);
    assert(!0x8000000000000000u64 < !w) by (bit_vector)
        requires
            w <= 0x7fffffffffffffffu64,
    ;
}

/// The smallest key sits strictly below every AEV key of a non-negative
/// validity.
pub proof fn lemma_smallest_below_aev(aid: AttrId, eid: EntityId, v: DvView, vld: Validity)
    requires
        aid.wf(),
        eid.wf(),
        vld.0 >= 0,
    ensures
        lex_lt(smallest_key_bytes(), aev_key_bytes(aid, eid, v, vld)),
{
    let s = smallest_key_bytes();
    let k = aev_key_bytes(aid, eid, v, vld);
    let p = seq![1u8];
    let ns = value_bytes(DvView::Null);
    let nk = value_bytes(v);
    if aid.0 != 0 {
        let rs = be7(0) + (be8(0) + (vld_bytes(i64::MIN) + ns));
        let rk = be7(aid.0) + (be8(eid.0) + (vld_bytes(vld.0) + nk));
        assert(s =~= p + rs);
        assert(k =~= p + rk);
        lemma_lex_common_prefix(p, rs, rk);
        lemma_be7_order(0, aid.0);
        lemma_lex_diff_block(
            be7(0),
            be7(aid.0),
            be8(0) + (vld_bytes(i64::MIN) + ns),
            be8(eid.0) + (vld_bytes(vld.0) + nk),
        );
    } else if eid.0 != 0 {
        let p2 = p + be7(0);
        let rs = be8(0) + (vld_bytes(i64::MIN) + ns);
        let rk = be8(eid.0) + (vld_bytes(vld.0) + nk);
        assert(s =~= p2 + rs);
        assert(k =~= p2 + rk);
        lemma_lex_common_prefix(p2, rs, rk);
        lemma_be8_order(0, eid.0);
        lemma_lex_diff_block(be8(0), be8(eid.0), vld_bytes(i64::MIN) + ns, vld_bytes(vld.0) + nk);
    } else {
        let p3 = (p + be7(0)) + be8(0);
        let rs = vld_bytes(i64::MIN) + ns;
        let rk = vld_bytes(vld.0) + nk;
        assert(s =~= p3 + rs);
        assert(k =~= p3 + rk);
        lemma_lex_common_prefix(p3, rs, rk);
        lemma_vld_min_below(vld.0);
        lemma_be8_order(vld_word(i64::MIN), vld_word(vld.0));
        lemma_lex_diff_block(vld_bytes(i64::MIN), vld_bytes(vld.0), ns, nk);
    }
}

/// Every key of a family other than AEV sits strictly between the range
/// endpoints: above the smallest key by its tag, and, for every family
/// before the name directory, below the largest key by its tag.
pub proof fn lemma_key_range(
    aid: AttrId,
    eid: EntityId,
    v: DvView,
    vld: Validity,
    tx: crate::ids::TxId,
    val: EntityId,
    name: Seq<char>,
)
    requires
        aid.wf(),
        eid.wf(),
        vld.0 >= 0,
    ensures
        lex_le(smallest_key_bytes(), aev_key_bytes(aid, eid, v, vld)),
        lex_lt(smallest_key_bytes(), ave_key_bytes(aid, v, eid, vld)),
        lex_lt(smallest_key_bytes(), ave_ref_key_bytes(val, aid, eid, vld)),
        lex_lt(smallest_key_bytes(), attr_by_id_key_bytes(aid, tx)),
        lex_lt(smallest_key_bytes(), tx_key_bytes(tx)),
        lex_lt(smallest_key_bytes(), sentinel_entity_attr_key_bytes(eid, aid)),
        lex_lt(smallest_key_bytes(), sentinel_attr_val_key_bytes(aid, v)),
        lex_lt(smallest_key_bytes(), sentinel_attr_by_id_key_bytes(aid)),
        lex_lt(smallest_key_bytes(), sentinel_attr_by_name_key_bytes(name)),
        lex_lt(aev_key_bytes(aid, eid, v, vld), largest_key_bytes()),
        lex_lt(ave_key_bytes(aid, v, eid, vld), largest_key_bytes()),
        lex_lt(ave_ref_key_bytes(val, aid, eid, vld), largest_key_bytes()),
        lex_lt(attr_by_id_key_bytes(aid, tx), largest_key_bytes()),
        lex_lt(tx_key_bytes(tx), largest_key_bytes()),
        lex_lt(sentinel_entity_attr_key_bytes(eid, aid), largest_key_bytes()),
        lex_lt(sentinel_attr_val_key_bytes(aid, v), largest_key_bytes()),
        lex_lt(sentinel_attr_by_id_key_bytes(aid), largest_key_bytes()),
{
    lemma_family_tags(aid, eid, v, vld, tx, val, name);
    lemma_family_tags(AttrId(0), EntityId(0), DvView::Null, Validity(i64::MIN), tx, val, seq![crate::encode::LARGEST_UTF_CHAR]);
    let s = smallest_key_bytes();
    let l = largest_key_bytes();
    assert(s[0] == 1 && s.len() > 0);
    assert(l[0] == 9 && l.len() > 0);
    lemma_smallest_below_aev(aid, eid, v, vld);
    lemma_no_cross_family_collision(s, ave_key_bytes(aid, v, eid, vld));
    lemma_no_cross_family_collision(s, ave_ref_key_bytes(val, aid, eid, vld));
    lemma_no_cross_family_collision(s, attr_by_id_key_bytes(aid, tx));
    lemma_no_cross_family_collision(s, tx_key_bytes(tx));
    lemma_no_cross_family_collision(s, sentinel_entity_attr_key_bytes(eid, aid));
    lemma_no_cross_family_collision(s, sentinel_attr_val_key_bytes(aid, v));
    lemma_no_cross_family_collision(s, sentinel_attr_by_id_key_bytes(aid));
    lemma_no_cross_family_collision(s, sentinel_attr_by_name_key_bytes(name));
    lemma_no_cross_family_collision(aev_key_bytes(aid, eid, v, vld), l);
    lemma_no_cross_family_collision(ave_key_bytes(aid, v, eid, vld), l);
    lemma_no_cross_family_collision(ave_ref_key_bytes(val, aid, eid, vld), l);
    lemma_no_cross_family_collision(attr_by_id_key_bytes(aid, tx), l);
    lemma_no_cross_family_collision(tx_key_bytes(tx), l);
    lemma_no_cross_family_collision(sentinel_entity_attr_key_bytes(eid, aid), l);
    lemma_no_cross_family_collision(sentinel_attr_val_key_bytes(aid, v), l);
    lemma_no_cross_family_collision(sentinel_attr_by_id_key_bytes(aid), l);
}

} // verus!

