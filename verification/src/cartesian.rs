//! The relational-algebra operator contract and its reference combinator,
//! the cartesian join.  An operator owns child operators and exposes a
//! restartable lazy stream: every call to `iter` yields a fresh stream over
//! the operator's whole output sequence, and after yielding an error a
//! stream is exhausted.

use vstd::prelude::*;

use crate::errors::AlgebraError;
use crate::tuple_set::{TupleSet, BindingMap, shift_merge_binding_map, spec_width, shift_merge_spec};
use crate::value::DvView;

verus! {

/// What one emitted element is, mathematically: a row of bound values or a
/// terminal error.
pub open spec fn item_of(r: Result<TupleSet, AlgebraError>) -> Result<Seq<DvView>, AlgebraError> {
    match r {
        Ok(t) => Ok(t@),
        Err(e) => Err(e),
    }
}

/// A well-formed output sequence: an error can only be its last element, so
/// nothing follows a fault.
pub open spec fn wf_items(s: Seq<Result<Seq<DvView>, AlgebraError>>) -> bool {
    forall|i: int| 0 <= i < s.len() - 1 ==> s[i] is Ok
}

/// Whether a fault occurs in the sequence.
pub open spec fn has_err(s: Seq<Result<Seq<DvView>, AlgebraError>>) -> bool {
    exists|i: int| 0 <= i < s.len() && s[i] is Err
}

/// Prefixes a row onto one emitted element; a fault passes through.
pub open spec fn merge_item(
    t: Seq<DvView>,
    it: Result<Seq<DvView>, AlgebraError>,
) -> Result<Seq<DvView>, AlgebraError> {
    match it {
        Ok(u) => Ok(t + u),
        Err(e) => Err(e),
    }
}

/// The elements one left row contributes: the whole right sequence, each
/// row merged after the left row.
pub open spec fn emit_right(
    t: Seq<DvView>,
    r: Seq<Result<Seq<DvView>, AlgebraError>>,
) -> Seq<Result<Seq<DvView>, AlgebraError>> {
    r.map_values(|it: Result<Seq<DvView>, AlgebraError>| merge_item(t, it))
}

/// The cartesian product stream, left-major right-minor: for each left row
/// the full right sequence, and any fault from either side ends the stream.
pub open spec fn cart(
    l: Seq<Result<Seq<DvView>, AlgebraError>>,
    r: Seq<Result<Seq<DvView>, AlgebraError>>,
) -> Seq<Result<Seq<DvView>, AlgebraError>>
    decreases l.len(),
{
    if l.len() == 0 {
        Seq::empty()
    } else if l[0] is Err {
        seq![l[0]]
    } else {
        emit_right(l[0]->Ok_0, r) + if has_err(r) {
            Seq::<Result<Seq<DvView>, AlgebraError>>::empty()
        } else {
            cart(l.skip(1), r)
        }
    }
}

/// A lazy stream of rows: single-threaded cooperative iteration, one
/// element per call, `None` once exhausted.
pub trait TupleStream: Sized {
    /// The elements this stream will still yield, in order.
    spec fn remaining(&self) -> Seq<Result<Seq<DvView>, AlgebraError>>;

    /// The stream's internal consistency.
    spec fn inv(&self) -> bool;

    /// What remains is always a well-formed output sequence.
    proof fn remaining_wf(&self)
        requires
            self.inv(),
        ensures
            wf_items(self.remaining()),
    ;

    /// Yields the next element: exactly the head of `remaining`, or `None`
    /// forever once the sequence is spent.
    fn next(&mut self) -> (r: Option<Result<TupleSet, AlgebraError>>)
        requires
            old(self).inv(),
        ensures
            final(self).inv(),
            old(self).remaining().len() == 0 ==> r is None && final(self).remaining().len() == 0,
            old(self).remaining().len() > 0 ==> r is Some && item_of(r->Some_0) == old(
                self,
            ).remaining()[0] && final(self).remaining() == old(self).remaining().skip(1),
    ;
}

/// Identity of a base relation, for plan printing.
pub struct TableInfo {
    pub table_name: String,
}

/// The uniform operator contract: a name, the bindings the subtree
/// produces, their column layout, and a restartable stream.
pub trait RelationalAlgebra: Sized {
    /// The stream type `iter` opens.
    type Stream: TupleStream;

    /// The full sequence this operator emits, identical for every stream
    /// opened on the same snapshot.
    spec fn out_seq(&self) -> Seq<Result<Seq<DvView>, AlgebraError>>;

    /// The binding names this subtree produces, in layout order.
    spec fn binding_seq(&self) -> Seq<Seq<char>>;

    /// The column layout this subtree produces, or the collision it fails
    /// with.
    spec fn bmap_spec(&self) -> Result<Seq<(Seq<char>, int, int)>, AlgebraError>;

    /// Machine-size limit under which the layout can be computed.
    spec fn bmap_ready(&self) -> bool;

    /// The operator's stable name.
    spec fn name_spec(&self) -> Seq<char>;

    /// The base-relation identity, where there is one.
    spec fn identity_spec(&self) -> Option<Seq<char>>;

    /// The output sequence is well formed: a fault only ever comes last.
    proof fn out_seq_wf(&self)
        ensures
            wf_items(self.out_seq()),
    ;

    /// The stable identifier used in plan printing.
    fn name(&self) -> (r: &str)
        ensures
            r@ == self.name_spec(),
    ;

    /// The bindings this subtree produces.
    fn bindings(&self) -> (r: Vec<String>)
        ensures
            r@.map_values(|s: String| s@) == self.binding_seq(),
    ;

    /// The concrete column layout this subtree produces.
    fn binding_map(&self) -> (r: Result<BindingMap, AlgebraError>)
        requires
            self.bmap_ready(),
        ensures
            match r {
                Ok(m) => self.bmap_spec() == Ok::<Seq<(Seq<char>, int, int)>, AlgebraError>(m@),
                Err(e) => self.bmap_spec() == Err::<Seq<(Seq<char>, int, int)>, AlgebraError>(e),
            },
    ;

    /// Opens a fresh independent stream starting from the beginning.
    fn iter(&self) -> (r: Self::Stream)
        ensures
            r.inv(),
            r.remaining() == self.out_seq(),
    ;

    /// The identity of a base relation; absent for combinators.
    fn identity(&self) -> (r: Option<TableInfo>)
        ensures
            match r {
                Some(t) => self.identity_spec() == Some(t.table_name@),
                None => self.identity_spec() is None,
            },
    ;

    /// An operator with the same contract, so a combinator can own its own
    /// copy of a subtree to reopen.
    fn dup(&self) -> (r: Self)
        ensures
            r.out_seq() == self.out_seq(),
            r.binding_seq() == self.binding_seq(),
            r.bmap_spec() == self.bmap_spec(),
            r.bmap_ready() == self.bmap_ready(),
            r.name_spec() == self.name_spec(),
            r.identity_spec() == self.identity_spec(),
    ;
}

/// The trailing fault of a base relation, as an output sequence.
pub open spec fn fault_items(f: Option<AlgebraError>) -> Seq<Result<Seq<DvView>, AlgebraError>> {
    match f {
        Some(e) => seq![Err::<Seq<DvView>, AlgebraError>(e)],
        None => Seq::empty(),
    }
}

/// A materialized base relation: its rows in order, then, optionally, one
/// fault.  It stands for a leaf scan whose outcome is fixed by the
/// snapshot.
pub struct FixedRelation {
    pub rel_name: String,
    pub bmap: BindingMap,
    pub rows: Vec<TupleSet>,
    pub fault: Option<AlgebraError>,
}

/// A stream over a base relation: a cursor over its rows.
pub struct FixedStream {
    rows: Vec<TupleSet>,
    fault: Option<AlgebraError>,
    pos: usize,
}

/// The rows of a relation, as emitted elements.
pub open spec fn row_items(rows: Seq<TupleSet>) -> Seq<Result<Seq<DvView>, AlgebraError>> {
    rows.map_values(|t: TupleSet| Ok::<Seq<DvView>, AlgebraError>(t@))
}

impl TupleStream for FixedStream {
    closed spec fn remaining(&self) -> Seq<Result<Seq<DvView>, AlgebraError>> {
        row_items(self.rows@.skip(self.pos as int)) + fault_items(self.fault)
    }

    closed spec fn inv(&self) -> bool {
        self.pos <= self.rows@.len()
    }

    proof fn remaining_wf(&self) {
        let rem = self.remaining();
        assert forall|i: int| 0 <= i < rem.len() - 1 implies rem[i] is Ok by {
            if i < self.rows@.len() - self.pos {
                assert(rem[i] == row_items(self.rows@.skip(self.pos as int))[i]);
            }
        }
    }

    fn next(&mut self) -> (r: Option<Result<TupleSet, AlgebraError>>) {
        if self.pos < self.rows.len() {
            let t = self.rows[self.pos].dup();
            self.pos = self.pos + 1;
            proof {
                let old_rem = old(self).remaining();
                assert(old_rem[0] == row_items(old(self).rows@.skip(old(self).pos as int))[0]);
                assert(self.remaining() =~= old_rem.skip(1));
            }
            Some(Ok(t))
        } else {
            match self.fault {
                Some(e) => {
                    self.fault = None;
                    proof {
                        assert(old(self).remaining() =~= seq![
                            Err::<Seq<DvView>, AlgebraError>(e),
                        ]);
                        assert(self.remaining() =~= old(self).remaining().skip(1));
                    }
                    Some(Err(e))
                },
                None => {
                    proof {
                        assert(old(self).remaining() =~= Seq::<
                            Result<Seq<DvView>, AlgebraError>,
                        >::empty());
                    }
                    None
                },
            }
        }
    }
}

impl RelationalAlgebra for FixedRelation {
    type Stream = FixedStream;

    open spec fn out_seq(&self) -> Seq<Result<Seq<DvView>, AlgebraError>> {
        row_items(self.rows@) + fault_items(self.fault)
    }

    open spec fn binding_seq(&self) -> Seq<Seq<char>> {
        self.bmap@.map_values(|e: (Seq<char>, int, int)| e.0)
    }

    open spec fn bmap_spec(&self) -> Result<Seq<(Seq<char>, int, int)>, AlgebraError> {
        Ok(self.bmap@)
    }

    open spec fn bmap_ready(&self) -> bool {
        true
    }

    open spec fn name_spec(&self) -> Seq<char> {
        self.rel_name@
    }

    open spec fn identity_spec(&self) -> Option<Seq<char>> {
        Some(self.rel_name@)
    }

    proof fn out_seq_wf(&self) {
        let s = self.out_seq();
        assert forall|i: int| 0 <= i < s.len() - 1 implies s[i] is Ok by {
            if i < self.rows@.len() {
                assert(s[i] == row_items(self.rows@)[i]);
            }
        }
    }

    fn name(&self) -> (r: &str) {
        self.rel_name.as_str()
    }

    fn bindings(&self) -> (r: Vec<String>) {
        let mut out: Vec<String> = Vec::new();
        let mut i: usize = 0;
        while i < self.bmap.entries.len()
            invariant
                i <= self.bmap.entries@.len(),
                out@.len() == i,
                forall|k: int| 0 <= k < i ==> out@[k]@ == self.bmap.entries@[k].name@,
            decreases self.bmap.entries@.len() - i,
        {
            out.push(self.bmap.entries[i].name.clone());
            i += 1;
        }
        proof {
            assert(out@.map_values(|s: String| s@) =~= self.binding_seq());
        }
        out
    }

    fn binding_map(&self) -> (r: Result<BindingMap, AlgebraError>) {
        Ok(self.bmap.dup())
    }

    fn iter(&self) -> (r: FixedStream) {
        let mut rows: Vec<TupleSet> = Vec::new();
        let mut i: usize = 0;
        while i < self.rows.len()
            invariant
                i <= self.rows@.len(),
                rows@.len() == i,
                forall|k: int| 0 <= k < i ==> rows@[k]@ == self.rows@[k]@,
            decreases self.rows@.len() - i,
        {
            rows.push(self.rows[i].dup());
            i += 1;
        }
        let r = FixedStream { rows, fault: self.fault, pos: 0 };
        proof {
            assert(r.rows@.skip(0) =~= r.rows@);
            assert(row_items(r.rows@) =~= row_items(self.rows@));
            assert(r.remaining() =~= self.out_seq());
        }
        r
    }

    fn identity(&self) -> (r: Option<TableInfo>) {
        Some(TableInfo { table_name: self.rel_name.clone() })
    }

    fn dup(&self) -> (r: Self) {
        let mut rows: Vec<TupleSet> = Vec::new();
        let mut i: usize = 0;
        while i < self.rows.len()
            invariant
                i <= self.rows@.len(),
                rows@.len() == i,
                forall|k: int| 0 <= k < i ==> rows@[k]@ == self.rows@[k]@,
            decreases self.rows@.len() - i,
        {
            rows.push(self.rows[i].dup());
            i += 1;
        }
        let r = FixedRelation {
            rel_name: self.rel_name.clone(),
            bmap: self.bmap.dup(),
            rows,
            fault: self.fault,
        };
        proof {
            assert(row_items(r.rows@) =~= row_items(self.rows@));
            assert(r.out_seq() =~= self.out_seq());
            assert(r.binding_seq() =~= self.binding_seq());
        }
        r
    }
}


/// A skipped well-formed sequence stays well formed, and skipping an `Ok`
/// head keeps faults and their positions.
pub proof fn lemma_items_skip(s: Seq<Result<Seq<DvView>, AlgebraError>>)
    requires
        s.len() > 0,
        s[0] is Ok,
    ensures
        wf_items(s) ==> wf_items(s.skip(1)),
        has_err(s) == has_err(s.skip(1)),
{
    if wf_items(s) {
        assert forall|i: int| 0 <= i < s.skip(1).len() - 1 implies s.skip(1)[i] is Ok by {
            assert(s[i + 1] is Ok);
        }
    }
    if has_err(s) {
        let i = choose|i: int| 0 <= i < s.len() && s[i] is Err;
        assert(s.skip(1)[i - 1] is Err);
    }
    if has_err(s.skip(1)) {
        let i = choose|i: int| 0 <= i < s.skip(1).len() && s.skip(1)[i] is Err;
        assert(s[i + 1] is Err);
    }
}

/// The product of well-formed children is well formed: a fault only ever
/// comes last.
pub proof fn lemma_cart_wf(
    l: Seq<Result<Seq<DvView>, AlgebraError>>,
    r: Seq<Result<Seq<DvView>, AlgebraError>>,
)
    requires
        wf_items(l),
        wf_items(r),
    ensures
        wf_items(cart(l, r)),
    decreases l.len(),
{
    if l.len() == 0 {
    } else if l[0] is Err {
    } else {
        let t = l[0]->Ok_0;
        let e = emit_right(t, r);
        assert(e.len() == r.len());
        if has_err(r) {
            assert(cart(l, r) =~= e);
            assert forall|i: int| 0 <= i < e.len() - 1 implies e[i] is Ok by {
                assert(e[i] == merge_item(t, r[i]));
                assert(r[i] is Ok);
            }
        } else {
            lemma_items_skip(l);
            lemma_cart_wf(l.skip(1), r);
            let rest = cart(l.skip(1), r);
            let whole = cart(l, r);
            assert(whole =~= e + rest);
            assert forall|i: int| 0 <= i < whole.len() - 1 implies whole[i] is Ok by {
                if i < e.len() {
                    assert(e[i] == merge_item(t, r[i]));
                    assert(!(r[i] is Err));
                } else {
                    assert(whole[i] == rest[i - e.len()]);
                }
            }
        }
    }
}

/// With fault-free children the product emits exactly one row per pair:
/// its length is the product of the children's.
pub proof fn lemma_cart_len(
    l: Seq<Result<Seq<DvView>, AlgebraError>>,
    r: Seq<Result<Seq<DvView>, AlgebraError>>,
)
    requires
        !has_err(l),
        !has_err(r),
    ensures
        cart(l, r).len() == l.len() * r.len(),
    decreases l.len(),
{
    if l.len() == 0 {
        assert(cart(l, r).len() == l.len() * r.len()) by (nonlinear_arith)
            requires
                cart(l, r).len() == 0 && l.len() == 0,
        ;
    } else {
        assert(!(l[0] is Err));
        assert forall|i: int| 0 <= i < l.skip(1).len() implies !(l.skip(1)[i] is Err) by {
            assert(!(l[i + 1] is Err));
        }
        lemma_cart_len(l.skip(1), r);
        assert(cart(l, r).len() == r.len() + (l.len() - 1) * r.len());
        assert(r.len() + (l.len() - 1) * r.len() == l.len() * r.len()) by (nonlinear_arith);
    }
}

/// With fault-free children, the element at position i·|R|+j is exactly
/// L[i] merged with R[j]: left-major, right-minor order.
pub proof fn lemma_cart_index(
    l: Seq<Result<Seq<DvView>, AlgebraError>>,
    r: Seq<Result<Seq<DvView>, AlgebraError>>,
    i: int,
    j: int,
)
    requires
        !has_err(l),
        !has_err(r),
        0 <= i < l.len(),
        0 <= j < r.len(),
    ensures
        cart(l, r)[i * r.len() + j] == Ok::<Seq<DvView>, AlgebraError>(
            l[i]->Ok_0 + r[j]->Ok_0,
        ),
    decreases i,
{
    assert(!(l[0] is Err));
    assert(!(r[j] is Err));
    let t = l[0]->Ok_0;
    let e = emit_right(t, r);
    assert(e.len() == r.len());
    if i == 0 {
        assert(cart(l, r)[j] == e[j]);
        assert(e[j] == merge_item(t, r[j]));
    } else {
        assert forall|k: int| 0 <= k < l.skip(1).len() implies !(l.skip(1)[k] is Err) by {
            assert(!(l[k + 1] is Err));
        }
        lemma_cart_index(l.skip(1), r, i - 1, j);
        let rest = cart(l.skip(1), r);
        lemma_cart_len(l.skip(1), r);
        assert(i * r.len() + j - r.len() == (i - 1) * r.len() + j) by (nonlinear_arith);
        assert(0 <= (i - 1) * r.len() + j < rest.len()) by (nonlinear_arith)
            requires
                0 <= i - 1 < l.skip(1).len() && 0 <= j < r.len() && rest.len() == l.skip(1).len()
                    * r.len(),
        ;
        assert(cart(l, r)[i * r.len() + j] == rest[(i - 1) * r.len() + j]);
        assert(l.skip(1)[i - 1] == l[i]);
    }
}

/// An empty right child gives an empty product, whatever the fault-free
/// left child holds.
pub proof fn lemma_cart_right_empty(l: Seq<Result<Seq<DvView>, AlgebraError>>)
    requires
        !has_err(l),
    ensures
        cart(l, Seq::<Result<Seq<DvView>, AlgebraError>>::empty()) == Seq::<
            Result<Seq<DvView>, AlgebraError>,
        >::empty(),
    decreases l.len(),
{
    let r = Seq::<Result<Seq<DvView>, AlgebraError>>::empty();
    if l.len() == 0 {
    } else {
        assert(!(l[0] is Err));
        assert forall|i: int| 0 <= i < l.skip(1).len() implies !(l.skip(1)[i] is Err) by {
            assert(!(l[i + 1] is Err));
        }
        lemma_cart_right_empty(l.skip(1));
        assert(cart(l, r) =~= emit_right(l[0]->Ok_0, r) + cart(l.skip(1), r));
        assert(cart(l, r) =~= Seq::<Result<Seq<DvView>, AlgebraError>>::empty());
    }
}

/// An empty right child under a left child that ends in a fault emits that
/// fault alone: the rows contribute nothing, the fault still surfaces.
pub proof fn lemma_cart_right_empty_fault(l: Seq<Result<Seq<DvView>, AlgebraError>>)
    requires
        wf_items(l),
        has_err(l),
    ensures
        cart(l, Seq::<Result<Seq<DvView>, AlgebraError>>::empty()) == seq![l.last()],
    decreases l.len(),
{
    let r = Seq::<Result<Seq<DvView>, AlgebraError>>::empty();
    assert(!has_err(r));
    if l[0] is Err {
        assert(l.len() == 1);
        assert(cart(l, r) =~= seq![l.last()]);
    } else {
        lemma_items_skip(l);
        lemma_cart_right_empty_fault(l.skip(1));
        assert(cart(l, r) =~= emit_right(l[0]->Ok_0, r) + cart(l.skip(1), r));
        assert(l.skip(1).last() == l.last());
        assert(cart(l, r) =~= seq![l.last()]);
    }
}

/// An empty left child gives an empty product.
pub proof fn lemma_cart_left_empty(r: Seq<Result<Seq<DvView>, AlgebraError>>)
    ensures
        cart(Seq::<Result<Seq<DvView>, AlgebraError>>::empty(), r) == Seq::<
            Result<Seq<DvView>, AlgebraError>,
        >::empty(),
{
}

/// A fault on the k-th right element surfaces as the k-th emitted element,
/// after the k pairs of the first left row, and nothing follows it.
pub proof fn lemma_cart_error_prop(
    l: Seq<Result<Seq<DvView>, AlgebraError>>,
    r: Seq<Result<Seq<DvView>, AlgebraError>>,
    e: AlgebraError,
)
    requires
        l.len() >= 1,
        l[0] is Ok,
        r.len() >= 1,
        r.last() == Err::<Seq<DvView>, AlgebraError>(e),
        forall|i: int| 0 <= i < r.len() - 1 ==> r[i] is Ok,
    ensures
        cart(l, r).len() == r.len(),
        forall|j: int|
            0 <= j < r.len() - 1 ==> cart(l, r)[j] == Ok::<Seq<DvView>, AlgebraError>(
                l[0]->Ok_0 + r[j]->Ok_0,
            ),
        cart(l, r).last() == Err::<Seq<DvView>, AlgebraError>(e),
{
    assert(r[r.len() - 1] is Err);
    assert(has_err(r));
    let t = l[0]->Ok_0;
    let em = emit_right(t, r);
    assert(cart(l, r) =~= em);
    assert(em[r.len() - 1] == merge_item(t, r[r.len() - 1]));
    assert forall|j: int| 0 <= j < r.len() - 1 implies cart(l, r)[j] == Ok::<
        Seq<DvView>,
        AlgebraError,
    >(t + r[j]->Ok_0) by {
        assert(em[j] == merge_item(t, r[j]));
        assert(r[j] is Ok);
    }
}

/// The cartesian join of two operators: it owns both subtrees and emits
/// their product, reopening the right child once per left row.
pub struct CartesianJoin<L: RelationalAlgebra, R: RelationalAlgebra> {
    pub left: L,
    pub right: R,
}

/// The stream of a cartesian join: the left child's stream, the right
/// operator to reopen, and the pair of cursors in flight.
pub struct CartStream<L: RelationalAlgebra, R: RelationalAlgebra> {
    left: L::Stream,
    right_op: R,
    left_cache: Option<TupleSet>,
    right_cache: Option<R::Stream>,
    started: bool,
    done: bool,
}

impl<L: RelationalAlgebra, R: RelationalAlgebra> TupleStream for CartStream<L, R> {
    closed spec fn remaining(&self) -> Seq<Result<Seq<DvView>, AlgebraError>> {
        if self.done {
            Seq::empty()
        } else if !self.started {
            cart(self.left.remaining(), self.right_op.out_seq())
        } else if self.left_cache is Some && self.right_cache is Some {
            let t = self.left_cache->0@;
            let rr = self.right_cache->0.remaining();
            emit_right(t, rr) + if has_err(rr) {
                Seq::<Result<Seq<DvView>, AlgebraError>>::empty()
            } else {
                cart(self.left.remaining(), self.right_op.out_seq())
            }
        } else {
            Seq::empty()
        }
    }

    closed spec fn inv(&self) -> bool {
        self.left.inv() && (self.right_cache is Some ==> self.right_cache->0.inv()) && (
        self.started && !self.done ==> self.left_cache is Some && self.right_cache is Some)
    }

    proof fn remaining_wf(&self) {
        if self.done {
        } else if !self.started {
            self.left.remaining_wf();
            self.right_op.out_seq_wf();
            lemma_cart_wf(self.left.remaining(), self.right_op.out_seq());
        } else if self.left_cache is Some && self.right_cache is Some {
            let t = self.left_cache->0@;
            let rr = self.right_cache->0.remaining();
            self.right_cache->0.remaining_wf();
            self.left.remaining_wf();
            self.right_op.out_seq_wf();
            lemma_cart_wf(self.left.remaining(), self.right_op.out_seq());
            let em = emit_right(t, rr);
            let rem = self.remaining();
            if has_err(rr) {
                assert(rem =~= em);
                assert forall|i: int| 0 <= i < rem.len() - 1 implies rem[i] is Ok by {
                    assert(em[i] == merge_item(t, rr[i]));
                    assert(rr[i] is Ok);
                }
            } else {
                let rest = cart(self.left.remaining(), self.right_op.out_seq());
                assert(rem =~= em + rest);
                assert forall|i: int| 0 <= i < rem.len() - 1 implies rem[i] is Ok by {
                    if i < em.len() {
                        assert(em[i] == merge_item(t, rr[i]));
                        assert(!(rr[i] is Err));
                    } else {
                        assert(rem[i] == rest[i - em.len()]);
                    }
                }
            }
        }
    }

    fn next(&mut self) -> (r: Option<Result<TupleSet, AlgebraError>>) {
        if self.done {
            return None;
        }
        if !self.started {
            proof {
                self.left.remaining_wf();
            }
            let ghost l0 = self.left.remaining();
            let ghost rop = self.right_op.out_seq();
            match self.left.next() {
                None => {
                    self.done = true;
                    return None;
                },
                Some(res) => match res {
                    Err(e) => {
                        proof {
                            assert(l0[0] is Err);
                            assert(old(self).remaining() =~= seq![l0[0]]);
                        }
                        self.done = true;
                        return Some(Err(e));
                    },
                    Ok(t) => {
                        let rs = self.right_op.iter();
                        self.left_cache = Some(t);
                        self.right_cache = Some(rs);
                        self.started = true;
                        proof {
                            assert(l0[0] is Ok && l0[0]->Ok_0 == self.left_cache->0@);
                            assert(self.left.remaining() == l0.skip(1));
                            assert(self.remaining() == old(self).remaining());
                        }
                    },
                },
            }
        }
        loop
            invariant
                self.inv(),
                self.started,
                !self.done,
                self.remaining() == old(self).remaining(),
            decreases self.left.remaining().len(),
        {
            let ghost pre = *self;
            let ghost t_view = self.left_cache->0@;
            let ghost rr = self.right_cache->0.remaining();
            proof {
                self.right_cache->0.remaining_wf();
                self.left.remaining_wf();
                self.right_op.out_seq_wf();
            }
            let rnext = match &mut self.right_cache {
                Some(rs) => rs.next(),
                None => {
                    proof {
                        assert(false);
                    }
                    None
                },
            };
            match rnext {
                Some(inner) => match inner {
                    Ok(u) => {
                        let merged = match &self.left_cache {
                            Some(t) => {
                                let mut m = t.dup();
                                m.merge(u);
                                m
                            },
                            None => {
                                proof {
                                    assert(false);
                                }
                                TupleSet::new()
                            },
                        };
                        proof {
                            assert(rr.len() > 0 && rr[0] is Ok);
                            assert(pre.remaining()[0] == merge_item(t_view, rr[0]));
                            assert(merged@ == t_view + rr[0]->Ok_0);
                            lemma_items_skip(rr);
                            let em = emit_right(t_view, rr);
                            let em2 = emit_right(t_view, rr.skip(1));
                            assert forall|k: int| 0 <= k < em2.len() implies em2[k] == em.skip(
                                1,
                            )[k] by {
                                assert(em2[k] == merge_item(t_view, rr.skip(1)[k]));
                                assert(em.skip(1)[k] == merge_item(t_view, rr[k + 1]));
                            }
                            assert(em2 =~= em.skip(1));
                            assert(self.remaining() =~= pre.remaining().skip(1));
                        }
                        return Some(Ok(merged));
                    },
                    Err(e) => {
                        proof {
                            assert(rr[0] is Err);
                            assert(rr.len() == 1);
                            assert(has_err(rr));
                            assert(pre.remaining() =~= emit_right(t_view, rr));
                            assert(pre.remaining() =~= seq![
                                Err::<Seq<DvView>, AlgebraError>(e),
                            ]);
                        }
                        self.done = true;
                        proof {
                            assert(self.remaining() =~= pre.remaining().skip(1));
                        }
                        return Some(Err(e));
                    },
                },
                None => {
                    proof {
                        assert(rr.len() == 0);
                        assert(!has_err(rr));
                        assert(emit_right(t_view, rr) =~= Seq::<
                            Result<Seq<DvView>, AlgebraError>,
                        >::empty());
                        assert(pre.remaining() =~= cart(
                            self.left.remaining(),
                            self.right_op.out_seq(),
                        ));
                    }
                    let ghost l0 = self.left.remaining();
                    let ghost rop = self.right_op.out_seq();
                    match self.left.next() {
                        None => {
                            self.done = true;
                            return None;
                        },
                        Some(res) => match res {
                            Err(e) => {
                                proof {
                                    self.left.remaining_wf();
                                    assert(l0[0] is Err);
                                    assert(pre.remaining() =~= seq![l0[0]]);
                                }
                                self.done = true;
                                return Some(Err(e));
                            },
                            Ok(t2) => {
                                let rs = self.right_op.iter();
                                self.left_cache = Some(t2);
                                self.right_cache = Some(rs);
                                proof {
                                    assert(l0[0] is Ok && l0[0]->Ok_0 == self.left_cache->0@);
                                    assert(self.left.remaining() == l0.skip(1));
                                    assert(self.remaining() == pre.remaining());
                                }
                            },
                        },
                    }
                },
            }
        }
    }
}

impl<L: RelationalAlgebra, R: RelationalAlgebra> RelationalAlgebra for CartesianJoin<L, R> {
    type Stream = CartStream<L, R>;

    open spec fn out_seq(&self) -> Seq<Result<Seq<DvView>, AlgebraError>> {
        cart(self.left.out_seq(), self.right.out_seq())
    }

    open spec fn binding_seq(&self) -> Seq<Seq<char>> {
        self.left.binding_seq() + self.right.binding_seq()
    }

    open spec fn bmap_spec(&self) -> Result<Seq<(Seq<char>, int, int)>, AlgebraError> {
        match (self.left.bmap_spec(), self.right.bmap_spec()) {
            (Ok(a), Ok(b)) => shift_merge_spec(a, b),
            (Err(e), _) => Err(e),
            (Ok(_), Err(e)) => Err(e),
        }
    }

    open spec fn bmap_ready(&self) -> bool {
        self.left.bmap_ready() && self.right.bmap_ready() && match (
            self.left.bmap_spec(),
            self.right.bmap_spec(),
        ) {
            (Ok(a), Ok(b)) => (forall|j: int|
                0 <= j < b.len() ==> b[j].2 + spec_width(a) <= usize::MAX) && (forall|j: int|
                0 <= j < b.len() ==> b[j].1 <= b[j].2),
            _ => true,
        }
    }

    open spec fn name_spec(&self) -> Seq<char> {
        "Cartesian"@
    }

    open spec fn identity_spec(&self) -> Option<Seq<char>> {
        None
    }

    proof fn out_seq_wf(&self) {
        self.left.out_seq_wf();
        self.right.out_seq_wf();
        lemma_cart_wf(self.left.out_seq(), self.right.out_seq());
    }

    fn name(&self) -> (r: &str) {
        "Cartesian"
    }

    fn bindings(&self) -> (r: Vec<String>) {
        let mut v = self.left.bindings();
        let mut w = self.right.bindings();
        v.append(&mut w);
        proof {
            assert(v@.map_values(|s: String| s@) =~= self.binding_seq());
        }
        v
    }

    fn binding_map(&self) -> (r: Result<BindingMap, AlgebraError>) {
        match self.left.binding_map() {
            Err(e) => Err(e),
            Ok(mut m) => match self.right.binding_map() {
                Err(e) => Err(e),
                Ok(rm) => match shift_merge_binding_map(&mut m, &rm) {
                    Ok(_) => Ok(m),
                    Err(e) => Err(e),
                },
            },
        }
    }

    fn iter(&self) -> (r: CartStream<L, R>) {
        let r = CartStream {
            left: self.left.iter(),
            right_op: self.right.dup(),
            left_cache: None,
            right_cache: None,
            started: false,
            done: false,
        };
        r
    }

    fn identity(&self) -> (r: Option<TableInfo>) {
        None
    }

    fn dup(&self) -> (r: Self) {
        CartesianJoin { left: self.left.dup(), right: self.right.dup() }
    }
}


/// Two streams opened on one operator over one snapshot see the same
/// sequence: what each will yield is a function of the operator alone, so
/// restarting yields an identical run.
pub proof fn lemma_restart_deterministic<O: RelationalAlgebra>(
    op: &O,
    s1: &O::Stream,
    s2: &O::Stream,
)
    requires
        s1.remaining() == op.out_seq(),
        s2.remaining() == op.out_seq(),
    ensures
        s1.remaining() == s2.remaining(),
{
}

} // verus!

