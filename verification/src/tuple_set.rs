//! The row model flowing through operators: an ordered sequence of bound
//! values, plus the map from logical binding name to the column range it
//! occupies.

use vstd::prelude::*;

use crate::errors::AlgebraError;
use crate::value::{DataValue, DvView};

verus! {

/// One row of bound values produced by an operator.
#[derive(Debug, PartialEq)]
pub struct TupleSet {
    pub vals: Vec<DataValue>,
}

impl View for TupleSet {
    type V = Seq<DvView>;

    open spec fn view(&self) -> Seq<DvView> {
        self.vals@.map_values(|d: DataValue| d@)
    }
}

impl TupleSet {
    /// The empty row.
    pub fn new() -> (r: Self)
        ensures
            r@ == Seq::<DvView>::empty(),
    {
        let r = TupleSet { vals: Vec::new() };
        proof {
            assert(r@ =~= Seq::<DvView>::empty());
        }
        r
    }

    /// Appends one bound value.
    pub fn push(&mut self, v: DataValue)
        ensures
            final(self)@ == old(self)@.push(v@),
    {
        self.vals.push(v);
        proof {
            assert(self@ =~= old(self)@.push(self.vals@.last()@));
        }
    }

    /// Number of value slots.
    pub fn len(&self) -> (r: usize)
        ensures
            r == self@.len(),
    {
        self.vals.len()
    }

    /// The value in slot `i`.
    pub fn get(&self, i: usize) -> (r: &DataValue)
        requires
            i < self@.len(),
        ensures
            r@ == self@[i as int],
    {
        &self.vals[i]
    }

    /// An equal row: the cheap clone every operator may take.
    pub fn dup(&self) -> (r: Self)
        ensures
            r@ == self@,
    {
        let mut vals: Vec<DataValue> = Vec::new();
        let mut i: usize = 0;
        while i < self.vals.len()
            invariant
                i <= self.vals@.len(),
                vals@.len() == i,
                forall|k: int| 0 <= k < i ==> vals@[k]@ == self.vals@[k]@,
            decreases self.vals@.len() - i,
        {
            vals.push(self.vals[i].dup());
            i += 1;
        }
        let r = TupleSet { vals };
        proof {
            assert(r@ =~= self@);
        }
        r
    }

    /// Appends the other row's slots after this row's own.
    pub fn merge(&mut self, other: TupleSet)
        ensures
            final(self)@ == old(self)@ + other@,
    {
        let mut i: usize = 0;
        while i < other.vals.len()
            invariant
                i <= other.vals@.len(),
                self.vals@.len() == old(self).vals@.len() + i,
                forall|k: int| 0 <= k < old(self).vals@.len() ==> self.vals@[k] == old(self).vals@[k],
                forall|k: int|
                    0 <= k < i ==> self.vals@[old(self).vals@.len() + k]@ == other.vals@[k]@,
            decreases other.vals@.len() - i,
        {
            self.vals.push(other.vals[i].dup());
            i += 1;
        }
        proof {
            assert(self@ =~= old(self)@ + other@);
        }
    }
}

/// Relies on `str`'s `PartialEq`: two string slices are equal exactly when
/// their characters are.
#[verifier::external_body]
fn str_eq(a: &str, b: &str) -> (r: bool)
    ensures
        r == (a@ == b@),
{
    a == b
}

/// One binding: a name and the half-open column range it occupies.
#[derive(Debug)]
pub struct Binding {
    pub name: String,
    pub lo: usize,
    pub hi: usize,
}

impl View for Binding {
    type V = (Seq<char>, int, int);

    open spec fn view(&self) -> (Seq<char>, int, int) {
        (self.name@, self.lo as int, self.hi as int)
    }
}

impl Binding {
    /// An equal binding.
    pub fn dup(&self) -> (r: Self)
        ensures
            r@ == self@,
    {
        Binding { name: self.name.clone(), lo: self.lo, hi: self.hi }
    }
}

/// The next free column index: the largest range end any entry occupies.
pub open spec fn spec_width(s: Seq<(Seq<char>, int, int)>) -> int
    decreases s.len(),
{
    if s.len() == 0 {
        0
    } else {
        let w = spec_width(s.drop_last());
        if s.last().2 > w {
            s.last().2
        } else {
            w
        }
    }
}

/// Whether some name occurs in both entry sequences.
pub open spec fn names_collide(a: Seq<(Seq<char>, int, int)>, b: Seq<(Seq<char>, int, int)>) -> bool {
    exists|i: int, j: int| 0 <= i < a.len() && 0 <= j < b.len() && a[i].0 == b[j].0
}

/// What shift-merging two maps yields: the right entries follow the left
/// ones, their columns offset by the left map's width; a shared name is a
/// collision error.
pub open spec fn shift_merge_spec(
    a: Seq<(Seq<char>, int, int)>,
    b: Seq<(Seq<char>, int, int)>,
) -> Result<Seq<(Seq<char>, int, int)>, AlgebraError> {
    if names_collide(a, b) {
        Err(AlgebraError::BindingCollision)
    } else {
        Ok(a + b.map_values(|e: (Seq<char>, int, int)| (e.0, e.1 + spec_width(a), e.2 + spec_width(a))))
    }
}

/// Mapping from binding name to the column range it occupies within a
/// `TupleSet`.
#[derive(Debug)]
pub struct BindingMap {
    pub entries: Vec<Binding>,
}

impl View for BindingMap {
    type V = Seq<(Seq<char>, int, int)>;

    open spec fn view(&self) -> Seq<(Seq<char>, int, int)> {
        self.entries@.map_values(|b: Binding| b@)
    }
}

impl BindingMap {
    /// The empty map.
    pub fn new() -> (r: Self)
        ensures
            r@ == Seq::<(Seq<char>, int, int)>::empty(),
    {
        let r = BindingMap { entries: Vec::new() };
        proof {
            assert(r@ =~= Seq::<(Seq<char>, int, int)>::empty());
        }
        r
    }

    /// Binding names are unique and every range is ordered.
    pub open spec fn wf(&self) -> bool {
        (forall|i: int, j: int| 0 <= i < j < self@.len() ==> self@[i].0 != self@[j].0)
            && (forall|i: int| 0 <= i < self@.len() ==> self@[i].1 <= self@[i].2)
    }

    /// An equal map.
    pub fn dup(&self) -> (r: Self)
        ensures
            r@ == self@,
    {
        let mut entries: Vec<Binding> = Vec::new();
        let mut i: usize = 0;
        while i < self.entries.len()
            invariant
                i <= self.entries@.len(),
                entries@.len() == i,
                forall|k: int| 0 <= k < i ==> entries@[k]@ == self.entries@[k]@,
            decreases self.entries@.len() - i,
        {
            entries.push(self.entries[i].dup());
            i += 1;
        }
        let r = BindingMap { entries };
        proof {
            assert(r@ =~= self@);
        }
        r
    }

    /// The column range the named binding occupies, if it is bound: the
    /// first entry of that name.
    pub fn get(&self, name: &str) -> (r: Option<(usize, usize)>)
        ensures
            (r is Some) <==> (exists|i: int| 0 <= i < self@.len() && self@[i].0 == name@),
            (r is Some) ==> (exists|i: int|
                0 <= i < self@.len() && self@[i].0 == name@ && self@[i].1 == r->Some_0.0 && self@[i].2
                    == r->Some_0.1),
    {
        let mut i: usize = 0;
        while i < self.entries.len()
            invariant
                i <= self.entries@.len(),
                forall|j: int| 0 <= j < i ==> self@[j].0 != name@,
            decreases self.entries@.len() - i,
        {
            if str_eq(self.entries[i].name.as_str(), name) {
                let lo = self.entries[i].lo;
                let hi = self.entries[i].hi;
                proof {
                    assert(self@[i as int].0 == name@ && self@[i as int].1 == lo as int
                        && self@[i as int].2 == hi as int);
                }
                return Some((lo, hi));
            }
            i += 1;
        }
        None
    }

    /// The next free column index, where appended columns go.
    pub fn next_tset_indices(&self) -> (r: usize)
        ensures
            r == spec_width(self@),
    {
        let mut w: usize = 0;
        proof {
            assert(self@.subrange(0, 0) =~= Seq::<(Seq<char>, int, int)>::empty());
        }
        let mut i: usize = 0;
        while i < self.entries.len()
            invariant
                i <= self.entries@.len(),
                w == spec_width(self@.subrange(0, i as int)),
            decreases self.entries@.len() - i,
        {
            proof {
                assert(self@.subrange(0, i + 1).drop_last() =~= self@.subrange(0, i as int));
            }
            if self.entries[i].hi > w {
                w = self.entries[i].hi;
            }
            i += 1;
        }
        proof {
            assert(self@.subrange(0, self@.len() as int) =~= self@);
        }
        w
    }
}

/// Appends the right map's bindings after the left's, offsetting their
/// columns by the left map's width; two subtrees exporting the same name is
/// a collision.
pub fn shift_merge_binding_map(left: &mut BindingMap, right: &BindingMap) -> (r: Result<
    (),
    AlgebraError,
>)
    requires
        forall|j: int|
            0 <= j < right@.len() ==> right@[j].2 + spec_width(old(left)@) <= usize::MAX,
        forall|j: int| 0 <= j < right@.len() ==> right@[j].1 <= right@[j].2,
    ensures
        shift_merge_spec(old(left)@, right@) matches Ok(m) ==> (r is Ok && final(left)@ == m),
        shift_merge_spec(old(left)@, right@) is Err ==> (r
            == Err::<(), AlgebraError>(AlgebraError::BindingCollision) && final(left)@ == old(
            left,
        )@),
{
    let mut i: usize = 0;
    while i < right.entries.len()
        invariant
            i <= right.entries@.len(),
            forall|ii: int, jj: int|
                0 <= ii < left@.len() && 0 <= jj < i ==> left@[ii].0 != right@[jj].0,
            left.entries@ == old(left).entries@,
        decreases right.entries@.len() - i,
    {
        let mut k: usize = 0;
        while k < left.entries.len()
            invariant
                k <= left.entries@.len(),
                i < right.entries@.len(),
                forall|ii: int| 0 <= ii < k ==> left@[ii].0 != right@[i as int].0,
                left.entries@ == old(left).entries@,
            decreases left.entries@.len() - k,
        {
            if left.entries[k].name == right.entries[i].name {
                proof {
                    assert(left@[k as int].0 == right@[i as int].0);
                    assert(names_collide(old(left)@, right@));
                }
                return Err(AlgebraError::BindingCollision);
            }
            k += 1;
        }
        i += 1;
    }
    proof {
        assert(!names_collide(old(left)@, right@));
    }
    let w = left.next_tset_indices();
    let ghost a = old(left)@;
    let ghost shifted = right@.map_values(
        |e: (Seq<char>, int, int)| (e.0, e.1 + spec_width(a), e.2 + spec_width(a)),
    );
    let mut i: usize = 0;
    while i < right.entries.len()
        invariant
            i <= right.entries@.len(),
            w == spec_width(a),
            forall|j: int| 0 <= j < right@.len() ==> right@[j].2 + spec_width(a) <= usize::MAX,
            forall|j: int| 0 <= j < right@.len() ==> right@[j].1 <= right@[j].2,
            left.entries@.len() == old(left).entries@.len() + i,
            forall|k: int|
                0 <= k < old(left).entries@.len() ==> left.entries@[k] == old(left).entries@[k],
            forall|k: int|
                0 <= k < i ==> left@[old(left).entries@.len() + k] == (
                right@[k].0,
                right@[k].1 + spec_width(a),
                right@[k].2 + spec_width(a),
            ),
        decreases right.entries@.len() - i,
    {
        proof {
            assert(right@[i as int].1 <= right@[i as int].2 && right@[i as int].2 + spec_width(a)
                <= usize::MAX);
            assert(right@[i as int].1 == right.entries@[i as int].lo as int);
            assert(right@[i as int].2 == right.entries@[i as int].hi as int);
        }
        let b = Binding {
            name: right.entries[i].name.clone(),
            lo: right.entries[i].lo + w,
            hi: right.entries[i].hi + w,
        };
        left.entries.push(b);
        i += 1;
    }
    proof {
        assert(shifted.len() == right@.len());
        assert(left@ =~= a + shifted);
    }
    Ok(())
}

} // verus!
