use triplekv::cartesian::{
    CartesianJoin, FixedRelation, RelationalAlgebra, TupleStream,
};
use triplekv::errors::AlgebraError;
use triplekv::tuple_set::{Binding, BindingMap, TupleSet, shift_merge_binding_map};
use triplekv::value::DataValue;

fn int_row(vals: &[i64]) -> TupleSet {
    let mut t = TupleSet::new();
    for v in vals {
        t.push(DataValue::Int(*v));
    }
    t
}

fn one_col_relation(name: &str, binding: &str, vals: &[i64]) -> FixedRelation {
    let mut rows: Vec<TupleSet> = Vec::new();
    for v in vals {
        rows.push(int_row(&[*v]));
    }
    FixedRelation {
        rel_name: String::from(name),
        bmap: BindingMap {
            entries: vec![Binding { name: String::from(binding), lo: 0, hi: 1 }],
        },
        rows,
        fault: None,
    }
}

fn drain<S: TupleStream>(s: &mut S) -> Vec<Result<TupleSet, AlgebraError>> {
    let mut out = Vec::new();
    loop {
        match s.next() {
            Some(item) => out.push(item),
            None => return out,
        }
    }
}

#[test]
fn cartesian_emits_left_major_right_minor() {
    let left = one_col_relation("L", "x", &[1, 2]);
    let right = one_col_relation("R", "y", &[10, 11, 12]);
    let join = CartesianJoin { left, right };
    let mut s = join.iter();
    let got = drain(&mut s);
    let expect: Vec<Vec<i64>> = vec![
        vec![1, 10],
        vec![1, 11],
        vec![1, 12],
        vec![2, 10],
        vec![2, 11],
        vec![2, 12],
    ];
    assert_eq!(got.len(), expect.len());
    for (g, e) in got.iter().zip(expect.iter()) {
        assert_eq!(g.as_ref().unwrap(), &int_row(e));
    }
}

#[test]
fn cartesian_length_is_product() {
    let join = CartesianJoin {
        left: one_col_relation("L", "x", &[1, 2, 3, 4]),
        right: one_col_relation("R", "y", &[7, 8, 9]),
    };
    let mut s = join.iter();
    assert_eq!(drain(&mut s).len(), 12);
}

#[test]
fn empty_right_gives_empty_output() {
    let join = CartesianJoin {
        left: one_col_relation("L", "x", &[1, 2, 3]),
        right: one_col_relation("R", "y", &[]),
    };
    let mut s = join.iter();
    assert_eq!(drain(&mut s).len(), 0);
}

#[test]
fn empty_left_gives_empty_output() {
    let join = CartesianJoin {
        left: one_col_relation("L", "x", &[]),
        right: one_col_relation("R", "y", &[10, 11]),
    };
    let mut s = join.iter();
    assert_eq!(drain(&mut s).len(), 0);
}

#[test]
fn restarting_the_stream_yields_identical_sequences() {
    let join = CartesianJoin {
        left: one_col_relation("L", "x", &[1, 2]),
        right: one_col_relation("R", "y", &[5, 6]),
    };
    let mut s1 = join.iter();
    let mut s2 = join.iter();
    let a = drain(&mut s1);
    let b = drain(&mut s2);
    assert_eq!(a.len(), b.len());
    for (x, y) in a.iter().zip(b.iter()) {
        assert_eq!(x.as_ref().unwrap(), y.as_ref().unwrap());
    }
}

#[test]
fn right_error_propagates_and_ends_the_stream() {
    let left = one_col_relation("L", "x", &[1, 2, 3]);
    let mut right = one_col_relation("R", "y", &[10]);
    right.fault = Some(AlgebraError::StoreError);
    let join = CartesianJoin { left, right };
    let mut s = join.iter();
    let first = s.next().unwrap();
    assert_eq!(first.unwrap(), int_row(&[1, 10]));
    let second = s.next().unwrap();
    assert_eq!(second.unwrap_err(), AlgebraError::StoreError);
    assert!(s.next().is_none());
    assert!(s.next().is_none());
}

#[test]
fn left_error_still_surfaces_over_empty_right() {
    let mut left = one_col_relation("L", "x", &[1, 2]);
    left.fault = Some(AlgebraError::StoreError);
    let right = one_col_relation("R", "y", &[]);
    let join = CartesianJoin { left, right };
    let mut s = join.iter();
    assert_eq!(s.next().unwrap().unwrap_err(), AlgebraError::StoreError);
    assert!(s.next().is_none());
}

#[test]
fn left_error_propagates_after_its_rows() {
    let mut left = one_col_relation("L", "x", &[1]);
    left.fault = Some(AlgebraError::CancelledSnapshot);
    let right = one_col_relation("R", "y", &[10]);
    let join = CartesianJoin { left, right };
    let mut s = join.iter();
    assert_eq!(s.next().unwrap().unwrap(), int_row(&[1, 10]));
    assert_eq!(s.next().unwrap().unwrap_err(), AlgebraError::CancelledSnapshot);
    assert!(s.next().is_none());
}

#[test]
fn cartesian_name_and_identity() {
    let join = CartesianJoin {
        left: one_col_relation("L", "x", &[]),
        right: one_col_relation("R", "y", &[]),
    };
    assert_eq!(join.name(), "Cartesian");
    assert!(join.identity().is_none());
    assert_eq!(join.left.name(), "L");
    assert_eq!(join.left.identity().unwrap().table_name, "L");
}

#[test]
fn cartesian_bindings_are_the_union() {
    let join = CartesianJoin {
        left: one_col_relation("L", "x", &[]),
        right: one_col_relation("R", "y", &[]),
    };
    let names = join.bindings();
    assert_eq!(names, vec![String::from("x"), String::from("y")]);
}

#[test]
fn cartesian_binding_map_shift_merges() {
    let join = CartesianJoin {
        left: one_col_relation("L", "x", &[]),
        right: one_col_relation("R", "y", &[]),
    };
    let m = join.binding_map().unwrap();
    assert_eq!(m.get("x"), Some((0, 1)));
    assert_eq!(m.get("y"), Some((1, 2)));
    assert_eq!(m.get("z"), None);
    assert_eq!(m.next_tset_indices(), 2);
}

#[test]
fn colliding_binding_names_fail() {
    let join = CartesianJoin {
        left: one_col_relation("L", "x", &[]),
        right: one_col_relation("R", "x", &[]),
    };
    assert_eq!(join.binding_map().unwrap_err(), AlgebraError::BindingCollision);
}

#[test]
fn shift_merge_offsets_by_left_width() {
    let mut left = BindingMap {
        entries: vec![
            Binding { name: String::from("a"), lo: 0, hi: 2 },
            Binding { name: String::from("b"), lo: 2, hi: 3 },
        ],
    };
    let right = BindingMap {
        entries: vec![Binding { name: String::from("c"), lo: 0, hi: 2 }],
    };
    shift_merge_binding_map(&mut left, &right).unwrap();
    assert_eq!(left.get("c"), Some((3, 5)));
    assert_eq!(left.next_tset_indices(), 5);
}

#[test]
fn tuple_set_merge_concatenates() {
    let mut a = int_row(&[1, 2]);
    let b = int_row(&[3]);
    a.merge(b);
    assert_eq!(a, int_row(&[1, 2, 3]));
    assert_eq!(a.len(), 3);
    assert_eq!(a.get(2), &DataValue::Int(3));
}

#[test]
fn nested_cartesian_composes() {
    let inner = CartesianJoin {
        left: one_col_relation("A", "x", &[1, 2]),
        right: one_col_relation("B", "y", &[3]),
    };
    let join = CartesianJoin { left: inner, right: one_col_relation("C", "z", &[4, 5]) };
    let mut s = join.iter();
    let got = drain(&mut s);
    let expect: Vec<Vec<i64>> = vec![
        vec![1, 3, 4],
        vec![1, 3, 5],
        vec![2, 3, 4],
        vec![2, 3, 5],
    ];
    assert_eq!(got.len(), expect.len());
    for (g, e) in got.iter().zip(expect.iter()) {
        assert_eq!(g.as_ref().unwrap(), &int_row(e));
    }
}
