//! Storage key codec and relational-algebra iteration core of an embedded
//! triple store.
//!
//! The `encode` module defines the binary layout shared by all persisted
//! records: byte keys ordered lexicographically in a sorted KV store, where
//! the same prefix structure that identifies a record is the prefix by which
//! range scans over its family run.  The `cartesian` module defines the lazy,
//! restartable stream contract over which query operators compose, with the
//! cartesian product as the reference operator.

pub mod byteorder;
pub mod errors;
pub mod ids;
pub mod order;
pub mod tuple_set;
pub mod cartesian;
pub mod encode;
pub mod value;
