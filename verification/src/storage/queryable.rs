//! Queries that name a vector of a storage: by name, by index, by column, or by a
//! column and a value in it.

use vstd::prelude::*;

use super::columns::{Column, ColumnKind, Columns};
use super::{position_of, views_of, Storage, Value, VectorIndex};
use crate::vsa::architectures::VectorSymbolicArchitecture;
use crate::vsa::{Size, Vector};

verus! {

/// A queryable item for a vector storage.
pub trait Queryable {
    /// The index of the vector the query names in the storage, if any.
    spec fn target(&self, names: Seq<Seq<char>>, columns: Columns) -> Option<nat>;

    /// Try to query a vector index from the storage.
    fn query_index<S: Size, V: VectorSymbolicArchitecture>(&self, storage: &Storage<S, V>) -> (r:
        Option<VectorIndex>)
        requires
            storage.wf(),
        ensures
            r matches Some(i) ==> self.target(storage.names(), storage.spec_columns()) == Some(i@),
            r is None ==> self.target(storage.names(), storage.spec_columns()) is None,
    ;

    /// Try to query a vector from the storage.
    fn query<'a, S: Size, V: VectorSymbolicArchitecture>(&self, storage: &'a Storage<S, V>) -> (r:
        Option<&'a Vector<S, V>>)
        requires
            storage.wf(),
        ensures
            match self.target(storage.names(), storage.spec_columns()) {
                Some(i) => if i < storage.count() {
                    r == Some(&storage.vector(i as int))
                } else {
                    r is None
                },
                None => r is None,
            },
    {
        match self.query_index(storage) {
            Some(i) => storage.get_by_index(i),
            None => None,
        }
    }
}

impl Queryable for Value {
    open spec fn target(&self, names: Seq<Seq<char>>, columns: Columns) -> Option<nat> {
        position_of(names, self@)
    }

    fn query_index<S: Size, V: VectorSymbolicArchitecture>(&self, storage: &Storage<S, V>) -> (r:
        Option<VectorIndex>) {
        storage.index_by_name(self.as_str())
    }
}

impl Queryable for VectorIndex {
    open spec fn target(&self, names: Seq<Seq<char>>, columns: Columns) -> Option<nat> {
        Some(self@)
    }

    fn query_index<S: Size, V: VectorSymbolicArchitecture>(&self, storage: &Storage<S, V>) -> (r:
        Option<VectorIndex>) {
        Some(*self)
    }
}

impl<'s> Queryable for &'s str {
    open spec fn target(&self, names: Seq<Seq<char>>, columns: Columns) -> Option<nat> {
        position_of(names, (**self)@)
    }

    fn query_index<S: Size, V: VectorSymbolicArchitecture>(&self, storage: &Storage<S, V>) -> (r:
        Option<VectorIndex>) {
        storage.index_by_name(*self)
    }
}

impl Queryable for Column {
    open spec fn target(&self, names: Seq<Seq<char>>, columns: Columns) -> Option<nat> {
        match position_of(columns.names(), self@) {
            Some(p) => Some(columns.column(p as int).vector@),
            None => None,
        }
    }

    fn query_index<S: Size, V: VectorSymbolicArchitecture>(&self, storage: &Storage<S, V>) -> (r:
        Option<VectorIndex>) {
        match storage.column_position(self.name()) {
            Some(p) => Some(storage.column_at(p).vector),
            None => None,
        }
    }
}

impl Queryable for (Column, Value) {
    open spec fn target(&self, names: Seq<Seq<char>>, columns: Columns) -> Option<nat> {
        match position_of(columns.names(), self.0@) {
            Some(p) => match columns.column(p as int).kind {
                ColumnKind::String => position_of(names, self.1@),
                ColumnKind::Enum { categories, values } => match position_of(
                    views_of(categories@),
                    self.1@,
                ) {
                    Some(q) => Some(values@[q as int]@),
                    None => None,
                },
            },
            None => None,
        }
    }

    fn query_index<S: Size, V: VectorSymbolicArchitecture>(&self, storage: &Storage<S, V>) -> (r:
        Option<VectorIndex>) {
        let p = match storage.column_position(self.0.name()) {
            Some(p) => p,
            None => {
                return None;
            },
        };
        let column = storage.column_at(p);
        match &column.kind {
            ColumnKind::String => storage.index_by_name(self.1.as_str()),
            ColumnKind::Enum { categories, values } => match super::find_name(categories, self.1.name()) {
                Some(q) => Some(values[q]),
                None => None,
            },
        }
    }
}

} // verus!
