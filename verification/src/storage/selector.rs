//! Selectors: which vectors of a storage to take, in order.

use vstd::prelude::*;

use super::columns::{columns_match, Column, ColumnIter, ColumnKind, Table};
use super::queryable::Queryable;
use super::{lemma_position_of, position_of, views_of, Storage, VectorIndex};
use crate::vsa::architectures::VectorSymbolicArchitecture;
use crate::vsa::Size;

verus! {

/// The indices the queries name in the storage, in order, leaving out the queries
/// that name none.
pub open spec fn resolved<S: Size, V: VectorSymbolicArchitecture, T: Queryable>(
    queries: Seq<T>,
    storage: Storage<S, V>,
) -> Seq<nat>
    decreases queries.len(),
{
    if queries.len() == 0 {
        Seq::empty()
    } else {
        match queries[0].target(storage.names(), storage.spec_columns()) {
            Some(i) => seq![i] + resolved(queries.drop_first(), storage),
            None => resolved(queries.drop_first(), storage),
        }
    }
}

/// A selector for multiple vectors in the storage.
pub trait Selector<S: Size, V: VectorSymbolicArchitecture> {
    /// The indices selected, in order.
    spec fn selection(&self, storage: &Storage<S, V>) -> Seq<nat>;

    /// Select the indices of the vectors in the storage.
    fn select(&self, storage: &Storage<S, V>) -> (r: Vec<VectorIndex>)
        requires
            storage.wf(),
        ensures
            r@.map_values(|i: VectorIndex| i@) == self.selection(storage),
    ;
}

/// The indices of all vectors of a storage.
#[derive(Debug, Clone)]
pub struct AllIter {
    next: usize,
    end: usize,
}

impl AllIter {
    /// The indices left.
    pub closed spec fn remaining(&self) -> Seq<nat> {
        Seq::new(
            if self.next <= self.end {
                (self.end - self.next) as nat
            } else {
                0
            },
            |k: int| (self.next + k) as nat,
        )
    }

    /// All indices of the storage.
    pub fn new<S: Size, V: VectorSymbolicArchitecture>(storage: &Storage<S, V>) -> (r: Self)
        ensures
            r.remaining() == Seq::new(storage.count(), |k: int| k as nat),
    {
        let r = AllIter { next: 0, end: storage.len() };
        assert(r.remaining() =~= Seq::new(storage.count(), |k: int| k as nat));
        r
    }

    /// The next index.
    pub fn next(&mut self) -> (r: Option<VectorIndex>)
        ensures
            old(self).remaining().len() == 0 ==> r is None && final(self).remaining().len() == 0,
            old(self).remaining().len() > 0 ==> (r matches Some(i) && i@ == old(self).remaining()[0]
                && final(self).remaining() == old(self).remaining().drop_first()),
    {
        if self.next < self.end {
            let i = self.next;
            self.next = i + 1;
            assert(self.remaining() =~= old(self).remaining().drop_first());
            Some(VectorIndex(i))
        } else {
            None
        }
    }

    /// The number of indices left.
    pub fn len(&self) -> (n: usize)
        ensures
            n == self.remaining().len(),
    {
        if self.next <= self.end {
            self.end - self.next
        } else {
            0
        }
    }
}

impl<S: Size, V: VectorSymbolicArchitecture> Selector<S, V> for () {
    open spec fn selection(&self, storage: &Storage<S, V>) -> Seq<nat> {
        Seq::new(storage.count(), |k: int| k as nat)
    }

    fn select(&self, storage: &Storage<S, V>) -> (r: Vec<VectorIndex>) {
        let mut iter = AllIter::new(storage);
        let mut out: Vec<VectorIndex> = Vec::new();
        let ghost all = iter.remaining();
        while iter.len() > 0
            invariant
                all == Seq::new(storage.count(), |k: int| k as nat),
                out@.map_values(|i: VectorIndex| i@) + iter.remaining() == all,
            decreases iter.remaining().len(),
        {
            let ghost before = iter.remaining();
            let i = iter.next();
            out.push(i.unwrap());
            proof {
                assert(out@.map_values(|i: VectorIndex| i@) + iter.remaining() =~= all);
            }
        }
        assert(out@.map_values(|i: VectorIndex| i@) =~= all);
        out
    }
}

/// The indices that a list of queries names in a storage, leaving out the queries
/// that name none.
#[derive(Debug)]
pub struct SelectionIter<'a, 'b, S: Size, V: VectorSymbolicArchitecture, Q: Queryable> {
    storage: &'a Storage<S, V>,
    queries: &'b [Q],
    position: usize,
}

impl<'a, 'b, S: Size, V: VectorSymbolicArchitecture, Q: Queryable> SelectionIter<'a, 'b, S, V, Q> {
    /// The indices left.
    pub closed spec fn remaining(&self) -> Seq<nat> {
        resolved(self.queries@.subrange(self.position as int, self.queries@.len() as int), *self.storage)
    }

    /// Well-formed: the position lies within the queries.
    pub closed spec fn wf(&self) -> bool {
        self.position <= self.queries@.len() && self.storage.wf()
    }

    /// The indices the queries name.
    pub fn new(storage: &'a Storage<S, V>, queries: &'b [Q]) -> (r: Self)
        requires
            storage.wf(),
        ensures
            r.wf(),
            r.remaining() == resolved(queries@, *storage),
    {
        let r = SelectionIter { storage, queries, position: 0 };
        assert(queries@.subrange(0, queries@.len() as int) =~= queries@);
        r
    }

    /// The next index.
    pub fn next(&mut self) -> (r: Option<VectorIndex>)
        requires
            old(self).wf(),
        ensures
            final(self).wf(),
            old(self).remaining().len() == 0 ==> r is None && final(self).remaining().len() == 0,
            old(self).remaining().len() > 0 ==> (r matches Some(i) && i@ == old(self).remaining()[0]
                && final(self).remaining() == old(self).remaining().drop_first()),
    {
        while self.position < self.queries.len()
            invariant
                self.wf(),
                self.storage == old(self).storage,
                self.queries@ == old(self).queries@,
                self.remaining() == old(self).remaining(),
            decreases self.queries@.len() - self.position,
        {
            let query = &self.queries[self.position];
            let ghost rest = self.queries@.subrange(self.position as int, self.queries@.len() as int);
            assert(rest.drop_first() =~= self.queries@.subrange(self.position + 1, self.queries@.len() as int));
            self.position = self.position + 1;
            match query.query_index(self.storage) {
                Some(i) => {
                    return Some(i);
                },
                None => {},
            }
        }
        None
    }
}

impl<'b, S: Size, V: VectorSymbolicArchitecture, T: Queryable> Selector<S, V> for &'b [T] {
    open spec fn selection(&self, storage: &Storage<S, V>) -> Seq<nat> {
        resolved(self@, *storage)
    }

    fn select(&self, storage: &Storage<S, V>) -> (r: Vec<VectorIndex>) {
        let mut iter = SelectionIter::new(storage, *self);
        let mut out: Vec<VectorIndex> = Vec::new();
        let ghost all = iter.remaining();
        loop
            invariant
                iter.wf(),
                all == resolved(self@, *storage),
                out@.map_values(|i: VectorIndex| i@) + iter.remaining() == all,
            ensures
                out@.map_values(|i: VectorIndex| i@) == all,
            decreases iter.remaining().len(),
        {
            match iter.next() {
                Some(i) => {
                    out.push(i);
                    proof {
                        assert(out@.map_values(|i: VectorIndex| i@) + iter.remaining() =~= all);
                    }
                },
                None => {
                    assert(out@.map_values(|i: VectorIndex| i@) =~= all);
                    break;
                },
            }
        }
        out
    }
}

impl<S: Size, V: VectorSymbolicArchitecture> Selector<S, V> for Column {
    open spec fn selection(&self, storage: &Storage<S, V>) -> Seq<nat> {
        match position_of(storage.spec_columns().names(), self@) {
            Some(p) => match storage.spec_columns().column(p as int).kind {
                ColumnKind::String => Seq::new(storage.count(), |k: int| k as nat),
                ColumnKind::Enum { values, .. } => values@.map_values(|v: VectorIndex| v@),
            },
            None => Seq::empty(),
        }
    }

    fn select(&self, storage: &Storage<S, V>) -> (r: Vec<VectorIndex>) {
        let mut iter = match storage.column_position(self.name()) {
            Some(p) => match &storage.column_at(p).kind {
                ColumnKind::String => ColumnIter::String { next: 0, end: storage.len() },
                ColumnKind::Enum { values, .. } => ColumnIter::Enum { values, position: 0 },
            },
            None => ColumnIter::Invalid,
        };
        let ghost all = iter.remaining();
        proof {
            match iter {
                ColumnIter::String { .. } => {
                    assert(all =~= Seq::new(storage.count(), |k: int| k as nat));
                },
                ColumnIter::Enum { values, .. } => {
                    assert(values@.subrange(0, values@.len() as int) =~= values@);
                },
                ColumnIter::Invalid => {},
            }
        }
        let mut out: Vec<VectorIndex> = Vec::new();
        while iter.len() > 0
            invariant
                all == self.selection(storage),
                out@.map_values(|i: VectorIndex| i@) + iter.remaining() == all,
            decreases iter.remaining().len(),
        {
            let i = iter.next();
            out.push(i.unwrap());
            proof {
                assert(out@.map_values(|i: VectorIndex| i@) + iter.remaining() =~= all);
            }
        }
        assert(out@.map_values(|i: VectorIndex| i@) =~= all);
        out
    }
}

/// Selecting by a column of categories of the table a storage was built from gives
/// one vector per category, in category order: entry `m` of the selection is the
/// vector named like category `m`.
pub proof fn lemma_column_selects_its_categories<S: Size, V: VectorSymbolicArchitecture>(
    storage: Storage<S, V>,
    table: Table,
    k: int,
    column: Column,
)
    requires
        storage.wf(),
        storage.spec_columns().names() == table.column_names(),
        columns_match(storage.spec_columns(), table, storage.names()),
        0 <= k < table.spec_columns().len(),
        table.spec_columns()[k].spec_values() is Categories,
        column@ == table.spec_columns()[k].spec_name(),
    ensures
        ({
            let categories = table.spec_columns()[k].spec_values()->Categories_categories;
            let sel = column.selection(&storage);
            &&& sel.len() == categories@.len()
            &&& forall|m: int|
                0 <= m < sel.len() ==> sel[m] < storage.count() && storage.names()[#[trigger] sel[m] as int]
                    == categories@[m]@
        }),
{
    storage.lemma_wf();
    let names = storage.spec_columns().names();
    assert(names[k] == column@);
    lemma_position_of(names, k);
    let d = storage.spec_columns().column(k);
    assert(columns_match(storage.spec_columns(), table, storage.names()));
    assert(storage.spec_columns().data@[k] == d);
    let categories = table.spec_columns()[k].spec_values()->Categories_categories;
    match d.kind {
        ColumnKind::Enum { categories: cs, values } => {
            let sel = column.selection(&storage);
            assert(sel == values@.map_values(|v: VectorIndex| v@));
            assert forall|m: int| 0 <= m < sel.len() implies sel[m] < storage.count() && storage.names()[
                #[trigger] sel[m] as int] == categories@[m]@ by {
                assert(sel[m] == values@[m]@);
                assert(views_of(categories@)[m] == categories@[m]@);
            }
        },
        ColumnKind::String => {},
    }
}

} // verus!
