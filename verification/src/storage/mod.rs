//! A storage of named vectors: every name gets a random vector of its own, and
//! expressions over the names are evaluated against them.

mod columns;
mod queryable;
mod selector;
mod subset;

use vstd::prelude::*;

use self::columns::{ColumnData, Columns};
use crate::expression::{
    evaluates_to, lemma_evaluation_weaken, lookup_of, sums_fit, Expression, LookupRelation, UnknownValue,
};
use crate::vsa::architectures::VectorSymbolicArchitecture;
use crate::vsa::model::agreement;
use crate::vsa::{Size, Vector};

pub use self::columns::{Column, ColumnIter, ColumnValues, Table, TableColumn};
pub use self::queryable::Queryable;
pub use self::selector::{AllIter, SelectionIter, Selector};
pub use self::subset::{Subset, SubsetError};

verus! {

/// The position of `name` among `names`, if it occurs.
pub open spec fn position_of(names: Seq<Seq<char>>, name: Seq<char>) -> Option<nat> {
    if exists|i: int| 0 <= i < names.len() && names[i] == name {
        Some((choose|i: int| 0 <= i < names.len() && names[i] == name) as nat)
    } else {
        None
    }
}

/// The names after each of `added` is pushed in turn: a name already present stays
/// where it is, a new one goes to the end.
pub open spec fn pushed_names(names: Seq<Seq<char>>, added: Seq<Seq<char>>) -> Seq<Seq<char>>
    decreases added.len(),
{
    if added.len() == 0 {
        names
    } else {
        let before = pushed_names(names, added.drop_last());
        if before.contains(added.last()) {
            before
        } else {
            before.push(added.last())
        }
    }
}

/// Pushing one list of names and then another is pushing both in turn.
pub proof fn lemma_pushed_names_concat(names: Seq<Seq<char>>, a: Seq<Seq<char>>, b: Seq<Seq<char>>)
    ensures
        pushed_names(names, a + b) == pushed_names(pushed_names(names, a), b),
    decreases b.len(),
{
    if b.len() == 0 {
        assert(a + b =~= a);
    } else {
        assert((a + b).drop_last() =~= a + b.drop_last());
        assert((a + b).last() == b.last());
        lemma_pushed_names_concat(names, a, b.drop_last());
    }
}

/// Pushing one name keeps the names where it is known, and appends it otherwise.
pub proof fn lemma_pushed_one(names: Seq<Seq<char>>, name: Seq<char>)
    ensures
        pushed_names(names, seq![name]) == if position_of(names, name) is Some {
            names
        } else {
            names.push(name)
        },
{
    assert(seq![name].drop_last() =~= Seq::<Seq<char>>::empty());
    assert(pushed_names(names, Seq::<Seq<char>>::empty()) == names);
    assert(seq![name].last() == name);
    if names.contains(name) {
        let w = choose|w: int| 0 <= w < names.len() && names[w] == name;
        assert(names[w] == name);
    }
}

/// No name occurs twice.
pub open spec fn distinct(names: Seq<Seq<char>>) -> bool {
    forall|i: int, j: int| 0 <= i < j < names.len() ==> names[i] != names[j]
}

/// Among distinct names, the position of a name is where it stands.
pub proof fn lemma_position_of(names: Seq<Seq<char>>, i: int)
    requires
        distinct(names),
        0 <= i < names.len(),
    ensures
        position_of(names, names[i]) == Some(i as nat),
{
    let j = choose|j: int| 0 <= j < names.len() && names[j] == names[i];
    if j != i {
        if j < i {
            assert(names[j] != names[i]);
        } else {
            assert(names[i] != names[j]);
        }
    }
}

/// The views of a sequence of strings.
pub open spec fn views_of(names: Seq<String>) -> Seq<Seq<char>> {
    names.map_values(|s: String| s@)
}

/// The position of `name` among `names`.
pub(crate) fn find_name(names: &Vec<String>, name: &String) -> (r: Option<usize>)
    requires
        distinct(views_of(names@)),
    ensures
        r matches Some(i) ==> position_of(views_of(names@), name@) == Some(i as nat),
        r is None ==> position_of(views_of(names@), name@) is None,
{
    let mut i: usize = 0;
    while i < names.len()
        invariant
            i <= names@.len(),
            distinct(views_of(names@)),
            forall|k: int| 0 <= k < i ==> views_of(names@)[k] != name@,
        decreases names@.len() - i,
    {
        if names[i] == *name {
            proof {
                lemma_position_of(views_of(names@), i as int);
            }
            return Some(i);
        }
        i = i + 1;
    }
    None
}

/// Every selected index lies below `count`.
pub open spec fn within(selection: Seq<nat>, count: nat) -> bool {
    forall|k: int| 0 <= k < selection.len() ==> #[trigger] selection[k] < count
}

/// Whether `k` is the last position where `d` is greatest.
pub open spec fn is_last_maximum(d: Seq<int>, k: int) -> bool {
    &&& 0 <= k < d.len()
    &&& forall|j: int| 0 <= j < d.len() ==> d[j] <= d[k]
    &&& forall|j: int| k < j < d.len() ==> d[j] < d[k]
}

/// A numerical ID for a vector in the storage.
#[derive(Debug, Clone, Copy, PartialEq, Eq, Structural, Hash)]
pub struct VectorIndex(pub(crate) usize);

impl View for VectorIndex {
    type V = nat;

    closed spec fn view(&self) -> nat {
        self.0 as nat
    }
}

impl VectorIndex {
    /// The index as a number.
    pub fn index(&self) -> (n: usize)
        ensures
            n == self@,
    {
        self.0
    }
}

/// Vectors with their names: vector `i` is named `names[i]`.
#[derive(Debug)]
pub(crate) struct NamedVectors<S: Size, V: VectorSymbolicArchitecture> {
    pub(crate) vectors: Vec<Vector<S, V>>,
    pub(crate) names: Vec<String>,
    pub(crate) vsa: V,
    pub(crate) size: S,
}

impl<S: Size, V: VectorSymbolicArchitecture> NamedVectors<S, V> {
    /// Every vector has a name, no name occurs twice and every vector has the size.
    pub(crate) open spec fn wf(&self) -> bool {
        &&& self.vectors@.len() == self.names@.len()
        &&& V::spec_valid_size(self.size.spec_size())
        &&& distinct(views_of(self.names@))
        &&& forall|i: int|
            0 <= i < self.vectors@.len() ==> (#[trigger] self.vectors@[i]).spec_size()
                == self.size.spec_size()
    }

    /// An empty collection; `None` where the size is invalid for the architecture.
    pub(crate) fn new(vsa: V, size: S) -> (r: Option<Self>)
        ensures
            r is None <==> !V::spec_valid_size(size.spec_size()),
            r matches Some(n) ==> n.wf() && n.vectors@.len() == 0 && n.size == size,
    {
        if !V::valid_size(size) {
            return None;
        }
        Some(NamedVectors { vectors: Vec::new(), names: Vec::new(), vsa, size })
    }

    /// The index of the vector named `name`, created with a random vector where
    /// there is none yet.
    pub(crate) fn get_or_insert(&mut self, name: String) -> (r: VectorIndex)
        requires
            old(self).wf(),
        ensures
            final(self).wf(),
            final(self).size == old(self).size,
            r@ < final(self).vectors@.len(),
            views_of(final(self).names@)[r@ as int] == name@,
            columns::extends(views_of(final(self).names@), views_of(old(self).names@)),
            views_of(final(self).names@) == pushed_names(views_of(old(self).names@), seq![name@]),
            match position_of(views_of(old(self).names@), name@) {
                Some(i) => {
                    &&& r@ == i
                    &&& final(self).vectors@ == old(self).vectors@
                    &&& final(self).names@ == old(self).names@
                },
                None => {
                    &&& r@ == old(self).vectors@.len()
                    &&& final(self).vectors@.drop_last() == old(self).vectors@
                    &&& final(self).vectors@.len() == old(self).vectors@.len() + 1
                    &&& final(self).names@ == old(self).names@.push(name)
                },
            },
    {
        proof {
            lemma_pushed_one(views_of(self.names@), name@);
        }
        match find_name(&self.names, &name) {
            Some(i) => {
                proof {
                    let j = choose|j: int|
                        0 <= j < views_of(self.names@).len() && views_of(self.names@)[j] == name@;
                    columns::lemma_extends_refl(views_of(self.names@));
                }
                VectorIndex(i)
            },
            None => {
                let index = self.vectors.len();
                let v = Vector::random(&self.vsa, self.size);
                let v = v.unwrap();
                let ghost old_names = views_of(self.names@);
                self.vectors.push(v);
                self.names.push(name);
                proof {
                    assert(views_of(self.names@) =~= old_names.push(name@));
                    assert(views_of(self.names@).take(old_names.len() as int) =~= old_names);
                    assert forall|k: int| 0 <= k < old_names.len() implies old_names[k] != name@ by {
                        if old_names[k] == name@ {
                            assert(exists|i: int| 0 <= i < old_names.len() && old_names[i] == name@);
                        }
                    }
                    assert(self.vectors@.drop_last() =~= old(self).vectors@);
                }
                VectorIndex(index)
            },
        }
    }
}

/// A storage of (named) vectors, with the columns of the tables it was built from.
#[derive(Debug)]
pub struct Storage<S: Size, V: VectorSymbolicArchitecture> {
    vectors: NamedVectors<S, V>,
    columns: Columns,
}

impl<S: Size, V: VectorSymbolicArchitecture> Storage<S, V> {
    /// The number of vectors.
    pub closed spec fn count(&self) -> nat {
        self.vectors.vectors@.len()
    }

    /// The names of the vectors, in the order they were added.
    pub closed spec fn names(&self) -> Seq<Seq<char>> {
        views_of(self.vectors.names@)
    }

    /// The vector at index `i`.
    pub closed spec fn vector(&self, i: int) -> Vector<S, V> {
        self.vectors.vectors@[i]
    }

    /// The size of every vector.
    pub closed spec fn spec_size(&self) -> nat {
        self.vectors.size.spec_size()
    }

    /// The index of the vector named `name`, if there is one.
    pub open spec fn index_of(&self, name: Seq<char>) -> Option<nat> {
        position_of(self.names(), name)
    }

    /// The columns.
    pub closed spec fn spec_columns(&self) -> Columns {
        self.columns
    }

    /// Every vector has a name, names are distinct, vectors have the storage's size,
    /// and columns refer to vectors of the storage.
    pub closed spec fn wf(&self) -> bool {
        &&& self.vectors.wf()
        &&& self.columns.wf(self.vectors.vectors@.len())
    }

    /// What a well-formed storage holds.
    pub proof fn lemma_wf(&self)
        requires
            self.wf(),
        ensures
            self.count() == self.names().len(),
            distinct(self.names()),
            V::spec_valid_size(self.spec_size()),
            forall|i: int| 0 <= i < self.count() ==> #[trigger] self.vector(i).spec_size() == self.spec_size(),
            self.spec_columns().wf(self.count()),
    {
    }

    /// Create a new empty vector storage; `None` where the size is invalid for the
    /// architecture.
    pub fn new(vsa: V, size: S) -> (r: Option<Self>)
        ensures
            r is None <==> !V::spec_valid_size(size.spec_size()),
            r matches Some(s) ==> {
                &&& s.wf()
                &&& s.count() == 0
                &&& s.spec_size() == size.spec_size()
                &&& s.spec_columns().names().len() == 0
            },
    {
        match NamedVectors::new(vsa, size) {
            Some(vectors) => Some(Storage { vectors, columns: Columns::empty() }),
            None => None,
        }
    }

    /// Add a new vector with the given name to the storage. If it already exists,
    /// return the existing vector.
    pub fn push(&mut self, name: &str) -> (r: &Vector<S, V>)
        requires
            old(self).wf(),
        ensures
            final(self).wf(),
            final(self).index_of(name@) is Some,
            *r == final(self).vector(final(self).index_of(name@)->0 as int),
            final(self).spec_size() == old(self).spec_size(),
            final(self).spec_columns() == old(self).spec_columns(),
            columns::extends(final(self).names(), old(self).names()),
            forall|k: int| 0 <= k < old(self).count() ==> final(self).vector(k) == old(self).vector(k),
            match old(self).index_of(name@) {
                Some(i) => {
                    &&& final(self).index_of(name@) == Some(i)
                    &&& final(self).names() == old(self).names()
                    &&& final(self).count() == old(self).count()
                },
                None => {
                    &&& final(self).index_of(name@) == Some(old(self).count())
                    &&& final(self).names() == old(self).names().push(name@)
                    &&& final(self).count() == old(self).count() + 1
                },
            },
    {
        let i = self.push_index(name);
        proof {
            self.lemma_wf();
            lemma_position_of(self.names(), i@ as int);
        }
        &self.vectors.vectors[i.0]
    }

    /// Add a new vector with the given name to the storage, or find the one that is
    /// there, and give its index.
    pub(crate) fn push_index(&mut self, name: &str) -> (r: VectorIndex)
        requires
            old(self).wf(),
        ensures
            final(self).wf(),
            r@ < final(self).count(),
            final(self).names()[r@ as int] == name@,
            final(self).spec_size() == old(self).spec_size(),
            final(self).spec_columns() == old(self).spec_columns(),
            columns::extends(final(self).names(), old(self).names()),
            forall|k: int| 0 <= k < old(self).count() ==> final(self).vector(k) == old(self).vector(k),
            match old(self).index_of(name@) {
                Some(i) => {
                    &&& r@ == i
                    &&& final(self).names() == old(self).names()
                    &&& final(self).count() == old(self).count()
                },
                None => {
                    &&& r@ == old(self).count()
                    &&& final(self).names() == old(self).names().push(name@)
                    &&& final(self).count() == old(self).count() + 1
                },
            },
    {
        let name = name.to_owned();
        let r = self.vectors.get_or_insert(name);
        proof {
            self.columns.lemma_wf_grow(old(self).vectors.vectors@.len(), self.vectors.vectors@.len());
            if old(self).index_of(name@) is None {
                assert(views_of(self.vectors.names@) =~= views_of(old(self).vectors.names@).push(name@));
                assert forall|k: int| 0 <= k < old(self).count() implies self.vector(k) == old(self).vector(k) by {
                    assert(self.vectors.vectors@.drop_last()[k] == self.vectors.vectors@[k]);
                }
            }
        }
        r
    }

    /// Add multiple vectors with the given names to the storage.
    pub fn extend(&mut self, names: &[&str])
        requires
            old(self).wf(),
        ensures
            final(self).wf(),
            final(self).spec_size() == old(self).spec_size(),
            final(self).spec_columns() == old(self).spec_columns(),
            columns::extends(final(self).names(), old(self).names()),
            forall|k: int| 0 <= k < old(self).count() ==> final(self).vector(k) == old(self).vector(k),
            final(self).names() == pushed_names(old(self).names(), names@.map_values(|s: &str| s@)),
            forall|k: int| 0 <= k < names@.len() ==> final(self).names().contains(names@[k]@),
            forall|j: int|
                0 <= j < final(self).count() ==> old(self).names().contains(final(self).names()[j])
                    || exists|k: int| 0 <= k < names@.len() && names@[k]@ == final(self).names()[j],
    {
        let ghost added = names@.map_values(|s: &str| s@);
        proof {
            columns::lemma_extends_refl(self.names());
        }
        let mut i: usize = 0;
        while i < names.len()
            invariant
                self.wf(),
                old(self).wf(),
                i <= names@.len(),
                self.spec_size() == old(self).spec_size(),
                self.spec_columns() == old(self).spec_columns(),
                columns::extends(self.names(), old(self).names()),
                forall|k: int| 0 <= k < old(self).count() ==> self.vector(k) == old(self).vector(k),
                added == names@.map_values(|s: &str| s@),
                self.names() == pushed_names(old(self).names(), added.take(i as int)),
                forall|k: int| 0 <= k < i ==> self.names().contains(names@[k]@),
                forall|j: int|
                    0 <= j < self.count() ==> old(self).names().contains(self.names()[j]) || exists|
                        k: int,
                    | 0 <= k < i && names@[k]@ == self.names()[j],
            decreases names@.len() - i,
        {
            let ghost before = *self;
            let r = self.push_index(names[i]);
            proof {
                before.lemma_wf();
                self.lemma_wf();
                old(self).lemma_wf();
                columns::lemma_extends_trans(self.names(), before.names(), old(self).names());
                assert(added.take(i + 1).drop_last() =~= added.take(i as int));
                assert(added.take(i + 1).last() == names@[i as int]@);
                match before.index_of(names@[i as int]@) {
                    Some(w) => {
                        assert(before.names()[w as int] == names@[i as int]@);
                        assert(before.names().contains(names@[i as int]@));
                    },
                    None => {
                        if before.names().contains(names@[i as int]@) {
                            let w = choose|w: int| 0 <= w < before.names().len() && before.names()[w] == names@[i as int]@;
                            assert(before.names()[w] == names@[i as int]@);
                        }
                    },
                }
                assert forall|k: int| 0 <= k < old(self).count() implies self.vector(k) == old(self).vector(k) by {
                    assert(self.vector(k) == before.vector(k));
                }
                assert forall|k: int| 0 <= k < i + 1 implies self.names().contains(names@[k]@) by {
                    if k < i {
                        let w = choose|w: int| 0 <= w < before.names().len() && before.names()[w] == names@[k]@;
                        assert(self.names()[w] == self.names().take(before.names().len() as int)[w]);
                    } else {
                        assert(self.names()[r@ as int] == names@[k]@);
                    }
                }
                assert forall|j: int| 0 <= j < self.count() implies old(self).names().contains(self.names()[j])
                    || exists|k: int| 0 <= k < i + 1 && names@[k]@ == self.names()[j] by {
                    if j < before.count() {
                        assert(self.names()[j] == self.names().take(before.names().len() as int)[j]);
                    } else {
                        assert(self.names()[j] == names@[i as int]@);
                    }
                }
            }
            i = i + 1;
        }
        proof {
            assert(added.take(names@.len() as int) =~= added);
        }
    }

    /// The size of the vectors.
    pub fn size(&self) -> (s: S)
        ensures
            s.spec_size() == self.spec_size(),
    {
        self.vectors.size
    }

    /// The number of vectors.
    pub fn len(&self) -> (n: usize)
        ensures
            n == self.count(),
    {
        self.vectors.vectors.len()
    }

    /// The vector at an index, if there is one.
    pub fn get_by_index(&self, index: VectorIndex) -> (r: Option<&Vector<S, V>>)
        ensures
            index@ < self.count() ==> r == Some(&self.vector(index@ as int)),
            index@ >= self.count() ==> r is None,
    {
        if index.0 < self.vectors.vectors.len() {
            Some(&self.vectors.vectors[index.0])
        } else {
            None
        }
    }

    /// The index of the vector named `name`, if there is one.
    pub fn index_by_name(&self, name: &str) -> (r: Option<VectorIndex>)
        requires
            self.wf(),
        ensures
            r matches Some(i) ==> self.index_of(name@) == Some(i@),
            r is None ==> self.index_of(name@) is None,
    {
        let key = name.to_owned();
        match find_name(&self.vectors.names, &key) {
            Some(i) => Some(VectorIndex(i)),
            None => None,
        }
    }

    /// The position of the column named `name`, if there is one.
    pub(crate) fn column_position(&self, name: &String) -> (r: Option<usize>)
        requires
            self.wf(),
        ensures
            r matches Some(p) ==> position_of(self.spec_columns().names(), name@) == Some(p as nat)
                && p < self.spec_columns().data@.len(),
            r is None ==> position_of(self.spec_columns().names(), name@) is None,
    {
        self.columns.find(name)
    }

    /// What is known of the column at position `p`.
    pub(crate) fn column_at(&self, p: usize) -> (r: &ColumnData)
        requires
            self.wf(),
            p < self.spec_columns().data@.len(),
        ensures
            *r == self.spec_columns().column(p as int),
            r.wf(self.count()),
    {
        &self.columns.data[p]
    }

    /// Retrieve a vector by a query.
    pub fn get<Q: Queryable>(&self, query: &Q) -> (r: Option<&Vector<S, V>>)
        requires
            self.wf(),
        ensures
            match query.target(self.names(), self.spec_columns()) {
                Some(i) => if i < self.count() {
                    r == Some(&self.vector(i as int))
                } else {
                    r is None
                },
                None => r is None,
            },
    {
        query.query(self)
    }

    /// Query all known values in the storage, in the order they were added. This
    /// includes the columns themselves.
    pub fn values(&self) -> (r: Vec<Value>)
        requires
            self.wf(),
        ensures
            r@.len() == self.count(),
            forall|k: int| 0 <= k < r@.len() ==> r@[k]@ == self.names()[k],
    {
        let mut out: Vec<Value> = Vec::new();
        let mut i: usize = 0;
        while i < self.vectors.names.len()
            invariant
                i <= self.vectors.names@.len(),
                out@.len() == i,
                forall|k: int| 0 <= k < i ==> out@[k]@ == views_of(self.vectors.names@)[k],
            decreases self.vectors.names@.len() - i,
        {
            out.push(Value(self.vectors.names[i].clone()));
            i = i + 1;
        }
        out
    }

    /// Query all known columns in the storage.
    pub fn columns(&self) -> (r: Vec<Column>)
        requires
            self.wf(),
        ensures
            r@.len() == self.spec_columns().names().len(),
            forall|k: int| 0 <= k < r@.len() ==> r@[k]@ == self.spec_columns().names()[k],
    {
        let mut out: Vec<Column> = Vec::new();
        let mut i: usize = 0;
        while i < self.columns.names.len()
            invariant
                i <= self.columns.names@.len(),
                out@.len() == i,
                forall|k: int| 0 <= k < i ==> out@[k]@ == views_of(self.columns.names@)[k],
            decreases self.columns.names@.len() - i,
        {
            out.push(Column::from_str(self.columns.names[i].as_str()));
            i = i + 1;
        }
        out
    }

    /// Create a new vector storage from a table: every column, every value of a
    /// column of strings and every category of a column of categories gets a vector.
    pub fn from_dataframe(vsa: V, size: S, table: &Table) -> (r: Result<Self, StorageError>)
        ensures
            r matches Err(StorageError::InvalidSize) <==> !V::spec_valid_size(size.spec_size()),
            match r {
                Ok(s) => {
                    &&& s.wf()
                    &&& s.spec_size() == size.spec_size()
                    &&& s.names() == pushed_names(Seq::empty(), columns::columns_added(table.spec_columns()))
                    &&& s.spec_columns().names() == table.column_names()
                    &&& columns::columns_match(s.spec_columns(), *table, s.names())
                },
                Err(StorageError::InvalidSize) => true,
                Err(e) => exists|k: int|
                    columns::first_other(*table, k) && e == (StorageError::InvalidDataType {
                        column: table.spec_columns()[k].spec_name_string(),
                        dtype: table.spec_columns()[k].spec_values()->Other_dtype,
                    }),
            },
    {
        let mut vectors = match NamedVectors::new(vsa, size) {
            Some(v) => v,
            None => {
                return Err(StorageError::InvalidSize);
            },
        };
        proof {
            assert(views_of(vectors.names@) =~= Seq::<Seq<char>>::empty());
        }
        let columns = columns::from_columns(&mut vectors, table)?;
        Ok(Storage { vectors, columns })
    }

    /// The vectors selected by a selector, in order.
    pub fn get_multiple<'a, I: Selector<S, V>>(&'a self, selector: &I) -> (r: Vec<&'a Vector<S, V>>)
        requires
            self.wf(),
            within(selector.selection(self), self.count()),
        ensures
            r@.len() == selector.selection(self).len(),
            forall|k: int|
                0 <= k < r@.len() ==> *r@[k] == self.vector(selector.selection(self)[k] as int),
    {
        let indices = selector.select(self);
        let ghost sel = selector.selection(self);
        let mut out: Vec<&'a Vector<S, V>> = Vec::new();
        let mut k: usize = 0;
        while k < indices.len()
            invariant
                indices@.map_values(|i: VectorIndex| i@) == sel,
                within(sel, self.count()),
                k <= indices@.len(),
                out@.len() == k,
                forall|m: int| 0 <= m < k ==> *out@[m] == self.vector(sel[m] as int),
            decreases indices@.len() - k,
        {
            assert(indices@[k as int]@ == sel[k as int]);
            out.push(&self.vectors.vectors[indices[k].0]);
            k = k + 1;
        }
        out
    }

    /// The dot products of a vector with the vectors selected by a selector, in
    /// order; their cosine similarities are these divided by the size.
    pub fn dots<I: Selector<S, V>>(&self, vector: &Vector<S, V>, selector: &I) -> (r: Vec<
        (VectorIndex, i64),
    >)
        requires
            self.wf(),
            within(selector.selection(self), self.count()),
            vector.spec_size() == self.spec_size(),
        ensures
            r@.len() == selector.selection(self).len(),
            forall|k: int|
                0 <= k < r@.len() ==> r@[k].0@ == selector.selection(self)[k] && r@[k].1 == agreement(
                    vector.values(),
                    self.vector(selector.selection(self)[k] as int).values(),
                ),
    {
        let indices = selector.select(self);
        let ghost sel = selector.selection(self);
        let mut out: Vec<(VectorIndex, i64)> = Vec::new();
        let mut k: usize = 0;
        while k < indices.len()
            invariant
                self.wf(),
                vector.spec_size() == self.spec_size(),
                indices@.map_values(|i: VectorIndex| i@) == sel,
                within(sel, self.count()),
                k <= indices@.len(),
                out@.len() == k,
                forall|m: int|
                    0 <= m < k ==> out@[m].0@ == sel[m] && out@[m].1 == agreement(
                        vector.values(),
                        self.vector(sel[m] as int).values(),
                    ),
            decreases indices@.len() - k,
        {
            assert(indices@[k as int]@ == sel[k as int]);
            let index = indices[k];
            let other = &self.vectors.vectors[index.0];
            let d = vector.dot(other);
            out.push((index, d));
            k = k + 1;
        }
        out
    }

    /// The dot products of `vector` with the vectors at the indices of `selection`.
    pub open spec fn dot_profile(&self, vector: &Vector<S, V>, selection: Seq<nat>) -> Seq<int> {
        Seq::new(
            selection.len(),
            |m: int| agreement(vector.values(), self.vector(selection[m] as int).values()),
        )
    }

    /// Find the most similar vector to a given vector among those selected by a
    /// selector: the last of the selected vectors with the greatest dot product,
    /// and so the greatest cosine similarity.
    pub fn find<I: Selector<S, V>>(&self, vector: &Vector<S, V>, selector: &I) -> (r: Option<VectorIndex>)
        requires
            self.wf(),
            within(selector.selection(self), self.count()),
            vector.spec_size() == self.spec_size(),
            self.spec_size() > 0 || selector.selection(self).len() <= 1,
        ensures
            r is None <==> selector.selection(self).len() == 0,
            r matches Some(i) ==> exists|k: int|
                is_last_maximum(self.dot_profile(vector, selector.selection(self)), k) && i@
                    == selector.selection(self)[k],
    {
        let dots = self.dots(vector, selector);
        let ghost sel = selector.selection(self);
        let ghost d = self.dot_profile(vector, sel);
        if dots.len() == 0 {
            return None;
        }
        let mut best: usize = 0;
        let mut k: usize = 1;
        while k < dots.len()
            invariant
                dots@.len() == d.len(),
                forall|m: int| 0 <= m < dots@.len() ==> dots@[m].1 == d[m],
                1 <= k <= dots@.len(),
                best < k,
                forall|j: int| 0 <= j < k ==> d[j] <= d[best as int],
                forall|j: int| best < j < k ==> d[j] < d[best as int],
            decreases dots@.len() - k,
        {
            if dots[k].1 >= dots[best].1 {
                best = k;
            }
            k = k + 1;
        }
        assert(is_last_maximum(d, best as int));
        assert(dots@[best as int].0@ == sel[best as int]);
        Some(dots[best].0)
    }

    /// Create a subset of the storage corresponding to a table.
    pub fn subset<'a>(&'a self, table: &Table) -> (r: Result<Subset<'a, S, V>, SubsetError>)
        requires
            self.wf(),
        ensures
            Subset::is_subset_of(*self, *table, r),
    {
        Subset::new(self, table)
    }

    /// What a lookup of a name in the storage answers: a vector with the elements of
    /// the vector of that name, or nothing where there is none.
    pub open spec fn lookup(&self) -> LookupRelation<Vector<S, V>> {
        |name: Seq<char>, o: Option<Vector<S, V>>| match self.index_of(name) {
            Some(i) => o matches Some(v) && v.values() == self.vector(i as int).values()
                && v.spec_size() == self.spec_size(),
            None => o is None,
        }
    }

    /// A copy of the vector named `name`, if there is one.
    fn lookup_copy(&self, name: &str) -> (r: Option<Vector<S, V>>)
        requires
            self.wf(),
        ensures
            (self.lookup())(name@, r),
    {
        match self.index_by_name(name) {
            Some(i) => Some(self.vectors.vectors[i.0].clone()),
            None => None,
        }
    }

    /// Execute an expression on the storage, returning the resulting vector: names
    /// stand for their vectors, sums are normalized bundles and products bindings.
    pub fn execute(&self, expression: &Expression) -> (r: Result<Vector<S, V>, UnknownValue>)
        requires
            self.wf(),
            sums_fit(expression@),
        ensures
            match r {
                Ok(v) => evaluates_to(expression@, self.lookup(), Ok(v)) && v.spec_size()
                    == self.spec_size(),
                Err(u) => evaluates_to(expression@, self.lookup(), Err(u@)),
            },
    {
        let lookup = |name: &str| -> (o: Option<Vector<S, V>>)
            requires
                self.wf(),
            ensures
                (self.lookup())(name@, o),
            { self.lookup_copy(name) };
        proof {
            assert forall|s1: &str, s2: &str, v1: Vector<S, V>, v2: Vector<S, V>|
                call_ensures(lookup, (s1,), Some(v1)) && call_ensures(lookup, (s2,), Some(v2))
                    implies v1.spec_size() == v2.spec_size() by {}
        }
        let r = expression.evaluate(lookup);
        proof {
            assert forall|name: Seq<char>, o: Option<Vector<S, V>>| #[trigger]
                lookup_of(lookup)(name, o) implies (self.lookup())(name, o) by {
                let s = choose|s: &str| s@ == name && call_ensures(lookup, (s,), o);
            }
            if r is Ok {
                let v = r->Ok_0;
                let t = choose|t| crate::expression::is_evaluation(expression@, lookup_of(lookup), t)
                    && crate::expression::outcome(expression@, t) == Ok::<Vector<S, V>, Seq<char>>(v);
                lemma_evaluation_weaken(expression@, lookup_of(lookup), self.lookup(), t);
            } else {
                let u = r->Err_0;
                let t = choose|t| crate::expression::is_evaluation(expression@, lookup_of(lookup), t)
                    && crate::expression::outcome(expression@, t) == Err::<Vector<S, V>, Seq<char>>(u@);
                lemma_evaluation_weaken(expression@, lookup_of(lookup), self.lookup(), t);
            }
        }
        r
    }
}

/// A query for a vector by its name.
#[derive(Debug, Clone, Hash)]
pub struct Value(pub(crate) String);

impl View for Value {
    type V = Seq<char>;

    closed spec fn view(&self) -> Seq<char> {
        self.0@
    }
}

impl Value {
    /// Create a value query from a string.
    pub fn from_str(name: &str) -> (r: Self)
        ensures
            r@ == name@,
    {
        Value(name.to_owned())
    }

    /// The name.
    pub fn as_str(&self) -> (s: &str)
        ensures
            s@ == self@,
    {
        self.0.as_str()
    }

    /// The name as a string.
    pub fn to_string(&self) -> (s: String)
        ensures
            s@ == self@,
    {
        self.0.clone()
    }

    /// The name.
    pub(crate) fn name(&self) -> (s: &String)
        ensures
            s@ == self@,
    {
        &self.0
    }
}

impl PartialEq for Value {
    fn eq(&self, other: &Self) -> (r: bool) {
        self.0 == other.0
    }
}

impl vstd::std_specs::cmp::PartialEqSpecImpl for Value {
    open spec fn obeys_eq_spec() -> bool {
        true
    }

    open spec fn eq_spec(&self, other: &Self) -> bool {
        self@ == other@
    }
}

impl Eq for Value {

}

impl From<String> for Value {
    fn from(value: String) -> (r: Self) {
        Value(value)
    }
}

impl<'s> From<&'s str> for Value {
    fn from(value: &'s str) -> (r: Self) {
        Value(value.to_owned())
    }
}

impl<'s> vstd::std_specs::convert::FromSpecImpl<&'s str> for Value {
    open spec fn obeys_from_spec() -> bool {
        false
    }

    closed spec fn from_spec(v: &'s str) -> Self {
        arbitrary()
    }
}

impl vstd::std_specs::convert::FromSpecImpl<String> for Value {
    open spec fn obeys_from_spec() -> bool {
        false
    }

    closed spec fn from_spec(v: String) -> Self {
        Value(v)
    }
}

/// An error related to vector storage construction or querying.
#[derive(Debug, Clone, PartialEq, Eq)]
pub enum StorageError {
    /// A column of the table holds values of a type that cannot be stored.
    InvalidDataType {
        /// The name of the column with the invalid data type.
        column: String,
        /// The invalid data type encountered.
        dtype: String,
    },
    /// The size of the vectors is invalid for the architecture.
    InvalidSize,
}

} // verus!
