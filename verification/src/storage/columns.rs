//! Tables, and the columns a storage keeps of them: which vector stands for a
//! column, and for an enumeration column which vector stands for each category.

use vstd::prelude::*;

use super::{distinct, find_name, lemma_pushed_names_concat, position_of, pushed_names, views_of, NamedVectors, StorageError, VectorIndex};
use crate::vsa::architectures::VectorSymbolicArchitecture;
use crate::vsa::Size;

verus! {

/// The values of a table column.
#[derive(Debug, Clone)]
pub enum ColumnValues {
    /// Strings; `None` for a missing value.
    Strings(Vec<Option<String>>),
    /// Values of a fixed list of categories, each given by its position in the list;
    /// `None` for a missing value.
    Categories {
        /// The categories, none twice.
        categories: Vec<String>,
        /// The position of each row's category.
        codes: Vec<Option<usize>>,
    },
    /// Values of any other data type, which a storage cannot hold.
    Other {
        /// The name of the data type.
        dtype: String,
        /// The number of rows.
        height: usize,
    },
}

impl ColumnValues {
    /// The number of rows.
    pub open spec fn spec_height(&self) -> nat {
        match self {
            ColumnValues::Strings(v) => v@.len(),
            ColumnValues::Categories { codes, .. } => codes@.len(),
            ColumnValues::Other { height, .. } => *height as nat,
        }
    }

    /// Categories are distinct and every code names one of them.
    pub open spec fn wf(&self) -> bool {
        match self {
            ColumnValues::Categories { categories, codes } => categories_wf(categories@, codes@),
            _ => true,
        }
    }

    /// The number of rows.
    pub fn height(&self) -> (n: usize)
        ensures
            n == self.spec_height(),
    {
        match self {
            ColumnValues::Strings(v) => v.len(),
            ColumnValues::Categories { codes, .. } => codes.len(),
            ColumnValues::Other { height, .. } => *height,
        }
    }
}

/// A column of a table: a name and its values.
#[derive(Debug, Clone)]
pub struct TableColumn {
    pub(crate) name: String,
    pub(crate) values: ColumnValues,
}

impl TableColumn {
    /// The name of the column.
    pub closed spec fn spec_name(&self) -> Seq<char> {
        self.name@
    }

    /// The name of the column.
    pub closed spec fn spec_name_string(&self) -> String {
        self.name
    }

    /// The values of the column.
    pub closed spec fn spec_values(&self) -> ColumnValues {
        self.values
    }

    /// The name.
    pub(crate) fn name_ref(&self) -> (r: &String)
        ensures
            *r == self.spec_name_string(),
            r@ == self.spec_name(),
    {
        &self.name
    }

    /// The values.
    pub(crate) fn values_ref(&self) -> (r: &ColumnValues)
        ensures
            *r == self.spec_values(),
    {
        &self.values
    }

    /// A column of strings.
    pub fn strings(name: &str, values: Vec<Option<String>>) -> (r: Self)
        ensures
            r.spec_name() == name@,
            r.spec_values() == ColumnValues::Strings(values),
    {
        TableColumn { name: name.to_owned(), values: ColumnValues::Strings(values) }
    }

    /// A column of categories; `None` where a category occurs twice or a code is
    /// not the position of a category.
    pub fn categories(name: &str, categories: Vec<String>, codes: Vec<Option<usize>>) -> (r: Option<
        Self,
    >)
        ensures
            r matches Some(c) ==> c.spec_name() == name@ && c.spec_values()
                == (ColumnValues::Categories { categories, codes }),
            r is Some <==> (ColumnValues::Categories { categories, codes }).wf(),
    {
        let values = ColumnValues::Categories { categories, codes };
        if values.is_consistent() {
            Some(TableColumn { name: name.to_owned(), values })
        } else {
            None
        }
    }

    /// A column of another data type.
    pub fn other(name: &str, dtype: &str, height: usize) -> (r: Self)
        ensures
            r.spec_name() == name@,
            r.spec_values() matches ColumnValues::Other { dtype: d, height: h } && d@ == dtype@ && h
                == height,
    {
        TableColumn {
            name: name.to_owned(),
            values: ColumnValues::Other { dtype: dtype.to_owned(), height },
        }
    }
}

/// The names of columns.
pub open spec fn names_of(columns: Seq<TableColumn>) -> Seq<Seq<char>> {
    columns.map_values(|c: TableColumn| c.spec_name())
}

/// No column name occurs twice, every column has the height, and every column is
/// consistent.
pub open spec fn columns_wf(columns: Seq<TableColumn>, height: nat) -> bool {
    &&& distinct(names_of(columns))
    &&& forall|k: int|
        0 <= k < columns.len() ==> (#[trigger] columns[k]).spec_values().spec_height() == height
            && columns[k].spec_values().wf()
}

/// A table: named columns of equal height.
#[derive(Debug)]
pub struct Table {
    pub(crate) columns: Vec<TableColumn>,
    pub(crate) height: usize,
}

impl Table {
    /// Every table is well formed.
    #[verifier::type_invariant]
    closed spec fn table_inv(self) -> bool {
        columns_wf(self.columns@, self.height as nat)
    }

    /// The columns.
    pub closed spec fn spec_columns(&self) -> Seq<TableColumn> {
        self.columns@
    }

    /// The number of rows.
    pub closed spec fn spec_height(&self) -> nat {
        self.height as nat
    }

    /// The names of the columns.
    pub open spec fn column_names(&self) -> Seq<Seq<char>> {
        names_of(self.spec_columns())
    }

    /// No column name occurs twice, every column has the height, and every column is
    /// consistent.
    pub open spec fn wf(&self) -> bool {
        columns_wf(self.spec_columns(), self.spec_height())
    }

    /// A table of `height` rows; `None` where a column has another height, a column
    /// name occurs twice or a column is inconsistent.
    pub fn new(height: usize, columns: Vec<TableColumn>) -> (r: Option<Self>)
        ensures
            r matches Some(t) ==> t.spec_columns() == columns@ && t.spec_height() == height,
            r is Some <==> columns_wf(columns@, height as nat),
    {
        let mut i: usize = 0;
        while i < columns.len()
            invariant
                i <= columns@.len(),
                forall|k: int|
                    0 <= k < i ==> (#[trigger] columns@[k]).spec_values().spec_height() == height
                        && columns@[k].spec_values().wf(),
                forall|a: int, b: int|
                    0 <= a < b < columns@.len() && a < i ==> names_of(columns@)[a] != names_of(
                        columns@,
                    )[b],
            decreases columns@.len() - i,
        {
            if columns[i].values.height() != height {
                assert(columns@[i as int].spec_values().spec_height() != height);
                return None;
            }
            if !columns[i].values.is_consistent() {
                assert(!columns@[i as int].spec_values().wf());
                return None;
            }
            let mut j: usize = i + 1;
            while j < columns.len()
                invariant
                    i < columns@.len(),
                    i + 1 <= j <= columns@.len(),
                    forall|b: int| i < b < j ==> names_of(columns@)[i as int] != names_of(columns@)[b],
                decreases columns@.len() - j,
            {
                if columns[i].name == columns[j].name {
                    assert(names_of(columns@)[i as int] == names_of(columns@)[j as int]);
                    return None;
                }
                j = j + 1;
            }
            i = i + 1;
        }
        Some(Table { columns, height })
    }

    /// The number of rows.
    pub fn height(&self) -> (n: usize)
        ensures
            n == self.spec_height(),
    {
        self.height
    }

    /// Every table is well formed.
    pub(crate) fn assert_wf(&self)
        ensures
            self.wf(),
    {
        proof {
            use_type_invariant(self);
        }
    }

    /// The column at position `k`.
    pub(crate) fn column_ref(&self, k: usize) -> (r: &TableColumn)
        requires
            k < self.spec_columns().len(),
        ensures
            *r == self.spec_columns()[k as int],
    {
        &self.columns[k]
    }

    /// The number of columns.
    pub fn width(&self) -> (n: usize)
        ensures
            n == self.spec_columns().len(),
    {
        self.columns.len()
    }
}

/// Whether the categories are distinct and every code names one of them.
pub open spec fn categories_wf(categories: Seq<String>, codes: Seq<Option<usize>>) -> bool {
    &&& distinct(views_of(categories))
    &&& forall|k: int|
        0 <= k < codes.len() ==> (#[trigger] codes[k] matches Some(c) ==> c < categories.len())
}

/// Whether the categories are distinct and every code names one of them.
fn check_categories(categories: &Vec<String>, codes: &Vec<Option<usize>>) -> (b: bool)
    ensures
        b == categories_wf(categories@, codes@),
{
    let mut i: usize = 0;
    while i < categories.len()
        invariant
            i <= categories@.len(),
            forall|a: int, b: int|
                0 <= a < b < categories@.len() && a < i ==> views_of(categories@)[a] != views_of(
                    categories@,
                )[b],
        decreases categories@.len() - i,
    {
        let mut j: usize = i + 1;
        while j < categories.len()
            invariant
                i < categories@.len(),
                i + 1 <= j <= categories@.len(),
                forall|b: int| i < b < j ==> views_of(categories@)[i as int] != views_of(categories@)[b],
            decreases categories@.len() - j,
        {
            if categories[i] == categories[j] {
                assert(views_of(categories@)[i as int] == views_of(categories@)[j as int]);
                return false;
            }
            j = j + 1;
        }
        i = i + 1;
    }
    let mut k: usize = 0;
    while k < codes.len()
        invariant
            k <= codes@.len(),
            distinct(views_of(categories@)),
            forall|m: int| 0 <= m < k ==> (#[trigger] codes@[m] matches Some(c) ==> c < categories@.len()),
        decreases codes@.len() - k,
    {
        match codes[k] {
            Some(c) => {
                if c >= categories.len() {
                    assert(codes@[k as int] == Some(c));
                    return false;
                }
            },
            None => {},
        }
        k = k + 1;
    }
    true
}

impl ColumnValues {
    /// Whether categories are distinct and every code names one of them.
    pub fn is_consistent(&self) -> (b: bool)
        ensures
            b == self.wf(),
    {
        match self {
            ColumnValues::Categories { categories, codes } => check_categories(categories, codes),
            _ => true,
        }
    }
}

/// How a storage knows a column.
#[derive(Debug)]
pub enum ColumnKind {
    /// A column of strings: any stored value can stand in it.
    String,
    /// A column of categories: the vector of each category, in order.
    Enum {
        /// The categories.
        categories: Vec<String>,
        /// The index of each category's vector.
        values: Vec<VectorIndex>,
    },
}

/// A column known to a storage: the index of its own vector and its kind.
#[derive(Debug)]
pub struct ColumnData {
    /// The index of the column's vector.
    pub vector: VectorIndex,
    /// The kind of column.
    pub kind: ColumnKind,
}

impl ColumnData {
    /// What refers to vectors below a count refers to vectors below any greater count.
    pub(crate) proof fn lemma_wf_grow(&self, count: nat, more: nat)
        requires
            self.wf(count),
            count <= more,
        ensures
            self.wf(more),
    {
        match self.kind {
            ColumnKind::String => {},
            ColumnKind::Enum { categories, values } => {
                assert forall|m: int| 0 <= m < values@.len() implies (#[trigger] values@[m])@ < more by {
                    assert(values@[m]@ < count);
                }
            },
        }
    }

    /// Refers to vectors below `count` only, with one vector for each category.
    pub open spec fn wf(&self, count: nat) -> bool {
        &&& self.vector@ < count
        &&& match self.kind {
            ColumnKind::String => true,
            ColumnKind::Enum { categories, values } => {
                &&& categories@.len() == values@.len()
                &&& distinct(views_of(categories@))
                &&& forall|k: int| 0 <= k < values@.len() ==> (#[trigger] values@[k])@ < count
            },
        }
    }
}

/// The columns a storage knows, by name.
#[derive(Debug)]
pub struct Columns {
    /// The names of the columns.
    pub names: Vec<String>,
    /// What is known of each column.
    pub data: Vec<ColumnData>,
}

impl Columns {
    /// The names of the columns.
    pub open spec fn names(&self) -> Seq<Seq<char>> {
        views_of(self.names@)
    }

    /// What is known of the column at position `k`.
    pub open spec fn column(&self, k: int) -> ColumnData {
        self.data@[k]
    }

    /// Names are distinct and columns refer to vectors below `count` only.
    pub open spec fn wf(&self, count: nat) -> bool {
        &&& self.names@.len() == self.data@.len()
        &&& distinct(self.names())
        &&& forall|k: int| 0 <= k < self.data@.len() ==> (#[trigger] self.data@[k]).wf(count)
    }

    /// No columns.
    pub(crate) fn empty() -> (r: Self)
        ensures
            r.names().len() == 0,
            forall|count: nat| r.wf(count),
    {
        Columns { names: Vec::new(), data: Vec::new() }
    }

    /// Columns that refer to vectors below a count refer to vectors below any
    /// greater count.
    pub(crate) proof fn lemma_wf_grow(&self, count: nat, more: nat)
        requires
            self.wf(count),
            count <= more,
        ensures
            self.wf(more),
    {
        assert forall|k: int| 0 <= k < self.data@.len() implies (#[trigger] self.data@[k]).wf(more) by {
            self.data@[k].lemma_wf_grow(count, more);
        }
    }

    /// The position of the column named `name`.
    pub(crate) fn find(&self, name: &String) -> (r: Option<usize>)
        requires
            distinct(self.names()),
        ensures
            r matches Some(i) ==> position_of(self.names(), name@) == Some(i as nat) && i < self.names@.len(),
            r is None ==> position_of(self.names(), name@) is None,
    {
        find_name(&self.names, name)
    }
}

/// A column name query.
#[derive(Debug, Clone, Hash)]
pub struct Column(pub(crate) String);

impl View for Column {
    type V = Seq<char>;

    closed spec fn view(&self) -> Seq<char> {
        self.0@
    }
}

impl Column {
    /// Create a column query from a string.
    pub fn from_str(name: &str) -> (r: Self)
        ensures
            r@ == name@,
    {
        Column(name.to_owned())
    }

    /// The name as a string.
    pub fn to_string(&self) -> (s: String)
        ensures
            s@ == self@,
    {
        self.0.clone()
    }

    /// The name.
    pub(crate) fn name(&self) -> (s: &String)
        ensures
            s@ == self@,
    {
        &self.0
    }
}

impl PartialEq for Column {
    fn eq(&self, other: &Self) -> (r: bool) {
        self.0 == other.0
    }
}

impl vstd::std_specs::cmp::PartialEqSpecImpl for Column {
    open spec fn obeys_eq_spec() -> bool {
        true
    }

    open spec fn eq_spec(&self, other: &Self) -> bool {
        self@ == other@
    }
}

impl Eq for Column {

}

impl From<String> for Column {
    fn from(value: String) -> (r: Self) {
        Column(value)
    }
}

impl vstd::std_specs::convert::FromSpecImpl<String> for Column {
    open spec fn obeys_from_spec() -> bool {
        false
    }

    closed spec fn from_spec(v: String) -> Self {
        Column(v)
    }
}

/// An iterator over the vectors of a column: every vector for a column of strings,
/// the categories' vectors for a column of categories, none for an unknown column.
#[derive(Debug)]
pub enum ColumnIter<'a> {
    /// An unknown column.
    Invalid,
    /// A column of strings: the indices from `next` up to `end`.
    String {
        /// The next index.
        next: usize,
        /// The end of the range.
        end: usize,
    },
    /// A column of categories: the indices of `values` from `position` on.
    Enum {
        /// The indices of the categories' vectors.
        values: &'a Vec<VectorIndex>,
        /// The next position.
        position: usize,
    },
}

impl<'a> ColumnIter<'a> {
    /// The indices this iterator yields from now on.
    pub open spec fn remaining(&self) -> Seq<nat> {
        match self {
            ColumnIter::Invalid => Seq::empty(),
            ColumnIter::String { next, end } => Seq::new(
                if *next <= *end {
                    (*end - *next) as nat
                } else {
                    0
                },
                |k: int| (*next + k) as nat,
            ),
            ColumnIter::Enum { values, position } => if *position <= values@.len() {
                values@.subrange(*position as int, values@.len() as int).map_values(
                    |v: VectorIndex| v@,
                )
            } else {
                Seq::empty()
            },
        }
    }

    /// The next index.
    pub fn next(&mut self) -> (r: Option<VectorIndex>)
        ensures
            old(self).remaining().len() == 0 ==> r is None && final(self).remaining().len() == 0,
            old(self).remaining().len() > 0 ==> (r matches Some(i) && i@ == old(self).remaining()[0]
                && final(self).remaining() == old(self).remaining().drop_first()),
    {
        match self {
            ColumnIter::Invalid => None,
            ColumnIter::String { next, end } => {
                if *next < *end {
                    let i = *next;
                    *next = i + 1;
                    proof {
                        assert(final(self).remaining() =~= old(self).remaining().drop_first());
                    }
                    Some(VectorIndex(i))
                } else {
                    None
                }
            },
            ColumnIter::Enum { values, position } => {
                if *position < values.len() {
                    let v = values[*position];
                    *position = *position + 1;
                    proof {
                        assert(final(self).remaining() =~= old(self).remaining().drop_first());
                    }
                    Some(v)
                } else {
                    None
                }
            },
        }
    }

    /// The number of indices left.
    pub fn len(&self) -> (n: usize)
        ensures
            n == self.remaining().len(),
    {
        match self {
            ColumnIter::Invalid => 0,
            ColumnIter::String { next, end } => if *next <= *end {
                *end - *next
            } else {
                0
            },
            ColumnIter::Enum { values, position } => if *position <= values.len() {
                values.len() - *position
            } else {
                0
            },
        }
    }
}

/// Whether `names` begins with `prefix`.
pub open spec fn extends(names: Seq<Seq<char>>, prefix: Seq<Seq<char>>) -> bool {
    prefix.len() <= names.len() && names.take(prefix.len() as int) == prefix
}

/// Every sequence extends itself.
pub proof fn lemma_extends_refl(a: Seq<Seq<char>>)
    ensures
        extends(a, a),
{
    assert(a.take(a.len() as int) =~= a);
}

/// Extending is transitive.
pub proof fn lemma_extends_trans(a: Seq<Seq<char>>, b: Seq<Seq<char>>, c: Seq<Seq<char>>)
    requires
        extends(a, b),
        extends(b, c),
    ensures
        extends(a, c),
{
    assert(a.take(c.len() as int) =~= c) by {
        assert forall|k: int| 0 <= k < c.len() implies a.take(c.len() as int)[k] == c[k] by {
            assert(a.take(b.len() as int)[k] == b[k]);
            assert(b.take(c.len() as int)[k] == c[k]);
        }
    }
}

/// Whether the names of the storage hold what the column says: the column's vector is
/// named like the column; for categories, the vectors are named like the categories,
/// in order; for strings, every value has a vector.
pub open spec fn column_matches(d: ColumnData, col: TableColumn, names: Seq<Seq<char>>) -> bool {
    &&& d.vector@ < names.len()
    &&& names[d.vector@ as int] == col.spec_name()
    &&& match col.spec_values() {
        ColumnValues::Strings(v) => {
            &&& d.kind is String
            &&& forall|k: int|
                0 <= k < v@.len() ==> (#[trigger] v@[k] matches Some(s) ==> names.contains(s@))
        },
        ColumnValues::Categories { categories, .. } => match d.kind {
            ColumnKind::Enum { categories: cs, values } => {
                &&& views_of(cs@) == views_of(categories@)
                &&& values@.len() == categories@.len()
                &&& forall|m: int|
                    0 <= m < values@.len() ==> (#[trigger] values@[m])@ < names.len()
                        && names[values@[m]@ as int] == views_of(categories@)[m]
            },
            _ => false,
        },
        ColumnValues::Other { .. } => false,
    }
}

/// Whether every column of the table matches what is known of it.
pub open spec fn columns_match(c: Columns, table: Table, names: Seq<Seq<char>>) -> bool {
    &&& c.data@.len() == table.spec_columns().len()
    &&& forall|k: int|
        0 <= k < c.data@.len() ==> column_matches(
            #[trigger] c.data@[k],
            table.spec_columns()[k],
            names,
        )
}

/// Whether column `k` is the first one of another data type.
pub open spec fn first_other(table: Table, k: int) -> bool {
    &&& 0 <= k < table.spec_columns().len()
    &&& table.spec_columns()[k].spec_values() is Other
    &&& forall|j: int| 0 <= j < k ==> !(#[trigger] table.spec_columns()[j].spec_values() is Other)
}

/// What a column matches it still matches when names are added.
proof fn lemma_column_matches_grow(
    d: ColumnData,
    col: TableColumn,
    names: Seq<Seq<char>>,
    more: Seq<Seq<char>>,
)
    requires
        column_matches(d, col, names),
        extends(more, names),
    ensures
        column_matches(d, col, more),
{
    assert(more[d.vector@ as int] == more.take(names.len() as int)[d.vector@ as int]);
    match col.spec_values() {
        ColumnValues::Strings(v) => {
            assert forall|k: int| 0 <= k < v@.len() implies (#[trigger] v@[k] matches Some(s)
                ==> more.contains(s@)) by {
                if v@[k] is Some {
                    let s = v@[k]->0;
                    let w = choose|w: int| 0 <= w < names.len() && names[w] == s@;
                    assert(more[w] == more.take(names.len() as int)[w]);
                }
            }
        },
        ColumnValues::Categories { categories, .. } => match d.kind {
            ColumnKind::Enum { categories: cs, values } => {
                assert forall|m: int| 0 <= m < values@.len() implies (#[trigger] values@[m])@
                    < more.len() && more[values@[m]@ as int] == views_of(categories@)[m] by {
                    assert(more[values@[m]@ as int] == more.take(names.len() as int)[values@[m]@ as int]);
                }
            },
            _ => {},
        },
        ColumnValues::Other { .. } => {},
    }
}

/// The values of a column of strings, in order, without the missing ones.
pub open spec fn present_names(v: Seq<Option<String>>) -> Seq<Seq<char>>
    decreases v.len(),
{
    if v.len() == 0 {
        Seq::empty()
    } else {
        present_names(v.drop_last()) + match v.last() {
            Some(s) => seq![s@],
            None => Seq::<Seq<char>>::empty(),
        }
    }
}

/// The names a column asks vectors for, in the order it asks: a column of categories
/// its own name and then its categories; a column of strings its values and then its
/// own name; a column of another data type none.
pub open spec fn column_added(col: TableColumn) -> Seq<Seq<char>> {
    match col.spec_values() {
        ColumnValues::Categories { categories, .. } => seq![col.spec_name()] + views_of(categories@),
        ColumnValues::Strings(v) => present_names(v@) + seq![col.spec_name()],
        ColumnValues::Other { .. } => Seq::empty(),
    }
}

/// The names the columns ask vectors for, column after column.
pub open spec fn columns_added(cols: Seq<TableColumn>) -> Seq<Seq<char>>
    decreases cols.len(),
{
    if cols.len() == 0 {
        Seq::empty()
    } else {
        columns_added(cols.drop_last()) + column_added(cols.last())
    }
}

/// Build the columns of a table, giving vectors to the columns and their values: a
/// column of categories gets its own vector first and then one for each category; a
/// column of strings gets one for each value first and then its own. A column of
/// another data type is an error.
pub(crate) fn from_columns<S: Size, V: VectorSymbolicArchitecture>(
    vectors: &mut NamedVectors<S, V>,
    table: &Table,
) -> (r: Result<Columns, StorageError>)
    requires
        old(vectors).wf(),
    ensures
        final(vectors).wf(),
        final(vectors).size == old(vectors).size,
        extends(views_of(final(vectors).names@), views_of(old(vectors).names@)),
        old(vectors).vectors@.len() <= final(vectors).vectors@.len(),
        forall|k: int| 0 <= k < old(vectors).vectors@.len() ==> final(vectors).vectors@[k] == old(vectors).vectors@[k],
        match r {
            Ok(c) => {
                &&& views_of(final(vectors).names@) == pushed_names(
                    views_of(old(vectors).names@),
                    columns_added(table.spec_columns()),
                )
                &&& c.wf(final(vectors).vectors@.len())
                &&& c.names() == table.column_names()
                &&& columns_match(c, *table, views_of(final(vectors).names@))
            },
            Err(e) => exists|k: int|
                first_other(*table, k) && e == (StorageError::InvalidDataType {
                    column: table.spec_columns()[k].spec_name_string(),
                    dtype: table.spec_columns()[k].spec_values()->Other_dtype,
                }) && views_of(final(vectors).names@) == pushed_names(
                    views_of(old(vectors).names@),
                    columns_added(table.spec_columns().take(k)),
                ),
        },
{
    proof {
        use_type_invariant(table);
        assert(table.spec_columns().take(0) =~= Seq::<TableColumn>::empty());
    }
    let mut names: Vec<String> = Vec::new();
    let mut data: Vec<ColumnData> = Vec::new();
    let ghost start = views_of(vectors.names@);
    proof {
        lemma_extends_refl(start);
    }
    let mut i: usize = 0;
    while i < table.columns.len()
        invariant
            vectors.wf(),
            vectors.size == old(vectors).size,
            table.wf(),
            i <= table.columns@.len(),
            start == views_of(old(vectors).names@),
            extends(views_of(vectors.names@), start),
            views_of(vectors.names@) == pushed_names(start, columns_added(table.spec_columns().take(i as int))),
            old(vectors).vectors@.len() <= vectors.vectors@.len(),
            forall|k: int| 0 <= k < old(vectors).vectors@.len() ==> vectors.vectors@[k] == old(vectors).vectors@[k],
            names@.len() == i,
            data@.len() == i,
            views_of(names@) == table.column_names().take(i as int),
            forall|k: int| 0 <= k < i ==> (#[trigger] data@[k]).wf(vectors.vectors@.len()),
            forall|k: int|
                0 <= k < i ==> column_matches(
                    #[trigger] data@[k],
                    table.spec_columns()[k],
                    views_of(vectors.names@),
                ),
            forall|k: int| 0 <= k < i ==> !(#[trigger] table.spec_columns()[k].spec_values() is Other),
        decreases table.columns@.len() - i,
    {
        let column = &table.columns[i];
        let ghost before = views_of(vectors.names@);
        let ghost count_before = vectors.vectors@.len();
        let entry = match &column.values {
            ColumnValues::Categories { categories, codes } => {
                let vector = vectors.get_or_insert(column.name.clone());
                let ghost after_name = views_of(vectors.names@);
                let ghost cats = views_of(categories@);
                proof {
                    lemma_extends_refl(after_name);
                    assert(seq![column.name@] + cats.take(0) =~= seq![column.name@]);
                }
                let mut values: Vec<VectorIndex> = Vec::new();
                let mut j: usize = 0;
                while j < categories.len()
                    invariant
                        vectors.wf(),
                        vectors.size == old(vectors).size,
                        j <= categories@.len(),
                        values@.len() == j,
                        extends(views_of(vectors.names@), after_name),
                        vector@ < after_name.len(),
                        after_name[vector@ as int] == column.name@,
                        cats == views_of(categories@),
                        views_of(vectors.names@) == pushed_names(before, seq![column.name@] + cats.take(j as int)),
                        old(vectors).vectors@.len() <= vectors.vectors@.len(),
                        forall|k: int|
                            0 <= k < old(vectors).vectors@.len() ==> vectors.vectors@[k] == old(vectors).vectors@[k],
                        forall|k: int|
                            0 <= k < j ==> (#[trigger] values@[k])@ < views_of(vectors.names@).len()
                                && views_of(vectors.names@)[values@[k]@ as int] == views_of(
                                categories@,
                            )[k],
                    decreases categories@.len() - j,
                {
                    let ghost prev = views_of(vectors.names@);
                    let index = vectors.get_or_insert(categories[j].clone());
                    proof {
                        lemma_pushed_names_concat(before, seq![column.name@] + cats.take(j as int), seq![cats[j as int]]);
                        assert(seq![column.name@] + cats.take(j as int) + seq![cats[j as int]] =~= seq![column.name@]
                            + cats.take(j + 1));
                        lemma_extends_trans(views_of(vectors.names@), prev, after_name);
                        assert forall|k: int| 0 <= k < j implies (#[trigger] values@[k])@ < views_of(
                            vectors.names@,
                        ).len() && views_of(vectors.names@)[values@[k]@ as int] == views_of(
                            categories@,
                        )[k] by {
                            assert(views_of(vectors.names@)[values@[k]@ as int] == views_of(
                                vectors.names@,
                            ).take(prev.len() as int)[values@[k]@ as int]);
                        }
                    }
                    values.push(index);
                    j = j + 1;
                }
                let copied = clone_strings(categories);
                proof {
                    assert(cats.take(categories@.len() as int) =~= cats);
                    assert(table.spec_columns()[i as int].spec_values().wf());
                    assert(values@.len() == categories@.len());
                    lemma_extends_trans(views_of(vectors.names@), after_name, before);
                    assert(views_of(vectors.names@)[vector@ as int] == views_of(vectors.names@).take(
                        after_name.len() as int,
                    )[vector@ as int]);
                }
                proof {
                    assert(views_of(copied@).len() == copied@.len());
                    assert(views_of(categories@).len() == categories@.len());
                    assert(categories_wf(categories@, codes@));
                    assert(distinct(views_of(copied@)));
                    assert(vector@ < vectors.vectors@.len());
                    assert forall|k: int| 0 <= k < values@.len() implies (#[trigger] values@[k])@
                        < vectors.vectors@.len() by {
                        assert(values@[k]@ < views_of(vectors.names@).len());
                    }
                }
                let entry = ColumnData { vector, kind: ColumnKind::Enum { categories: copied, values } };
                assert(entry.wf(vectors.vectors@.len()));
                entry
            },
            ColumnValues::Strings(strings) => {
                proof {
                    lemma_extends_refl(before);
                }
                let mut j: usize = 0;
                while j < strings.len()
                    invariant
                        vectors.wf(),
                        vectors.size == old(vectors).size,
                        j <= strings@.len(),
                        extends(views_of(vectors.names@), before),
                        views_of(vectors.names@) == pushed_names(before, present_names(strings@.take(j as int))),
                        old(vectors).vectors@.len() <= vectors.vectors@.len(),
                        forall|k: int|
                            0 <= k < old(vectors).vectors@.len() ==> vectors.vectors@[k] == old(vectors).vectors@[k],
                        forall|k: int|
                            0 <= k < j ==> (#[trigger] strings@[k] matches Some(s) ==> views_of(
                                vectors.names@,
                            ).contains(s@)),
                    decreases strings@.len() - j,
                {
                    let ghost prev = views_of(vectors.names@);
                    proof {
                        lemma_extends_refl(prev);
                        assert(strings@.take(j + 1).drop_last() =~= strings@.take(j as int));
                        assert(strings@.take(j + 1).last() == strings@[j as int]);
                    }
                    match &strings[j] {
                        Some(s) => {
                            let index = vectors.get_or_insert(s.clone());
                            proof {
                                assert(views_of(vectors.names@)[index@ as int] == s@);
                                lemma_pushed_names_concat(before, present_names(strings@.take(j as int)), seq![s@]);
                            }
                        },
                        None => {
                            proof {
                                assert(present_names(strings@.take(j + 1)) =~= present_names(strings@.take(j as int)));
                            }
                        },
                    }
                    proof {
                        lemma_extends_trans(views_of(vectors.names@), prev, before);
                        assert forall|k: int| 0 <= k < j + 1 implies (#[trigger] strings@[k] matches Some(s)
                            ==> views_of(vectors.names@).contains(s@)) by {
                            if k < j && strings@[k] is Some {
                                let s = strings@[k]->0;
                                let w = choose|w: int| 0 <= w < prev.len() && prev[w] == s@;
                                assert(views_of(vectors.names@)[w] == views_of(vectors.names@).take(
                                    prev.len() as int,
                                )[w]);
                            }
                        }
                    }
                    j = j + 1;
                }
                let ghost prev = views_of(vectors.names@);
                proof {
                    assert(strings@.take(strings@.len() as int) =~= strings@);
                }
                let vector = vectors.get_or_insert(column.name.clone());
                proof {
                    lemma_pushed_names_concat(before, present_names(strings@), seq![column.name@]);
                    lemma_extends_trans(views_of(vectors.names@), prev, before);
                    assert forall|k: int| 0 <= k < strings@.len() implies (#[trigger] strings@[k] matches Some(s)
                        ==> views_of(vectors.names@).contains(s@)) by {
                        if strings@[k] is Some {
                            let s = strings@[k]->0;
                            let w = choose|w: int| 0 <= w < prev.len() && prev[w] == s@;
                            assert(views_of(vectors.names@)[w] == views_of(vectors.names@).take(
                                prev.len() as int,
                            )[w]);
                        }
                    }
                }
                let entry = ColumnData { vector, kind: ColumnKind::String };
                assert(entry.wf(vectors.vectors@.len()));
                entry
            },
            ColumnValues::Other { dtype, .. } => {
                proof {
                    assert(first_other(*table, i as int));
                }
                return Err(
                    StorageError::InvalidDataType {
                        column: column.name.clone(),
                        dtype: dtype.clone(),
                    },
                );
            },
        };
        proof {
            assert(table.spec_columns().take(i + 1).drop_last() =~= table.spec_columns().take(i as int));
            assert(table.spec_columns().take(i + 1).last() == table.spec_columns()[i as int]);
            lemma_pushed_names_concat(
                start,
                columns_added(table.spec_columns().take(i as int)),
                column_added(table.spec_columns()[i as int]),
            );
            lemma_extends_trans(views_of(vectors.names@), before, start);
            assert forall|k: int| 0 <= k < i implies (#[trigger] data@[k]).wf(vectors.vectors@.len()) by {
                data@[k].lemma_wf_grow(count_before, vectors.vectors@.len());
            }
            assert forall|k: int| 0 <= k < i implies column_matches(
                #[trigger] data@[k],
                table.spec_columns()[k],
                views_of(vectors.names@),
            ) by {
                lemma_column_matches_grow(data@[k], table.spec_columns()[k], before, views_of(vectors.names@));
            }
        }
        names.push(column.name.clone());
        data.push(entry);
        proof {
            assert(views_of(names@) =~= table.column_names().take(i + 1));
        }
        i = i + 1;
    }
    proof {
        assert(table.column_names().take(i as int) =~= table.column_names());
        assert(table.spec_columns().take(i as int) =~= table.spec_columns());
    }
    Ok(Columns { names, data })
}

/// A copy of a list of strings.
pub(crate) fn clone_strings(v: &Vec<String>) -> (r: Vec<String>)
    ensures
        views_of(r@) == views_of(v@),
{
    let mut out: Vec<String> = Vec::new();
    let mut i: usize = 0;
    while i < v.len()
        invariant
            i <= v@.len(),
            out@.len() == i,
            forall|k: int| 0 <= k < i ==> out@[k]@ == v@[k]@,
        decreases v@.len() - i,
    {
        out.push(v[i].clone());
        i = i + 1;
    }
    assert(views_of(out@) =~= views_of(v@));
    out
}

} // verus!
