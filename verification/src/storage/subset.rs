//! Subsets of a table: the vectors of its cells, each bound to the vector of its
//! column, bundled or bound row by row or over the whole table.

use vstd::prelude::*;

use super::columns::{ColumnKind, ColumnValues, Table, TableColumn};
use super::{position_of, views_of, Storage, VectorIndex};
use crate::vsa::architectures::VectorSymbolicArchitecture;
use crate::vsa::{Normalized, NotNormalized, Size, Vector, VectorType};

verus! {

/// An error that can occur when creating a subset.
#[derive(Debug, Clone)]
pub enum SubsetError {
    /// A column of the table is not a column of the storage.
    ColumnNotFound {
        /// The name of the column.
        name: String,
    },
    /// A column of the table is of another kind than the storage's column, or holds
    /// other categories.
    ColumnTypeMismatch {
        /// The name of the column.
        name: String,
    },
    /// A value of a column of strings has no vector in the storage.
    ValueNotFound {
        /// The name of the column.
        column: String,
        /// The value that was not found.
        value: String,
    },
}

/// Whether two lists of strings hold the same strings in the same order.
fn same_strings(a: &Vec<String>, b: &Vec<String>) -> (r: bool)
    ensures
        r == (views_of(a@) == views_of(b@)),
{
    if a.len() != b.len() {
        assert(views_of(a@).len() != views_of(b@).len());
        return false;
    }
    let mut i: usize = 0;
    while i < a.len()
        invariant
            a@.len() == b@.len(),
            i <= a@.len(),
            forall|k: int| 0 <= k < i ==> a@[k]@ == b@[k]@,
        decreases a@.len() - i,
    {
        if a[i] != b[i] {
            assert(views_of(a@)[i as int] != views_of(b@)[i as int]);
            return false;
        }
        i = i + 1;
    }
    assert(views_of(a@) =~= views_of(b@));
    true
}

/// The index of an optional vector index.
pub open spec fn index_view(o: Option<VectorIndex>) -> Option<nat> {
    match o {
        Some(i) => Some(i@),
        None => None,
    }
}

/// The elements of the present entries, in order.
pub open spec fn present<A>(s: Seq<Option<A>>) -> Seq<A>
    decreases s.len(),
{
    if s.len() == 0 {
        Seq::empty()
    } else {
        match s.last() {
            Some(a) => present(s.drop_last()).push(a),
            None => present(s.drop_last()),
        }
    }
}

/// What holds of every entry holds of every present element.
pub proof fn lemma_present_all<A>(s: Seq<Option<A>>, p: spec_fn(A) -> bool)
    requires
        forall|i: int| 0 <= i < s.len() ==> (#[trigger] s[i] matches Some(a) ==> p(a)),
    ensures
        forall|k: int| 0 <= k < present(s).len() ==> p(#[trigger] present(s)[k]),
    decreases s.len(),
{
    if s.len() > 0 {
        assert forall|i: int| 0 <= i < s.drop_last().len() implies (#[trigger] s.drop_last()[i] matches Some(a)
            ==> p(a)) by {
            assert(s.drop_last()[i] == s[i]);
        }
        lemma_present_all(s.drop_last(), p);
        let q = present(s.drop_last());
        assert(s[s.len() - 1] == s.last());
        assert forall|k: int| 0 <= k < present(s).len() implies p(#[trigger] present(s)[k]) by {
            if k < q.len() {
                assert(present(s)[k] == q[k]);
            } else {
                assert(present(s)[k] == s.last()->0);
            }
        }
    }
}

/// No more elements are present than there are entries.
pub proof fn lemma_present_len<A>(s: Seq<Option<A>>)
    ensures
        present(s).len() <= s.len(),
    decreases s.len(),
{
    if s.len() > 0 {
        lemma_present_len(s.drop_last());
    }
}

/// Whether `acc` bundles `features`: each taken as the accumulator of itself alone,
/// and those bundled one after the other onto the first.
pub open spec fn is_bundle_of_features<V: VectorSymbolicArchitecture>(
    features: Seq<Seq<int>>,
    acc: V::Accumulator,
) -> bool {
    exists|parts: Seq<V::Accumulator>|
        {
            &&& parts.len() == features.len()
            &&& forall|i: int| 0 <= i < parts.len() ==> V::denormalizes_to(features[i], #[trigger] parts[i])
            &&& merged::<V>(parts, acc)
        }
}

/// Whether `acc` bundles the payloads of `vectors`: each taken as an accumulator,
/// and those bundled one after the other onto the first.
pub open spec fn is_merge_of<S: Size, V: VectorSymbolicArchitecture, T: VectorType<V>>(
    vectors: Seq<Vector<S, V, T>>,
    acc: V::Accumulator,
) -> bool {
    exists|parts: Seq<V::Accumulator>|
        {
            &&& parts.len() == vectors.len()
            &&& forall|i: int| 0 <= i < parts.len() ==> vectors[i].payload().accumulates(#[trigger] parts[i])
            &&& merged::<V>(parts, acc)
        }
}

/// Whether `r` bundles the present vectors of `rows` into a payload of type `T2`, or
/// is `None` where none is present.
pub open spec fn is_bundle_of_rows<
    S: Size,
    V: VectorSymbolicArchitecture,
    T1: VectorType<V>,
    T2: VectorType<V>,
>(rows: Seq<Option<Vector<S, V, T1>>>, r: Option<Vector<S, V, T2>>) -> bool {
    match r {
        None => present(rows).len() == 0,
        Some(v) => present(rows).len() > 0 && exists|acc: V::Accumulator|
            #[trigger] is_merge_of(present(rows), acc) && T2::made_from(acc, v.payload()),
    }
}

/// The combinations of `k` indices from `start` up to `n`, each in increasing order,
/// the combinations in lexicographic order.
pub open spec fn combos_from(start: nat, n: nat, k: nat) -> Seq<Seq<nat>>
    decreases k, n - start,
{
    if k == 0 {
        seq![Seq::empty()]
    } else if start >= n {
        Seq::empty()
    } else {
        combos_from(start + 1, n, (k - 1) as nat).map_values(|c: Seq<nat>| seq![start] + c)
            + combos_from(start + 1, n, k)
    }
}

/// The features at the indices of a combination, bound together.
pub open spec fn bind_combination<V: VectorSymbolicArchitecture>(
    features: Seq<Seq<int>>,
    combo: Seq<nat>,
) -> Seq<int> {
    bind_all::<V>(combo.map_values(|i: nat| features[i as int]))
}

/// The term of a combination binds every feature it names, in order: the term of one
/// feature is that feature, and the term of a longer combination is the term of all
/// but its last feature bound with the last feature (so for three features `i0, i1,
/// i2` it is `bind(bind(f[i0], f[i1]), f[i2])`).
pub proof fn lemma_combination_binds_every_feature<V: VectorSymbolicArchitecture>(
    features: Seq<Seq<int>>,
    combo: Seq<nat>,
)
    requires
        combo.len() >= 1,
    ensures
        combo.len() == 1 ==> bind_combination::<V>(features, combo) == features[combo[0] as int],
        combo.len() >= 2 ==> bind_combination::<V>(features, combo) == V::spec_bind(
            bind_combination::<V>(features, combo.drop_last()),
            features[combo.last() as int],
        ),
        combo.len() == 3 ==> bind_combination::<V>(features, combo) == V::spec_bind(
            V::spec_bind(features[combo[0] as int], features[combo[1] as int]),
            features[combo[2] as int],
        ),
{
    let chosen = combo.map_values(|i: nat| features[i as int]);
    if combo.len() >= 2 {
        assert(chosen.drop_last() =~= combo.drop_last().map_values(|i: nat| features[i as int]));
    }
    if combo.len() == 3 {
        let two = combo.drop_last();
        let c2 = two.map_values(|i: nat| features[i as int]);
        let c1 = two.drop_last().map_values(|i: nat| features[i as int]);
        assert(c2.drop_last() =~= c1);
        assert(c1.len() == 1);
        assert(bind_all::<V>(c1) == features[combo[0] as int]);
        assert(bind_all::<V>(c2) == V::spec_bind(bind_all::<V>(c1), features[combo[1] as int]));
        assert(bind_all::<V>(chosen) == V::spec_bind(bind_all::<V>(c2), features[combo[2] as int]));
    }
}

/// The bindings of all combinations of `k` features.
pub open spec fn level<V: VectorSymbolicArchitecture>(features: Seq<Seq<int>>, k: nat) -> Seq<
    Seq<int>,
> {
    combos_from(0, features.len(), k).map_values(|c: Seq<nat>| bind_combination::<V>(features, c))
}

/// The bindings of all combinations of one feature, then of two, and so on up to
/// `ways` features (and at most all of them).
pub open spec fn combination_terms<V: VectorSymbolicArchitecture>(
    features: Seq<Seq<int>>,
    ways: nat,
) -> Seq<Seq<int>>
    decreases ways,
{
    if ways == 0 {
        Seq::empty()
    } else {
        combination_terms::<V>(features, (ways - 1) as nat) + if ways <= features.len() {
            level::<V>(features, ways)
        } else {
            Seq::empty()
        }
    }
}

/// The number of combinations of one index, then of two, and so on up to `ways`
/// indices (and at most all `n` of them).
pub open spec fn combination_count(n: nat, ways: nat) -> nat
    decreases ways,
{
    if ways == 0 {
        0
    } else {
        combination_count(n, (ways - 1) as nat) + if ways <= n {
            combos_from(0, n, ways).len()
        } else {
            0
        }
    }
}

/// There are as many terms as combinations.
pub proof fn lemma_combination_terms_len<V: VectorSymbolicArchitecture>(
    features: Seq<Seq<int>>,
    ways: nat,
)
    ensures
        combination_terms::<V>(features, ways).len() == combination_count(features.len(), ways),
    decreases ways,
{
    if ways > 0 {
        lemma_combination_terms_len::<V>(features, (ways - 1) as nat);
    }
}

/// More indices give at least as many combinations.
pub proof fn lemma_combos_monotone(start: nat, n1: nat, n2: nat, k: nat)
    requires
        n1 <= n2,
    ensures
        combos_from(start, n1, k).len() <= combos_from(start, n2, k).len(),
    decreases k, n1 - start,
{
    if k > 0 && start < n1 {
        lemma_combos_monotone(start + 1, n1, n2, (k - 1) as nat);
        lemma_combos_monotone(start + 1, n1, n2, k);
    }
}

/// More indices give at least as many combinations, over all sizes up to `ways`.
pub proof fn lemma_combination_count_monotone(n1: nat, n2: nat, ways: nat)
    requires
        n1 <= n2,
    ensures
        combination_count(n1, ways) <= combination_count(n2, ways),
    decreases ways,
{
    if ways > 0 {
        lemma_combination_count_monotone(n1, n2, (ways - 1) as nat);
        if ways <= n1 {
            lemma_combos_monotone(0, n1, n2, ways);
        }
    }
}

/// Every combination of `k` indices from `start` up to `n` has `k` indices, each from
/// `start` up to `n`.
pub proof fn lemma_combos_shape(start: nat, n: nat, k: nat)
    ensures
        forall|c: int|
            0 <= c < combos_from(start, n, k).len() ==> (#[trigger] combos_from(start, n, k)[c]).len()
                == k && forall|i: int|
                0 <= i < k ==> start <= #[trigger] combos_from(start, n, k)[c][i] < n,
    decreases k, n - start,
{
    if k > 0 && start < n {
        lemma_combos_shape(start + 1, n, (k - 1) as nat);
        lemma_combos_shape(start + 1, n, k);
        let a = combos_from(start + 1, n, (k - 1) as nat);
        let b = combos_from(start + 1, n, k);
        let am = a.map_values(|c: Seq<nat>| seq![start] + c);
        assert forall|c: int| 0 <= c < combos_from(start, n, k).len() implies (#[trigger] combos_from(
            start,
            n,
            k,
        )[c]).len() == k && forall|i: int| 0 <= i < k ==> start <= #[trigger] combos_from(start, n, k)[c][i] < n by {
            if c < am.len() {
                assert(combos_from(start, n, k)[c] == am[c]);
                assert(am[c] == seq![start] + a[c]);
                assert forall|i: int| 0 <= i < k implies start <= #[trigger] combos_from(start, n, k)[c][i] < n by {
                    if i > 0 {
                        assert(combos_from(start, n, k)[c][i] == a[c][i - 1]);
                    }
                }
            } else {
                assert(combos_from(start, n, k)[c] == b[c - am.len()]);
            }
        }
    }
}

/// Beyond the number of features, there are no more terms.
pub proof fn lemma_combination_terms_saturate<V: VectorSymbolicArchitecture>(
    features: Seq<Seq<int>>,
    ways: nat,
)
    requires
        ways >= features.len(),
    ensures
        combination_terms::<V>(features, ways) == combination_terms::<V>(features, features.len()),
    decreases ways,
{
    if ways > features.len() {
        lemma_combination_terms_saturate::<V>(features, (ways - 1) as nat);
        assert(combination_terms::<V>(features, ways) =~= combination_terms::<V>(
            features,
            (ways - 1) as nat,
        ));
    }
}

/// Terms up to fewer ways begin the terms up to more ways.
pub proof fn lemma_combination_terms_grow<V: VectorSymbolicArchitecture>(
    features: Seq<Seq<int>>,
    w1: nat,
    w2: nat,
)
    requires
        w1 <= w2,
    ensures
        combination_terms::<V>(features, w1).len() <= combination_terms::<V>(features, w2).len(),
    decreases w2,
{
    if w1 < w2 {
        lemma_combination_terms_grow::<V>(features, w1, (w2 - 1) as nat);
    }
}

/// The indices of a list of index lists, as numbers.
pub open spec fn index_lists(v: Seq<Vec<usize>>) -> Seq<Seq<nat>> {
    v.map_values(|c: Vec<usize>| indices_of(c@))
}

/// Indices as numbers.
pub open spec fn indices_of(c: Seq<usize>) -> Seq<nat> {
    c.map_values(|i: usize| i as nat)
}

/// Append to `result`, in lexicographic order, every combination of `k` indices from
/// `start` up to `n`, each following the indices in `current`.
fn combine(start: usize, n: usize, k: usize, current: &mut Vec<usize>, result: &mut Vec<Vec<usize>>)
    requires
        start <= n,
    ensures
        final(current)@ == old(current)@,
        index_lists(final(result)@) == index_lists(old(result)@) + combos_from(
            start as nat,
            n as nat,
            k as nat,
        ).map_values(|c: Seq<nat>| indices_of(old(current)@) + c),
    decreases k, n - start,
{
    let ghost cur = indices_of(current@);
    let ghost before = index_lists(result@);
    if k == 0 {
        let copy = crate::vsa::architectures::copy_vec(current);
        result.push(copy);
        proof {
            assert(index_lists(result@) =~= before.push(indices_of(copy@)));
            assert(combos_from(start as nat, n as nat, k as nat).map_values(|c: Seq<nat>| cur + c) =~= seq![cur]) by {
                assert(cur + Seq::<nat>::empty() =~= cur);
            }
        }
        return ;
    }
    if start >= n {
        proof {
            assert(combos_from(start as nat, n as nat, k as nat).map_values(|c: Seq<nat>| cur + c) =~= Seq::<Seq<nat>>::empty());
            assert(index_lists(result@) =~= before + Seq::<Seq<nat>>::empty());
        }
        return ;
    }
    current.push(start);
    let ghost with_start = indices_of(current@);
    proof {
        assert(with_start =~= cur.push(start as nat));
    }
    combine(start + 1, n, k - 1, current, result);
    let ghost middle = index_lists(result@);
    current.pop();
    proof {
        assert(current@ =~= old(current)@);
    }
    combine(start + 1, n, k, current, result);
    proof {
        let a = combos_from((start + 1) as nat, n as nat, (k - 1) as nat);
        let b = combos_from((start + 1) as nat, n as nat, k as nat);
        let whole = combos_from(start as nat, n as nat, k as nat);
        assert(whole == a.map_values(|c: Seq<nat>| seq![start as nat] + c) + b);
        assert(whole.map_values(|c: Seq<nat>| cur + c) =~= a.map_values(|c: Seq<nat>| with_start + c)
            + b.map_values(|c: Seq<nat>| cur + c)) by {
            assert forall|i: int| 0 <= i < a.len() implies cur + (seq![start as nat] + a[i]) =~= with_start + a[i] by {}
        }
        assert(index_lists(result@) =~= before + whole.map_values(|c: Seq<nat>| cur + c));
    }
}

/// All vectors bound together, from the first to the last.
pub open spec fn bind_all<V: VectorSymbolicArchitecture>(vs: Seq<Seq<int>>) -> Seq<int>
    decreases vs.len(),
{
    if vs.len() <= 1 {
        vs[0]
    } else {
        V::spec_bind(bind_all::<V>(vs.drop_last()), vs.last())
    }
}

/// Whether `steps` bundles the accumulators `parts` one after the other onto the
/// first: step `i` is step `i - 1` with part `i` bundled onto it.
pub open spec fn merge_chain<V: VectorSymbolicArchitecture>(
    parts: Seq<V::Accumulator>,
    steps: Seq<V::Accumulator>,
) -> bool {
    &&& parts.len() > 0
    &&& steps.len() == parts.len()
    &&& steps[0] == parts[0]
    &&& forall|i: int| 1 <= i < steps.len() ==> V::merges_to(steps[i - 1], parts[i], #[trigger] steps[i])
}

/// Whether `acc` is the accumulators `parts` bundled one after the other onto the
/// first.
pub open spec fn merged<V: VectorSymbolicArchitecture>(
    parts: Seq<V::Accumulator>,
    acc: V::Accumulator,
) -> bool {
    exists|steps: Seq<V::Accumulator>| merge_chain::<V>(parts, steps) && steps.last() == acc
}

/// What the storage knows of the column named like `col`, if it knows one.
pub open spec fn known_column<S: Size, V: VectorSymbolicArchitecture>(
    storage: Storage<S, V>,
    col: TableColumn,
) -> Option<super::columns::ColumnData> {
    match position_of(storage.spec_columns().names(), col.spec_name()) {
        Some(p) => Some(storage.spec_columns().column(p as int)),
        None => None,
    }
}

/// Whether a table column is of the kind the storage knows: strings for strings, and
/// the same categories in the same order for categories.
pub open spec fn kinds_agree(d: super::columns::ColumnData, col: TableColumn) -> bool {
    match d.kind {
        ColumnKind::String => col.spec_values() is Strings,
        ColumnKind::Enum { categories: cs, .. } => match col.spec_values() {
            ColumnValues::Categories { categories, .. } => views_of(cs@) == views_of(categories@),
            _ => false,
        },
    }
}

/// The vector index of a cell of a table column in row `y`: `Some(None)` for a
/// missing value, `Some(Some(i))` for a value with vector `i`, and `None` for a string
/// without a vector.
pub open spec fn cell_of<S: Size, V: VectorSymbolicArchitecture>(
    storage: Storage<S, V>,
    d: super::columns::ColumnData,
    col: TableColumn,
    y: int,
) -> Option<Option<nat>> {
    match col.spec_values() {
        ColumnValues::Strings(vals) => match vals@[y] {
            None => Some(None),
            Some(v) => match storage.index_of(v@) {
                Some(i) => Some(Some(i)),
                None => None,
            },
        },
        ColumnValues::Categories { codes, .. } => match codes@[y] {
            None => Some(None),
            Some(c) => match d.kind {
                ColumnKind::Enum { values, .. } => Some(Some(values@[c as int]@)),
                ColumnKind::String => None,
            },
        },
        ColumnValues::Other { .. } => None,
    }
}

/// Whether a table column can be taken into a subset of the storage.
pub open spec fn column_fits<S: Size, V: VectorSymbolicArchitecture>(
    storage: Storage<S, V>,
    col: TableColumn,
    height: nat,
) -> bool {
    match known_column(storage, col) {
        Some(d) => kinds_agree(d, col) && forall|y: int|
            0 <= y < height ==> #[trigger] cell_of(storage, d, col, y) is Some,
        None => false,
    }
}

/// The string in row `y` of a column of strings, if it is there.
pub open spec fn string_at(col: TableColumn, y: int) -> Option<Seq<char>> {
    match col.spec_values() {
        ColumnValues::Strings(vals) => match vals@[y] {
            Some(v) => Some(v@),
            None => None,
        },
        _ => None,
    }
}

/// Whether `value` is the first string of the column without a vector.
pub open spec fn first_missing<S: Size, V: VectorSymbolicArchitecture>(
    storage: Storage<S, V>,
    d: super::columns::ColumnData,
    col: TableColumn,
    height: nat,
    value: Seq<char>,
) -> bool {
    exists|y: int|
        {
            &&& 0 <= y < height
            &&& cell_of(storage, d, col, y) is None
            &&& forall|z: int| 0 <= z < y ==> #[trigger] cell_of(storage, d, col, z) is Some
            &&& string_at(col, y) == Some(value)
        }
}

/// Whether `e` is the error for a table column that does not fit: an unknown column,
/// a column of another kind, or the first string without a vector.
pub open spec fn error_for<S: Size, V: VectorSymbolicArchitecture>(
    storage: Storage<S, V>,
    col: TableColumn,
    height: nat,
    e: SubsetError,
) -> bool {
    match known_column(storage, col) {
        None => e matches SubsetError::ColumnNotFound { name } && name@ == col.spec_name(),
        Some(d) => if !kinds_agree(d, col) {
            e matches SubsetError::ColumnTypeMismatch { name } && name@ == col.spec_name()
        } else {
            e matches SubsetError::ValueNotFound { column, value } && column@ == col.spec_name()
                && first_missing(storage, d, col, height, value@)
        },
    }
}

/// Whether `r` is the present vectors of `rows` bound one after the other, or `None`
/// where none is present.
pub open spec fn is_binding_of<S: Size, V: VectorSymbolicArchitecture>(
    rows: Seq<Option<Vector<S, V, Normalized<V>>>>,
    r: Option<Vector<S, V, Normalized<V>>>,
) -> bool {
    let vs = present(rows).map_values(|v: Vector<S, V, Normalized<V>>| v.values());
    match r {
        None => vs.len() == 0,
        Some(v) => vs.len() > 0 && v.values() == bind_all::<V>(vs),
    }
}

/// The present vectors, in order.
fn present_vectors<S: Size, V: VectorSymbolicArchitecture, T: VectorType<V>>(
    rows: Vec<Option<Vector<S, V, T>>>,
) -> (r: Vec<Vector<S, V, T>>)
    ensures
        r@ == present(rows@),
{
    let ghost all = rows@;
    let n = rows.len();
    let mut out: Vec<Vector<S, V, T>> = Vec::new();
    let mut rest = rows;
    let mut taken: usize = 0;
    while rest.len() > 0
        invariant
            n == all.len(),
            taken + rest@.len() == n,
            rest@ == all.skip(taken as int),
            out@ == present(all.take(taken as int)),
        decreases rest@.len(),
    {
        let item = rest.remove(0);
        proof {
            assert(all.take(taken + 1).drop_last() =~= all.take(taken as int));
            assert(all.take(taken + 1).last() == all[taken as int]);
            assert(rest@ =~= all.skip(taken + 1));
        }
        match item {
            Some(v) => {
                out.push(v);
            },
            None => {},
        }
        taken = taken + 1;
    }
    proof {
        assert(all.take(all.len() as int) =~= all);
    }
    out
}

/// The features at the indices of a combination, bound together.
fn bind_combination_of<S: Size, V: VectorSymbolicArchitecture>(
    features: &Vec<Vector<S, V>>,
    combo: &Vec<usize>,
) -> (r: Vector<S, V>)
    requires
        combo@.len() > 0,
        forall|i: int| 0 <= i < combo@.len() ==> #[trigger] combo@[i] < features@.len(),
        forall|k: int| 0 <= k < features@.len() ==> (#[trigger] features@[k]).spec_size() == features@[0].spec_size(),
    ensures
        r.values() == bind_combination::<V>(
            features@.map_values(|v: Vector<S, V>| v.values()),
            indices_of(combo@),
        ),
        r.spec_size() == features@[0].spec_size(),
{
    let ghost fv = features@.map_values(|v: Vector<S, V>| v.values());
    let ghost chosen = indices_of(combo@).map_values(|i: nat| fv[i as int]);
    let mut acc = features[combo[0]].duplicate();
    let mut k: usize = 1;
    proof {
        assert(chosen.take(1) =~= seq![fv[combo@[0] as int]]);
    }
    while k < combo.len()
        invariant
            1 <= k <= combo@.len(),
            fv == features@.map_values(|v: Vector<S, V>| v.values()),
            chosen == indices_of(combo@).map_values(|i: nat| fv[i as int]),
            forall|i: int| 0 <= i < combo@.len() ==> #[trigger] combo@[i] < features@.len(),
            forall|m: int| 0 <= m < features@.len() ==> (#[trigger] features@[m]).spec_size() == features@[0].spec_size(),
            acc.spec_size() == features@[0].spec_size(),
            acc.values() == bind_all::<V>(chosen.take(k as int)),
        decreases combo@.len() - k,
    {
        let next = acc.bind_with(&features[combo[k]]);
        proof {
            assert(chosen.take(k + 1).drop_last() =~= chosen.take(k as int));
            assert(chosen.take(k + 1).last() == fv[combo@[k as int] as int]);
        }
        acc = next;
        k = k + 1;
    }
    proof {
        assert(chosen.take(combo@.len() as int) =~= chosen);
    }
    acc
}

/// Bind vectors one after the other; `None` where there is none.
fn bind_vectors<S: Size, V: VectorSymbolicArchitecture>(vectors: Vec<Vector<S, V, Normalized<V>>>) -> (r:
    Option<Vector<S, V, Normalized<V>>>)
    requires
        forall|k: int| 0 <= k < vectors@.len() ==> (#[trigger] vectors@[k]).spec_size() == vectors@[0].spec_size(),
    ensures
        match r {
            None => vectors@.len() == 0,
            Some(v) => {
                &&& vectors@.len() > 0
                &&& v.values() == bind_all::<V>(vectors@.map_values(|v: Vector<S, V, Normalized<V>>| v.values()))
                &&& v.spec_size() == vectors@[0].spec_size()
            },
        },
{
    if vectors.len() == 0 {
        return None;
    }
    let ghost vs = vectors@.map_values(|v: Vector<S, V, Normalized<V>>| v.values());
    let mut acc = vectors[0].duplicate();
    let mut k: usize = 1;
    proof {
        assert(vs.take(1).len() == 1);
    }
    while k < vectors.len()
        invariant
            1 <= k <= vectors@.len(),
            vs == vectors@.map_values(|v: Vector<S, V, Normalized<V>>| v.values()),
            forall|m: int| 0 <= m < vectors@.len() ==> (#[trigger] vectors@[m]).spec_size() == vectors@[0].spec_size(),
            acc.spec_size() == vectors@[0].spec_size(),
            acc.values() == bind_all::<V>(vs.take(k as int)),
        decreases vectors@.len() - k,
    {
        let next = acc.bind_with(&vectors[k]);
        proof {
            assert(vs.take(k + 1).drop_last() =~= vs.take(k as int));
            assert(vs.take(k + 1).last() == vs[k as int]);
        }
        acc = next;
        k = k + 1;
    }
    proof {
        assert(vs.take(vectors@.len() as int) =~= vs);
    }
    Some(acc)
}

/// The cells of a table as vectors of a storage, column by column: the vector of
/// the cell at column `x` and row `y` stands at `y + x * height`.
pub struct Subset<'a, S: Size, V: VectorSymbolicArchitecture> {
    storage: &'a Storage<S, V>,
    vectors: Vec<Option<VectorIndex>>,
    columns: Vec<VectorIndex>,
    width: usize,
    height: usize,
}

impl<'a, S: Size, V: VectorSymbolicArchitecture> Subset<'a, S, V> {
    /// The storage.
    pub closed spec fn spec_storage(&self) -> Storage<S, V> {
        *self.storage
    }

    /// The number of columns.
    pub closed spec fn spec_width(&self) -> nat {
        self.width as nat
    }

    /// The number of rows.
    pub closed spec fn spec_height(&self) -> nat {
        self.height as nat
    }

    /// The index of the vector of the cell at column `x` and row `y`, if the cell is
    /// not missing.
    pub closed spec fn cell(&self, x: int, y: int) -> Option<VectorIndex> {
        self.vectors@[y + x * self.height]
    }

    /// The index of the vector of column `x`.
    pub closed spec fn column_vector(&self, x: int) -> VectorIndex {
        self.columns@[x]
    }

    /// The storage is well formed, there is a vector index for every cell and one for
    /// every column, and all of them are indices of the storage.
    pub closed spec fn wf(&self) -> bool {
        &&& self.storage.wf()
        &&& self.columns@.len() == self.width
        &&& self.vectors@.len() == self.width * self.height
        &&& forall|x: int| 0 <= x < self.width ==> (#[trigger] self.columns@[x])@ < self.storage.count()
        &&& forall|k: int|
            0 <= k < self.vectors@.len() ==> (#[trigger] self.vectors@[k] matches Some(i) ==> i@
                < self.storage.count())
    }

    /// The feature of the cell at column `x` and row `y`: the cell's vector bound to
    /// the column's vector, if the cell is not missing.
    pub open spec fn feature(&self, x: int, y: int) -> Option<Seq<int>> {
        match self.cell(x, y) {
            Some(i) => Some(
                V::spec_bind(
                    self.spec_storage().vector(self.column_vector(x)@ as int).values(),
                    self.spec_storage().vector(i@ as int).values(),
                ),
            ),
            None => None,
        }
    }

    /// The features of row `y`, column by column, leaving out missing cells.
    pub open spec fn row_features(&self, y: int) -> Seq<Seq<int>> {
        present(Seq::new(self.spec_width(), |x: int| self.feature(x, y)))
    }

    /// Whether `r` is the subset that `table` makes of `storage`: every column fits
    /// and the cells hold the vectors of their values, or the error is that of the
    /// first column that does not fit.
    pub open spec fn is_subset_of(storage: Storage<S, V>, table: Table, r: Result<Self, SubsetError>) -> bool {
        match r {
            Ok(sub) => {
                &&& sub.wf()
                &&& sub.spec_storage() == storage
                &&& sub.spec_width() == table.spec_columns().len()
                &&& sub.spec_height() == table.spec_height()
                &&& forall|x: int|
                    0 <= x < sub.spec_width() ==> {
                        &&& column_fits(storage, table.spec_columns()[x], table.spec_height())
                        &&& known_column(storage, table.spec_columns()[x]) matches Some(d)
                            && #[trigger] sub.column_vector(x) == d.vector
                            && forall|y: int|
                            0 <= y < sub.spec_height() ==> cell_of(
                                storage,
                                d,
                                table.spec_columns()[x],
                                y,
                            ) == Some(index_view(#[trigger] sub.cell(x, y)))
                    }
            },
            Err(e) => exists|x: int|
                0 <= x < table.spec_columns().len() && (forall|w: int|
                    0 <= w < x ==> column_fits(
                        storage,
                        #[trigger] table.spec_columns()[w],
                        table.spec_height(),
                    )) && !column_fits(storage, table.spec_columns()[x], table.spec_height())
                    && error_for(storage, table.spec_columns()[x], table.spec_height(), e),
        }
    }

    /// The subset of the storage that a table makes: for every column of the table,
    /// the vector of the storage's column and the vector of every cell. Fails at the
    /// first column the storage does not know, or knows of another kind, or that
    /// holds a string without a vector.
    pub fn new(storage: &'a Storage<S, V>, table: &Table) -> (r: Result<Self, SubsetError>)
        requires
            storage.wf(),
        ensures
            Self::is_subset_of(*storage, *table, r),
    {
        table.assert_wf();
        let width = table.width();
        let height = table.height();
        let mut vectors: Vec<Option<VectorIndex>> = Vec::new();
        let mut columns: Vec<VectorIndex> = Vec::new();
        let mut x: usize = 0;
        while x < width
            invariant
                storage.wf(),
                table.wf(),
                width == table.spec_columns().len(),
                height == table.spec_height(),
                x <= width,
                columns@.len() == x,
                vectors@.len() == x * height,
                forall|w: int| 0 <= w < x ==> (#[trigger] columns@[w])@ < storage.count(),
                forall|k: int|
                    0 <= k < vectors@.len() ==> (#[trigger] vectors@[k] matches Some(i) ==> i@
                        < storage.count()),
                forall|w: int|
                    0 <= w < x ==> {
                        &&& column_fits(*storage, #[trigger] table.spec_columns()[w], table.spec_height())
                        &&& known_column(*storage, table.spec_columns()[w]) matches Some(d)
                            && columns@[w] == d.vector && forall|y: int|
                            0 <= y < height ==> cell_of(*storage, d, table.spec_columns()[w], y)
                                == Some(index_view(#[trigger] vectors@[y + w * height]))
                    },
            decreases width - x,
        {
            let column = table.column_ref(x);
            let name = column.name_ref();
            let p = match storage.column_position(name) {
                Some(p) => p,
                None => {
                    let e = SubsetError::ColumnNotFound { name: name.clone() };
                    proof {
                        assert(!column_fits(*storage, table.spec_columns()[x as int], table.spec_height()));
                        assert(error_for(*storage, table.spec_columns()[x as int], table.spec_height(), e));
                    }
                    return Err(e);
                },
            };
            let data = storage.column_at(p);
            let ghost d = *data;
            let ghost col = table.spec_columns()[x as int];
            assert(known_column(*storage, col) == Some(d));
            let ghost start = vectors@.len();
            let ghost prefix = vectors@;
            match (&data.kind, column.values_ref()) {
                (ColumnKind::String, ColumnValues::Strings(values)) => {
                    let mut y: usize = 0;
                    while y < height
                        invariant
                            storage.wf(),
                            known_column(*storage, col) == Some(d),
                            col.spec_values() == ColumnValues::Strings(*values),
                            values@.len() == height,
                            d.kind is String,
                            y <= height,
                            name@ == col.spec_name(),
                            x < table.spec_columns().len(),
                            col == table.spec_columns()[x as int],
                            forall|w: int|
                                0 <= w < x ==> column_fits(
                                    *storage,
                                    #[trigger] table.spec_columns()[w],
                                    table.spec_height(),
                                ),
                            height == table.spec_height(),
                            start == vectors@.len() - y,
                            start == prefix.len(),
                            vectors@.take(start as int) == prefix,
                            forall|k: int|
                                0 <= k < vectors@.len() ==> (#[trigger] vectors@[k] matches Some(i) ==> i@
                                    < storage.count()),
                            forall|z: int|
                                0 <= z < y ==> cell_of(*storage, d, col, z) == Some(
                                    index_view(#[trigger] vectors@[start + z]),
                                ),
                        decreases height - y,
                    {
                        match &values[y] {
                            None => {
                                vectors.push(None);
                            },
                            Some(v) => match storage.index_by_name(v.as_str()) {
                                Some(i) => {
                                    proof { storage.lemma_wf(); }
                                    vectors.push(Some(i));
                                },
                                None => {
                                    let e = SubsetError::ValueNotFound { column: name.clone(), value: v.clone() };
                                    proof {
                                        assert(cell_of(*storage, d, col, y as int) is None);
                                        assert(!column_fits(*storage, col, table.spec_height()));
                                        assert forall|z: int| 0 <= z < y implies #[trigger] cell_of(*storage, d, col, z) is Some by {
                                            assert(cell_of(*storage, d, col, z) == Some(index_view(vectors@[start + z])));
                                        }
                                        assert(string_at(col, y as int) == Some(v@));
                                        assert(first_missing(*storage, d, col, table.spec_height(), v@));
                                        assert(error_for(*storage, col, table.spec_height(), e));
                                    }
                                    return Err(e);
                                },
                            },
                        }
                        y = y + 1;
                    }
                },
                (
                    ColumnKind::Enum { categories: ref_categories, values: ref_values },
                    ColumnValues::Categories { categories, codes },
                ) => {
                    if !same_strings(ref_categories, categories) {
                        let e = SubsetError::ColumnTypeMismatch { name: name.clone() };
                        proof {
                            assert(!kinds_agree(d, col));
                            assert(!column_fits(*storage, col, table.spec_height()));
                        }
                        return Err(e);
                    }
                    let mut y: usize = 0;
                    while y < height
                        invariant
                            storage.wf(),
                            known_column(*storage, col) == Some(d),
                            d.wf(storage.count()),
                            col.spec_values() == (ColumnValues::Categories { categories: *categories, codes: *codes }),
                            d.kind == (ColumnKind::Enum { categories: *ref_categories, values: *ref_values }),
                            col.spec_values().wf(),
                            codes@.len() == height,
                            views_of(ref_categories@) == views_of(categories@),
                            y <= height,
                            name@ == col.spec_name(),
                            x < table.spec_columns().len(),
                            col == table.spec_columns()[x as int],
                            forall|w: int|
                                0 <= w < x ==> column_fits(
                                    *storage,
                                    #[trigger] table.spec_columns()[w],
                                    table.spec_height(),
                                ),
                            height == table.spec_height(),
                            start == vectors@.len() - y,
                            start == prefix.len(),
                            vectors@.take(start as int) == prefix,
                            forall|k: int|
                                0 <= k < vectors@.len() ==> (#[trigger] vectors@[k] matches Some(i) ==> i@
                                    < storage.count()),
                            forall|z: int|
                                0 <= z < y ==> cell_of(*storage, d, col, z) == Some(
                                    index_view(#[trigger] vectors@[start + z]),
                                ),
                        decreases height - y,
                    {
                        match codes[y] {
                            None => {
                                vectors.push(None);
                            },
                            Some(c) => {
                                assert(codes@[y as int] == Some(c));
                                assert(views_of(categories@).len() == categories@.len());
                                assert(views_of(ref_categories@).len() == ref_categories@.len());
                                vectors.push(Some(ref_values[c]));
                            },
                        }
                        y = y + 1;
                    }
                },
                _ => {
                    let e = SubsetError::ColumnTypeMismatch { name: name.clone() };
                    proof {
                        assert(!kinds_agree(d, col));
                        assert(!column_fits(*storage, col, table.spec_height()));
                    }
                    return Err(e);
                },
            }
            columns.push(data.vector);
            proof {
                assert((x + 1) * height == x * height + height) by (nonlinear_arith);
                assert(start == x * height);
                assert forall|y: int| 0 <= y < height implies #[trigger] cell_of(*storage, d, col, y) is Some by {
                    assert(cell_of(*storage, d, col, y) == Some(index_view(vectors@[start + y])));
                }
                assert(column_fits(*storage, col, table.spec_height()));
                assert forall|w: int|
                    0 <= w < x + 1 implies {
                        &&& column_fits(*storage, #[trigger] table.spec_columns()[w], table.spec_height())
                        &&& known_column(*storage, table.spec_columns()[w]) matches Some(d)
                            && columns@[w] == d.vector && forall|y: int|
                            0 <= y < height ==> cell_of(*storage, d, table.spec_columns()[w], y)
                                == Some(index_view(#[trigger] vectors@[y + w * height]))
                    } by {
                    if w == x {
                        assert forall|y: int| 0 <= y < height implies cell_of(*storage, d, col, y)
                            == Some(index_view(#[trigger] vectors@[y + w * height])) by {
                            assert(y + w * height == start + y);
                        }
                    } else {
                        let dw = known_column(*storage, table.spec_columns()[w])->0;
                        assert forall|y: int| 0 <= y < height implies cell_of(*storage, dw, table.spec_columns()[w], y)
                            == Some(index_view(#[trigger] vectors@[y + w * height])) by {
                            assert(y + w * height < start) by (nonlinear_arith)
                                requires
                                    0 <= y < height,
                                    0 <= w < x,
                                    start == x * height,
                            ;
                            assert(vectors@[y + w * height] == vectors@.take(start as int)[y + w * height]);
                            assert(cell_of(*storage, dw, table.spec_columns()[w], y)
                                == Some(index_view(prefix[y + w * height])));
                        }
                    }
                }
            }
            x = x + 1;
        }
        let sub = Subset { storage, vectors, columns, width, height };
        proof {
            assert forall|x: int, y: int| 0 <= x < width && 0 <= y < height implies sub.cell(x, y)
                == vectors@[y + x * height] by {}
        }
        Ok(sub)
    }

    /// Where the cell at column `x` and row `y` stands.
    proof fn lemma_cell_position(&self, x: int, y: int)
        requires
            self.wf(),
            0 <= x < self.spec_width(),
            0 <= y < self.spec_height(),
        ensures
            0 <= y + x * self.spec_height() < self.vectors@.len(),
    {
        assert(0 <= y + x * self.height < self.width * self.height) by (nonlinear_arith)
            requires
                0 <= x < self.width,
                0 <= y < self.height,
        ;
    }

    /// The feature of the cell at column `x` and row `y`.
    fn sample(&self, x: usize, y: usize) -> (r: Option<Vector<S, V>>)
        requires
            self.wf(),
            x < self.spec_width(),
            y < self.spec_height(),
        ensures
            match self.feature(x as int, y as int) {
                Some(f) => r matches Some(v) && v.values() == f && v.spec_size()
                    == self.spec_storage().spec_size(),
                None => r is None,
            },
    {
        proof {
            self.lemma_cell_position(x as int, y as int);
            self.storage.lemma_wf();
        }
        let n = self.vectors.len();
        assert(x * self.height <= y + x * self.height);
        match self.vectors[y + x * self.height] {
            None => None,
            Some(index) => {
                let column = self.storage.get_by_index(self.columns[x]).unwrap();
                let value = self.storage.get_by_index(index).unwrap();
                Some(column.bind_with(value))
            },
        }
    }

    /// The features of row `y`, column by column, leaving out missing cells.
    fn features(&self, y: usize) -> (r: Vec<Vector<S, V>>)
        requires
            self.wf(),
            y < self.spec_height(),
        ensures
            r@.map_values(|v: Vector<S, V>| v.values()) == self.row_features(y as int),
            forall|k: int| 0 <= k < r@.len() ==> (#[trigger] r@[k]).spec_size() == self.spec_storage().spec_size(),
    {
        let ghost all = Seq::new(self.spec_width(), |x: int| self.feature(x, y as int));
        let mut out: Vec<Vector<S, V>> = Vec::new();
        let mut x: usize = 0;
        while x < self.width
            invariant
                self.wf(),
                y < self.spec_height(),
                x <= self.width,
                all == Seq::new(self.spec_width(), |x: int| self.feature(x, y as int)),
                out@.map_values(|v: Vector<S, V>| v.values()) == present(all.take(x as int)),
                forall|k: int| 0 <= k < out@.len() ==> (#[trigger] out@[k]).spec_size() == self.spec_storage().spec_size(),
            decreases self.width - x,
        {
            let sample = self.sample(x, y);
            proof {
                assert(all.take(x + 1).drop_last() =~= all.take(x as int));
                assert(all.take(x + 1).last() == all[x as int]);
            }
            match sample {
                Some(v) => {
                    out.push(v);
                    proof {
                        assert(out@.map_values(|v: Vector<S, V>| v.values()) =~= present(all.take(x as int)).push(
                            all[x as int]->0,
                        ));
                    }
                },
                None => {},
            }
            x = x + 1;
        }
        proof {
            assert(all.take(self.width as int) =~= all);
        }
        out
    }

    /// Bundle features: each as the accumulator of itself alone, bundled one after
    /// the other onto the first, without normalizing.
    fn bundle_features(&self, features: Vec<Vector<S, V>>) -> (r: Option<Vector<S, V, NotNormalized<V>>>)
        requires
            self.wf(),
            features@.len() <= V::max_weight(),
            forall|k: int| 0 <= k < features@.len() ==> (#[trigger] features@[k]).spec_size() == self.spec_storage().spec_size(),
        ensures
            match r {
                None => features@.len() == 0,
                Some(v) => {
                    &&& features@.len() > 0
                    &&& is_bundle_of_features::<V>(features@.map_values(|v: Vector<S, V>| v.values()), v.accumulator())
                    &&& V::weight(v.accumulator()) <= features@.len()
                    &&& v.spec_size() == self.spec_storage().spec_size()
                },
            },
    {
        if features.len() == 0 {
            return None;
        }
        let ghost fs = features@.map_values(|v: Vector<S, V>| v.values());
        let mut acc = features[0].duplicate().denormalize();
        let ghost mut parts: Seq<V::Accumulator> = seq![acc.accumulator()];
        let ghost mut steps: Seq<V::Accumulator> = seq![acc.accumulator()];
        let mut k: usize = 1;
        while k < features.len()
            invariant
                1 <= k <= features@.len(),
                features@.len() <= V::max_weight(),
                fs == features@.map_values(|v: Vector<S, V>| v.values()),
                forall|m: int| 0 <= m < features@.len() ==> (#[trigger] features@[m]).spec_size() == self.spec_storage().spec_size(),
                acc.spec_size() == self.spec_storage().spec_size(),
                V::weight(acc.accumulator()) <= k,
                parts.len() == k,
                forall|i: int| 0 <= i < k ==> V::denormalizes_to(fs[i], #[trigger] parts[i]),
                merge_chain::<V>(parts, steps),
                steps.last() == acc.accumulator(),
            decreases features@.len() - k,
        {
            let part = features[k].duplicate().denormalize();
            let ghost prev = acc.accumulator();
            let next = acc.merge(&part);
            proof {
                parts = parts.push(part.accumulator());
                steps = steps.push(next.accumulator());
            }
            acc = next;
            k = k + 1;
        }
        proof {
            assert(fs.len() == parts.len());
            assert(merged::<V>(parts, acc.accumulator()));
            assert(is_bundle_of_features::<V>(fs, acc.accumulator()));
        }
        Some(acc)
    }

    /// Bundle the features of each row, from the first column to the last, into a
    /// payload of type `T`; `None` for a row without features.
    pub fn bundle_rows<T: VectorType<V>>(&self) -> (r: Vec<Option<Vector<S, V, T>>>)
        requires
            self.wf(),
            self.spec_width() > 0,
            self.spec_width() <= V::max_weight(),
        ensures
            r@.len() == self.spec_height(),
            forall|y: int| 0 <= y < r@.len() ==> self.is_row_bundle(y, #[trigger] r@[y]),
    {
        let mut out: Vec<Option<Vector<S, V, T>>> = Vec::new();
        let mut y: usize = 0;
        while y < self.height
            invariant
                self.wf(),
                self.spec_width() <= V::max_weight(),
                y <= self.height,
                out@.len() == y,
                forall|z: int| 0 <= z < y ==> self.is_row_bundle(z, #[trigger] out@[z]),
            decreases self.height - y,
        {
            let features = self.features(y);
            proof {
                lemma_present_len(Seq::new(self.spec_width(), |x: int| self.feature(x, y as int)));
                assert(features@.len() == self.row_features(y as int).len());
            }
            let row = match self.bundle_features(features) {
                Some(acc) => {
                    let ghost a = acc.accumulator();
                    let v = acc.convert::<T>();
                    proof {
                        assert(is_bundle_of_features::<V>(self.row_features(y as int), a));
                    }
                    Some(v)
                },
                None => None,
            };
            out.push(row);
            y = y + 1;
        }
        out
    }

    /// Whether `r` is the bundle of the features of row `y`, as a payload of type `T`.
    pub open spec fn is_row_bundle<T: VectorType<V>>(&self, y: int, r: Option<Vector<S, V, T>>) -> bool {
        match r {
            None => self.row_features(y).len() == 0,
            Some(v) => {
                &&& self.row_features(y).len() > 0
                &&& v.spec_size() == self.spec_storage().spec_size()
                &&& v.payload().weight() <= self.row_features(y).len()
                &&& exists|acc: V::Accumulator|
                    is_bundle_of_features::<V>(self.row_features(y), acc) && T::made_from(acc, v.payload())
            },
        }
    }

    /// Bundle the present vectors, each taken as an accumulator, one after the other
    /// onto the first, into a payload of type `T2`; `None` where none is present.
    fn bundle_vectors<T1: VectorType<V>, T2: VectorType<V>>(
        &self,
        rows: Vec<Option<Vector<S, V, T1>>>,
        Ghost(bound): Ghost<nat>,
    ) -> (r: Option<Vector<S, V, T2>>)
        requires
            self.wf(),
            rows@.len() * bound <= V::max_weight(),
            forall|y: int| 0 <= y < rows@.len() ==> (#[trigger] rows@[y] matches Some(v) ==> v.spec_size() == self.spec_storage().spec_size() && v.payload().weight() <= bound),
        ensures
            is_bundle_of_rows(rows@, r),
            r matches Some(v) ==> v.spec_size() == self.spec_storage().spec_size(),
    {
        let ghost rs = rows@;
        let ghost size = self.spec_storage().spec_size();
        let ghost w = bound;
        proof {
            lemma_present_all(rs, |v: Vector<S, V, T1>| v.spec_size() == size && v.payload().weight() <= w);
            lemma_present_len(rs);
        }
        let mut vectors = present_vectors(rows);
        let ghost vs = vectors@;
        if vectors.len() == 0 {
            return None;
        }
        let n = vectors.len();
        let first = vectors.remove(0);
        let mut acc = first.into_not_normalized();
        let ghost mut parts: Seq<V::Accumulator> = seq![acc.accumulator()];
        let ghost mut steps: Seq<V::Accumulator> = seq![acc.accumulator()];
        let mut k: usize = 1;
        proof {
            assert(vs.len() * w <= V::max_weight()) by (nonlinear_arith)
                requires
                    vs.len() <= rs.len(),
                    rs.len() * w <= V::max_weight(),
            ;
        }
        while vectors.len() > 0
            invariant
                1 <= k <= vs.len(),
                n == vs.len(),
                k + vectors@.len() == vs.len(),
                vectors@ == vs.skip(k as int),
                vs.len() * w <= V::max_weight(),
                forall|m: int| 0 <= m < vs.len() ==> (#[trigger] vs[m]).spec_size() == size && vs[m].payload().weight() <= w,
                acc.spec_size() == size,
                V::weight(acc.accumulator()) <= k * w,
                parts.len() == k,
                forall|i: int| 0 <= i < k ==> vs[i].payload().accumulates(#[trigger] parts[i]),
                merge_chain::<V>(parts, steps),
                steps.last() == acc.accumulator(),
            decreases vectors@.len(),
        {
            let next_vector = vectors.remove(0);
            proof {
                assert(next_vector == vs[k as int]);
                assert((k + 1) * w == k * w + w) by (nonlinear_arith);
                assert((k + 1) * w <= vs.len() * w) by (nonlinear_arith)
                    requires
                        k + 1 <= vs.len(),
                ;
                assert(vectors@ =~= vs.skip(k + 1));
            }
            let part = next_vector.into_not_normalized();
            let ghost prev = acc.accumulator();
            let next = acc.merge(&part);
            proof {
                parts = parts.push(part.accumulator());
                steps = steps.push(next.accumulator());
            }
            acc = next;
            k = k + 1;
        }
        let ghost a = acc.accumulator();
        let r = acc.convert::<T2>();
        proof {
            assert(merged::<V>(parts, a));
            assert(is_merge_of(vs, a));
            assert(vs == present(rs));
            assert(is_merge_of(present(rs), a) && T2::made_from(a, r.payload()));
        }
        Some(r)
    }

    /// Bundle the bundles of the rows, as payloads of type `T1`, into a payload of type
    /// `T2`, leaving out the rows without features; `None` where no row has features.
    pub fn bundle_dataset<T1: VectorType<V>, T2: VectorType<V>>(&self) -> (r: Option<Vector<S, V, T2>>)
        requires
            self.wf(),
            self.spec_width() > 0,
            self.spec_width() * self.spec_height() <= V::max_weight(),
        ensures
            exists|rows: Seq<Option<Vector<S, V, T1>>>|
                rows.len() == self.spec_height() && (forall|y: int|
                    0 <= y < rows.len() ==> self.is_row_bundle(y, #[trigger] rows[y]))
                    && is_bundle_of_rows(rows, r),
    {
        proof {
            assert(self.spec_width() <= self.spec_width() * self.spec_height() || self.spec_height() == 0) by (nonlinear_arith);
        }
        let rows = if self.height == 0 {
            Vec::new()
        } else {
            self.bundle_rows::<T1>()
        };
        let ghost rs = rows@;
        proof {
            lemma_present_len(rs);
            assert(rs.len() * self.spec_width() == self.spec_width() * self.spec_height()) by (nonlinear_arith)
                requires
                    rs.len() == self.spec_height(),
            ;
            assert forall|y: int| 0 <= y < rs.len() implies (#[trigger] rs[y] matches Some(v) ==> v.spec_size() == self.spec_storage().spec_size() && v.payload().weight() <= self.spec_width()) by {
                if rs[y] is Some {
                    assert(self.is_row_bundle(y, rs[y]));
                    lemma_present_len(Seq::new(self.spec_width(), |x: int| self.feature(x, y)));
                }
            }
        }
        self.bundle_vectors::<T1, T2>(rows, Ghost(self.spec_width()))
    }

    /// Bind the normalized bundles of the rows, from the first to the last, leaving out
    /// the rows without features; `None` where no row has features.
    pub fn bind_dataset(&self) -> (r: Option<Vector<S, V, Normalized<V>>>)
        requires
            self.wf(),
            self.spec_width() > 0,
            self.spec_width() <= V::max_weight(),
        ensures
            exists|rows: Seq<Option<Vector<S, V, Normalized<V>>>>|
                rows.len() == self.spec_height() && (forall|y: int|
                    0 <= y < rows.len() ==> self.is_row_bundle(y, #[trigger] rows[y]))
                    && is_binding_of(rows, r),
    {
        let rows = self.bundle_rows::<Normalized<V>>();
        let ghost rs = rows@;
        let ghost size = self.spec_storage().spec_size();
        proof {
            assert forall|y: int| 0 <= y < rs.len() implies (#[trigger] rs[y] matches Some(v) ==> v.spec_size() == size) by {
                assert(self.is_row_bundle(y, rs[y]));
            }
            lemma_present_all(rs, |v: Vector<S, V, Normalized<V>>| v.spec_size() == size);
        }
        let features = present_vectors(rows);
        let r = bind_vectors(features);
        assert(is_binding_of(rs, r));
        r
    }

    /// Bundle the bindings of all combinations of the features of a row: of one
    /// feature, then of two, and so on up to `ways` features, each level in
    /// lexicographic order; `None` where there is no such combination.
    #[verifier::rlimit(40)]
    fn combinatorial_row(&self, features: Vec<Vector<S, V>>, ways: usize) -> (r: Option<
        Vector<S, V, NotNormalized<V>>,
    >)
        requires
            self.wf(),
            forall|k: int| 0 <= k < features@.len() ==> (#[trigger] features@[k]).spec_size() == self.spec_storage().spec_size(),
            combination_count(features@.len(), ways as nat) <= V::max_weight(),
        ensures
            self.is_combination_of(features@.map_values(|v: Vector<S, V>| v.values()), ways as nat, r),
    {
        let ghost fv = features@.map_values(|v: Vector<S, V>| v.values());
        let ghost size = self.spec_storage().spec_size();
        let n = features.len();
        let m = if ways < n {
            ways
        } else {
            n
        };
        let mut acc: Option<Vector<S, V, NotNormalized<V>>> = None;
        let ghost mut done: Seq<Seq<int>> = Seq::empty();
        let ghost mut parts: Seq<V::Accumulator> = Seq::empty();
        let ghost mut steps: Seq<V::Accumulator> = Seq::empty();
        proof {
            lemma_combination_terms_len::<V>(fv, ways as nat);
        }
        let mut lvl: usize = 0;
        while lvl < m
            invariant
                self.wf(),
                m <= n,
                m <= ways,
                n == features@.len(),
                fv == features@.map_values(|v: Vector<S, V>| v.values()),
                forall|k: int| 0 <= k < features@.len() ==> (#[trigger] features@[k]).spec_size() == size,
                size == self.spec_storage().spec_size(),
                combination_terms::<V>(fv, ways as nat).len() <= V::max_weight(),
                lvl <= m,
                done == combination_terms::<V>(fv, lvl as nat),
                parts.len() == done.len(),
                forall|i: int| 0 <= i < parts.len() ==> V::denormalizes_to(done[i], #[trigger] parts[i]),
                match acc {
                    None => done.len() == 0,
                    Some(a) => {
                        &&& done.len() > 0
                        &&& merge_chain::<V>(parts, steps)
                        &&& steps.last() == a.accumulator()
                        &&& V::weight(a.accumulator()) <= done.len()
                        &&& a.spec_size() == size
                    },
                },
            decreases m - lvl,
        {
            let k = lvl + 1;
            let mut current: Vec<usize> = Vec::new();
            let mut combos: Vec<Vec<usize>> = Vec::new();
            combine(0, n, k, &mut current, &mut combos);
            let ghost all = combos_from(0, n as nat, k as nat);
            let ghost lv = level::<V>(fv, k as nat);
            let ghost base = done;
            proof {
                assert(index_lists(combos@) =~= all) by {
                    assert forall|c: int| 0 <= c < all.len() implies indices_of(Seq::<usize>::empty()) + all[c]
                        =~= all[c] by {}
                }
                lemma_combos_shape(0, n as nat, k as nat);
                lemma_combination_terms_grow::<V>(fv, k as nat, ways as nat);
                assert(combination_terms::<V>(fv, k as nat) == base + lv);
            }
            let mut j: usize = 0;
            while j < combos.len()
                invariant
                    self.wf(),
                    1 <= k <= n,
                    n == features@.len(),
                    fv == features@.map_values(|v: Vector<S, V>| v.values()),
                    forall|i: int| 0 <= i < features@.len() ==> (#[trigger] features@[i]).spec_size() == size,
                    size == self.spec_storage().spec_size(),
                    all == combos_from(0, n as nat, k as nat),
                    lv == level::<V>(fv, k as nat),
                    index_lists(combos@) == all,
                    forall|c: int|
                        0 <= c < all.len() ==> (#[trigger] all[c]).len() == k && forall|i: int|
                            0 <= i < k ==> 0 <= #[trigger] all[c][i] < n,
                    base.len() + lv.len() <= V::max_weight(),
                    j <= combos@.len(),
                    done == base + lv.take(j as int),
                    parts.len() == done.len(),
                    forall|i: int| 0 <= i < parts.len() ==> V::denormalizes_to(done[i], #[trigger] parts[i]),
                    match acc {
                        None => done.len() == 0,
                        Some(a) => {
                            &&& done.len() > 0
                            &&& merge_chain::<V>(parts, steps)
                            &&& steps.last() == a.accumulator()
                            &&& V::weight(a.accumulator()) <= done.len()
                            &&& a.spec_size() == size
                        },
                    },
                decreases combos@.len() - j,
            {
                proof {
                    assert(index_lists(combos@)[j as int] == indices_of(combos@[j as int]@));
                    assert forall|i: int| 0 <= i < combos@[j as int]@.len() implies #[trigger] combos@[j as int]@[i]
                        < features@.len() by {
                        assert(indices_of(combos@[j as int]@)[i] == all[j as int][i]);
                    }
                }
                let term = bind_combination_of(&features, &combos[j]);
                let part = term.denormalize();
                proof {
                    assert(term.values() == lv[j as int]);
                }
                let ghost old_done = done;
                acc = match acc {
                    None => {
                        proof {
                            steps = seq![part.accumulator()];
                        }
                        Some(part)
                    },
                    Some(a) => {
                        let next = a.merge(&part);
                        proof {
                            steps = steps.push(next.accumulator());
                        }
                        Some(next)
                    },
                };
                proof {
                    done = done.push(lv[j as int]);
                    parts = parts.push(part.accumulator());
                    assert(done =~= base + lv.take(j + 1));
                }
                j = j + 1;
            }
            proof {
                assert(lv.take(combos@.len() as int) =~= lv);
            }
            lvl = k;
        }
        proof {
            if ways as nat > n as nat {
                lemma_combination_terms_saturate::<V>(fv, ways as nat);
            }
            if acc is Some {
                assert(merged::<V>(parts, acc->0.accumulator()));
            }
        }
        acc
    }

    /// Whether `r` bundles the bindings of all combinations of `features` up to `ways`.
    pub open spec fn is_combination_of(
        &self,
        features: Seq<Seq<int>>,
        ways: nat,
        r: Option<Vector<S, V, NotNormalized<V>>>,
    ) -> bool {
        let terms = combination_terms::<V>(features, ways);
        match r {
            None => terms.len() == 0,
            Some(v) => {
                &&& terms.len() > 0
                &&& is_bundle_of_features::<V>(terms, v.accumulator())
                &&& V::weight(v.accumulator()) <= terms.len()
                &&& v.spec_size() == self.spec_storage().spec_size()
            },
        }
    }

    /// For each row, bundle the bindings of all combinations of its features: of one
    /// feature, then of two, and so on up to `ways` features; `None` for a row without
    /// such combinations.
    pub fn bundle_rows_combinatorial(&self, ways: usize) -> (r: Vec<Option<Vector<S, V, NotNormalized<V>>>>)
        requires
            self.wf(),
            self.spec_width() > 0,
            combination_count(self.spec_width(), ways as nat) <= V::max_weight(),
        ensures
            r@.len() == self.spec_height(),
            forall|y: int|
                0 <= y < r@.len() ==> self.is_combination_of(self.row_features(y), ways as nat, #[trigger] r@[y]),
    {
        let mut out: Vec<Option<Vector<S, V, NotNormalized<V>>>> = Vec::new();
        let mut y: usize = 0;
        while y < self.height
            invariant
                self.wf(),
                combination_count(self.spec_width(), ways as nat) <= V::max_weight(),
                y <= self.height,
                out@.len() == y,
                forall|z: int|
                    0 <= z < y ==> self.is_combination_of(self.row_features(z), ways as nat, #[trigger] out@[z]),
            decreases self.height - y,
        {
            let features = self.features(y);
            proof {
                lemma_present_len(Seq::new(self.spec_width(), |x: int| self.feature(x, y as int)));
                assert(features@.len() == self.row_features(y as int).len());
                lemma_combination_count_monotone(features@.len(), self.spec_width(), ways as nat);
            }
            let row = self.combinatorial_row(features, ways);
            out.push(row);
            y = y + 1;
        }
        out
    }

    /// Bundle the combinatorial bundles of the rows, leaving out the rows without
    /// combinations; `None` where no row has any.
    pub fn bundle_dataset_combinatorial(&self, ways: usize) -> (r: Option<Vector<S, V, NotNormalized<V>>>)
        requires
            self.wf(),
            self.spec_width() > 0,
            self.spec_height() * combination_count(self.spec_width(), ways as nat) <= V::max_weight(),
        ensures
            exists|rows: Seq<Option<Vector<S, V, NotNormalized<V>>>>|
                rows.len() == self.spec_height() && (forall|y: int|
                    0 <= y < rows.len() ==> self.is_combination_of(self.row_features(y), ways as nat, #[trigger] rows[y]))
                    && is_bundle_of_rows(rows, r),
    {
        let ghost bound = combination_count(self.spec_width(), ways as nat);
        proof {
            assert(bound <= self.spec_height() * bound || self.spec_height() == 0) by (nonlinear_arith);
        }
        let rows = if self.height == 0 {
            Vec::new()
        } else {
            self.bundle_rows_combinatorial(ways)
        };
        let ghost rs = rows@;
        proof {
            assert(rs.len() * bound == self.spec_height() * bound) by (nonlinear_arith)
                requires
                    rs.len() == self.spec_height(),
            ;
            assert forall|y: int| 0 <= y < rs.len() implies (#[trigger] rs[y] matches Some(v) ==> v.spec_size() == self.spec_storage().spec_size() && v.payload().weight() <= bound) by {
                if rs[y] is Some {
                    let fv = self.row_features(y);
                    lemma_present_len(Seq::new(self.spec_width(), |x: int| self.feature(x, y)));
                    lemma_combination_terms_len::<V>(fv, ways as nat);
                    lemma_combination_count_monotone(fv.len(), self.spec_width(), ways as nat);
                }
            }
        }
        self.bundle_vectors::<NotNormalized<V>, NotNormalized<V>>(rows, Ghost(bound))
    }

    /// Bind the features of each row, from the first column to the last; `None` for a
    /// row without features.
    pub fn bind_rows(&self) -> (r: Vec<Option<Vector<S, V, Normalized<V>>>>)
        requires
            self.wf(),
            self.spec_width() > 0,
        ensures
            r@.len() == self.spec_height(),
            forall|y: int| 0 <= y < r@.len() ==> self.is_row_binding(y, #[trigger] r@[y]),
    {
        let mut out: Vec<Option<Vector<S, V, Normalized<V>>>> = Vec::new();
        let mut y: usize = 0;
        while y < self.height
            invariant
                self.wf(),
                y <= self.height,
                out@.len() == y,
                forall|z: int| 0 <= z < y ==> self.is_row_binding(z, #[trigger] out@[z]),
            decreases self.height - y,
        {
            let features = self.features(y);
            out.push(bind_vectors(features));
            y = y + 1;
        }
        out
    }

    /// Whether `r` is the binding of the features of row `y`.
    pub open spec fn is_row_binding(&self, y: int, r: Option<Vector<S, V, Normalized<V>>>) -> bool {
        match r {
            None => self.row_features(y).len() == 0,
            Some(v) => {
                &&& self.row_features(y).len() > 0
                &&& v.values() == bind_all::<V>(self.row_features(y))
                &&& v.spec_size() == self.spec_storage().spec_size()
            },
        }
    }

    /// Bind the bindings of the rows, from the first to the last, leaving out the rows
    /// without features; `None` where no row has features.
    pub fn bind_entire_dataset(&self) -> (r: Option<Vector<S, V, Normalized<V>>>)
        requires
            self.wf(),
            self.spec_width() > 0,
        ensures
            exists|rows: Seq<Option<Vector<S, V, Normalized<V>>>>|
                rows.len() == self.spec_height() && (forall|y: int|
                    0 <= y < rows.len() ==> self.is_row_binding(y, #[trigger] rows[y]))
                    && is_binding_of(rows, r),
    {
        let rows = self.bind_rows();
        let ghost rs = rows@;
        let ghost size = self.spec_storage().spec_size();
        proof {
            lemma_present_all(rs, |v: Vector<S, V, Normalized<V>>| v.spec_size() == size);
        }
        let features = present_vectors(rows);
        let r = bind_vectors(features);
        assert(is_binding_of(rs, r));
        r
    }

    /// The number of columns.
    pub fn width(&self) -> (n: usize)
        ensures
            n == self.spec_width(),
    {
        self.width
    }

    /// The number of rows.
    pub fn height(&self) -> (n: usize)
        ensures
            n == self.spec_height(),
    {
        self.height
    }
}

} // verus!
