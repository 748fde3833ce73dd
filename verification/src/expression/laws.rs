//! Laws of expressions: equality up to operand order, and parsing what was rendered.

use vstd::prelude::*;

use super::parser::{
    is_name_char, is_space, is_symbol, name_prefix, parse_primary, parse_product, parse_sum,
    parse_text, product_tail, sum_of_terms, sum_tail, tokens, TokenSeq,
};
use super::{display, display_terms, equivalent, ExpressionView};

verus! {

/// Equivalence of expressions is reflexive.
pub proof fn lemma_equivalent_reflexive(a: ExpressionView)
    ensures
        equivalent(a, a),
    decreases a,
{
    match a {
        ExpressionView::Value(_) => {},
        ExpressionView::Plus(xs) => {
            assert forall|i: int| 0 <= i < xs.len() implies equivalent(#[trigger] xs[i], xs[i]) by {
                lemma_equivalent_reflexive(xs[i]);
            }
        },
        ExpressionView::Mul(l, r) => {
            lemma_equivalent_reflexive(*l);
            lemma_equivalent_reflexive(*r);
        },
    }
}

/// Equivalence of expressions is symmetric.
pub proof fn lemma_equivalent_symmetric(a: ExpressionView, b: ExpressionView)
    requires
        equivalent(a, b),
    ensures
        equivalent(b, a),
    decreases a,
{
    match (a, b) {
        (ExpressionView::Plus(xs), ExpressionView::Plus(ys)) => {
            if forall|i: int| 0 <= i < xs.len() ==> equivalent(#[trigger] xs[i], ys[i]) {
                assert forall|i: int| 0 <= i < ys.len() implies equivalent(#[trigger] ys[i], xs[i]) by {
                    lemma_equivalent_symmetric(xs[i], ys[i]);
                }
            } else {
                lemma_equivalent_symmetric(xs[0], ys[1]);
                lemma_equivalent_symmetric(xs[1], ys[0]);
            }
        },
        (ExpressionView::Mul(l1, r1), ExpressionView::Mul(l2, r2)) => {
            if equivalent(*l1, *l2) && equivalent(*r1, *r2) {
                lemma_equivalent_symmetric(*l1, *l2);
                lemma_equivalent_symmetric(*r1, *r2);
            } else {
                lemma_equivalent_symmetric(*l1, *r2);
                lemma_equivalent_symmetric(*r1, *l2);
            }
        },
        _ => {},
    }
}

/// Equivalence of expressions is transitive.
pub proof fn lemma_equivalent_transitive(a: ExpressionView, b: ExpressionView, c: ExpressionView)
    requires
        equivalent(a, b),
        equivalent(b, c),
    ensures
        equivalent(a, c),
    decreases a,
{
    match (a, b, c) {
        (ExpressionView::Plus(xs), ExpressionView::Plus(ys), ExpressionView::Plus(zs)) => {
            let straight_ab = forall|i: int| 0 <= i < xs.len() ==> equivalent(#[trigger] xs[i], ys[i]);
            let straight_bc = forall|i: int| 0 <= i < ys.len() ==> equivalent(#[trigger] ys[i], zs[i]);
            if straight_ab && straight_bc {
                assert forall|i: int| 0 <= i < xs.len() implies equivalent(#[trigger] xs[i], zs[i]) by {
                    lemma_equivalent_transitive(xs[i], ys[i], zs[i]);
                }
            } else if straight_ab {
                assert(equivalent(xs[0], ys[0]) && equivalent(xs[1], ys[1]));
                lemma_equivalent_transitive(xs[0], ys[0], zs[1]);
                lemma_equivalent_transitive(xs[1], ys[1], zs[0]);
            } else if straight_bc {
                assert(equivalent(ys[0], zs[0]) && equivalent(ys[1], zs[1]));
                lemma_equivalent_transitive(xs[0], ys[1], zs[1]);
                lemma_equivalent_transitive(xs[1], ys[0], zs[0]);
            } else {
                lemma_equivalent_transitive(xs[0], ys[1], zs[0]);
                lemma_equivalent_transitive(xs[1], ys[0], zs[1]);
                assert forall|i: int| 0 <= i < xs.len() implies equivalent(#[trigger] xs[i], zs[i]) by {
                    if i == 0 {
                    } else {
                        assert(i == 1);
                    }
                }
            }
        },
        (
            ExpressionView::Mul(l1, r1),
            ExpressionView::Mul(l2, r2),
            ExpressionView::Mul(l3, r3),
        ) => {
            if equivalent(*l1, *l2) && equivalent(*r1, *r2) {
                if equivalent(*l2, *l3) && equivalent(*r2, *r3) {
                    lemma_equivalent_transitive(*l1, *l2, *l3);
                    lemma_equivalent_transitive(*r1, *r2, *r3);
                } else {
                    lemma_equivalent_transitive(*l1, *l2, *r3);
                    lemma_equivalent_transitive(*r1, *r2, *l3);
                }
            } else {
                if equivalent(*l2, *l3) && equivalent(*r2, *r3) {
                    lemma_equivalent_transitive(*l1, *r2, *r3);
                    lemma_equivalent_transitive(*r1, *l2, *l3);
                } else {
                    lemma_equivalent_transitive(*l1, *r2, *l3);
                    lemma_equivalent_transitive(*r1, *l2, *r3);
                }
            }
        },
        _ => {},
    }
}

/// Two names are equal as expressions exactly when they are the same name, and a name
/// is never equal to a sum or a product.
pub proof fn lemma_names_equal_exactly_when_same(x: Seq<char>, y: Seq<char>, e: ExpressionView)
    ensures
        equivalent(ExpressionView::Value(x), ExpressionView::Value(y)) <==> x == y,
        !(e is Value) ==> !equivalent(ExpressionView::Value(x), e) && !equivalent(e, ExpressionView::Value(x)),
{
}

/// Equal sums have the same number of terms, and every term of one is equal to some
/// term of the other.
pub proof fn lemma_equal_sums_match_terms(xs: Seq<ExpressionView>, ys: Seq<ExpressionView>)
    requires
        equivalent(ExpressionView::Plus(xs), ExpressionView::Plus(ys)),
    ensures
        xs.len() == ys.len(),
        forall|i: int| 0 <= i < xs.len() ==> exists|j: int| 0 <= j < ys.len() && equivalent(#[trigger] xs[i], ys[j]),
{
    if forall|i: int| 0 <= i < xs.len() ==> equivalent(#[trigger] xs[i], ys[i]) {
        assert forall|i: int| 0 <= i < xs.len() implies exists|j: int| 0 <= j < ys.len() && equivalent(
            #[trigger] xs[i],
            ys[j],
        ) by {
            assert(equivalent(xs[i], ys[i]));
        }
    } else {
        assert forall|i: int| 0 <= i < xs.len() implies exists|j: int| 0 <= j < ys.len() && equivalent(
            #[trigger] xs[i],
            ys[j],
        ) by {
            if i == 0 {
                assert(equivalent(xs[0], ys[1]));
            } else {
                assert(equivalent(xs[1], ys[0]));
            }
        }
    }
}

/// Equal expressions have renderings of the same length: they differ at most in the
/// order of operands.
pub proof fn lemma_equal_renderings_have_same_length(a: ExpressionView, b: ExpressionView)
    requires
        equivalent(a, b),
    ensures
        display(a).len() == display(b).len(),
    decreases a, 1nat,
{
    match (a, b) {
        (ExpressionView::Plus(xs), ExpressionView::Plus(ys)) => {
            if forall|i: int| 0 <= i < xs.len() ==> equivalent(#[trigger] xs[i], ys[i]) {
                lemma_equal_terms_render_alike(xs, ys, xs.len() as int);
            } else {
                lemma_equal_renderings_have_same_length(xs[0], ys[1]);
                lemma_equal_renderings_have_same_length(xs[1], ys[0]);
                assert(xs.len() == 2 && ys.len() == 2);
                assert(display_terms(xs, 1) == display(xs[0]));
                assert(display_terms(ys, 1) == display(ys[0]));
                assert(display_terms(xs, 2) == display_terms(xs, 1) + seq![' ', '+', ' '] + display(xs[1]));
                assert(display_terms(ys, 2) == display_terms(ys, 1) + seq![' ', '+', ' '] + display(ys[1]));
            }
        },
        (ExpressionView::Mul(l1, r1), ExpressionView::Mul(l2, r2)) => {
            if equivalent(*l1, *l2) && equivalent(*r1, *r2) {
                lemma_equal_renderings_have_same_length(*l1, *l2);
                lemma_equal_renderings_have_same_length(*r1, *r2);
            } else {
                lemma_equal_renderings_have_same_length(*l1, *r2);
                lemma_equal_renderings_have_same_length(*r1, *l2);
            }
        },
        _ => {},
    }
}

proof fn lemma_equal_terms_render_alike(xs: Seq<ExpressionView>, ys: Seq<ExpressionView>, n: int)
    requires
        xs.len() == ys.len(),
        0 <= n <= xs.len(),
        forall|i: int| 0 <= i < xs.len() ==> equivalent(#[trigger] xs[i], ys[i]),
    ensures
        display_terms(xs, n).len() == display_terms(ys, n).len(),
    decreases xs, n,
{
    if n >= 1 {
        assert(equivalent(xs[n - 1], ys[n - 1]));
        lemma_equal_renderings_have_same_length(xs[n - 1], ys[n - 1]);
        if n > 1 {
            lemma_equal_terms_render_alike(xs, ys, n - 1);
        }
    }
}

/// A sum of two terms is equal to the sum with its terms swapped, and a product to the
/// product with its operands swapped.
pub proof fn lemma_operands_commute(a: ExpressionView, b: ExpressionView)
    ensures
        equivalent(ExpressionView::Plus(seq![a, b]), ExpressionView::Plus(seq![b, a])),
        equivalent(
            ExpressionView::Mul(Box::new(a), Box::new(b)),
            ExpressionView::Mul(Box::new(b), Box::new(a)),
        ),
{
    lemma_equivalent_reflexive(a);
    lemma_equivalent_reflexive(b);
    assert(seq![a, b][0] == a && seq![a, b][1] == b);
    assert(seq![b, a][0] == b && seq![b, a][1] == a);
}

/// Every name in the expression is a non-empty run of name characters, and every sum
/// has at least two terms: the expressions that parsing can give.
pub open spec fn well_named(e: ExpressionView) -> bool
    decreases e,
{
    match e {
        ExpressionView::Value(s) => s.len() > 0 && forall|i: int|
            0 <= i < s.len() ==> is_name_char(#[trigger] s[i]),
        ExpressionView::Plus(xs) => xs.len() >= 2 && forall|i: int|
            0 <= i < xs.len() ==> well_named(#[trigger] xs[i]),
        ExpressionView::Mul(l, r) => well_named(*l) && well_named(*r),
    }
}

/// The tokens of the rendering of an expression.
pub open spec fn token_form(e: ExpressionView) -> TokenSeq
    decreases e, 1nat,
{
    match e {
        ExpressionView::Value(s) => seq![s],
        ExpressionView::Plus(xs) => seq![seq!['(']] + terms_form(xs, xs.len() as int) + seq![
            seq![')'],
        ],
        ExpressionView::Mul(l, r) => seq![seq!['(']] + token_form(*l) + seq![seq!['*']]
            + token_form(*r) + seq![seq![')']],
    }
}

/// The tokens of the first `n` terms of a sum, joined by `+`.
pub open spec fn terms_form(xs: Seq<ExpressionView>, n: int) -> TokenSeq
    decreases xs, n,
{
    if n <= 0 || n > xs.len() {
        Seq::empty()
    } else if n == 1 {
        token_form(xs[0])
    } else {
        terms_form(xs, n - 1) + seq![seq!['+']] + token_form(xs[n - 1])
    }
}

proof fn lemma_name_prefix_concat(x: Seq<char>, y: Seq<char>)
    ensures
        name_prefix(x + y) == if name_prefix(x).len() < x.len() {
            name_prefix(x)
        } else {
            x + name_prefix(y)
        },
    decreases x.len(),
{
    if x.len() == 0 {
        assert(x + y =~= y);
        assert(x + name_prefix(y) =~= name_prefix(y));
    } else {
        assert((x + y)[0] == x[0]);
        assert((x + y).drop_first() =~= x.drop_first() + y);
        if is_name_char(x[0]) {
            lemma_name_prefix_concat(x.drop_first(), y);
            if name_prefix(x).len() >= x.len() {
                assert(seq![x[0]] + (x.drop_first() + name_prefix(y)) =~= x + name_prefix(y));
            }
        }
    }
}

proof fn lemma_all_name_chars(s: Seq<char>)
    requires
        forall|i: int| 0 <= i < s.len() ==> is_name_char(#[trigger] s[i]),
    ensures
        name_prefix(s) == s,
    decreases s.len(),
{
    if s.len() > 0 {
        assert forall|i: int| 0 <= i < s.drop_first().len() implies is_name_char(
            #[trigger] s.drop_first()[i],
        ) by {
            assert(s.drop_first()[i] == s[i + 1]);
        }
        lemma_all_name_chars(s.drop_first());
        assert(seq![s[0]] + s.drop_first() =~= s);
    } else {
        assert(s =~= Seq::<char>::empty());
    }
}

/// Tokenizing a concatenation tokenizes the parts, when no name runs across the seam.
proof fn lemma_tokens_concat(x: Seq<char>, y: Seq<char>)
    requires
        x.len() == 0 || !is_name_char(x.last()) || y.len() == 0 || !is_name_char(y[0]),
    ensures
        tokens(x + y) == tokens(x) + tokens(y),
    decreases x.len(),
{
    if x.len() == 0 {
        assert(x + y =~= y);
        assert(tokens(x) =~= Seq::<Seq<char>>::empty());
        assert(tokens(x) + tokens(y) =~= tokens(y));
    } else {
        let xy = x + y;
        assert(xy[0] == x[0]);
        assert(xy.drop_first() =~= x.drop_first() + y);
        if x.drop_first().len() > 0 {
            assert(x.drop_first().last() == x.last());
        }
        if is_space(x[0]) {
            lemma_tokens_concat(x.drop_first(), y);
        } else if is_symbol(x[0]) {
            lemma_tokens_concat(x.drop_first(), y);
            assert(seq![seq![x[0]]] + (tokens(x.drop_first()) + tokens(y)) =~= seq![seq![x[0]]]
                + tokens(x.drop_first()) + tokens(y));
        } else {
            super::parser::lemma_name_prefix(x);
            super::parser::lemma_name_prefix(y);
            lemma_name_prefix_concat(x, y);
            let w = name_prefix(x);
            if w.len() >= x.len() {
                assert(w.len() == x.len());
                assert(is_name_char(x[x.len() - 1]));
                assert(name_prefix(y).len() == 0);
                assert(x + name_prefix(y) =~= x);
            }
            assert(name_prefix(xy) == w);
            assert(xy.skip(w.len() as int) =~= x.skip(w.len() as int) + y);
            if x.skip(w.len() as int).len() > 0 {
                assert(x.skip(w.len() as int).last() == x.last());
            }
            lemma_tokens_concat(x.skip(w.len() as int), y);
            assert(seq![w] + (tokens(x.skip(w.len() as int)) + tokens(y)) =~= seq![w] + tokens(
                x.skip(w.len() as int),
            ) + tokens(y));
        }
    }
}

/// Inserting whitespace leaves the tokens unchanged where it does not split a name:
/// next to a symbol, next to other whitespace, or at either end.
pub proof fn lemma_tokens_space(x: Seq<char>, w: Seq<char>, y: Seq<char>)
    requires
        forall|i: int| 0 <= i < w.len() ==> is_space(#[trigger] w[i]),
        x.len() == 0 || y.len() == 0 || !is_name_char(x.last()) || !is_name_char(y[0]),
    ensures
        tokens(x + w + y) == tokens(x + y),
{
    lemma_tokens_all_space(w);
    if w.len() == 0 {
        assert(x + w + y =~= x + y);
    } else {
        assert(x + w + y =~= x + (w + y));
        assert((w + y)[0] == w[0]);
        lemma_tokens_concat(x, w + y);
        lemma_tokens_concat(w, y);
        lemma_tokens_concat(x, y);
        assert(tokens(x) + (Seq::<Seq<char>>::empty() + tokens(y)) =~= tokens(x) + tokens(y));
    }
}

proof fn lemma_tokens_all_space(w: Seq<char>)
    requires
        forall|i: int| 0 <= i < w.len() ==> is_space(#[trigger] w[i]),
    ensures
        tokens(w) == Seq::<Seq<char>>::empty(),
    decreases w.len(),
{
    if w.len() > 0 {
        assert forall|i: int| 0 <= i < w.drop_first().len() implies is_space(#[trigger] w.drop_first()[i]) by {
            assert(w.drop_first()[i] == w[i + 1]);
        }
        lemma_tokens_all_space(w.drop_first());
        assert(is_space(w[0]));
    }
}

/// Whitespace inserted next to a symbol, next to other whitespace or at either end of
/// a text leaves what parsing gives unchanged.
pub proof fn lemma_parse_ignores_space(x: Seq<char>, w: Seq<char>, y: Seq<char>)
    requires
        forall|i: int| 0 <= i < w.len() ==> is_space(#[trigger] w[i]),
        x.len() == 0 || y.len() == 0 || !is_name_char(x.last()) || !is_name_char(y[0]),
    ensures
        parse_text(x + w + y) == parse_text(x + y),
{
    lemma_tokens_space(x, w, y);
}

/// The pieces one after another.
pub open spec fn joined(pieces: Seq<Seq<char>>) -> Seq<char>
    decreases pieces.len(),
{
    if pieces.len() == 0 {
        Seq::empty()
    } else {
        joined(pieces.drop_last()) + pieces.last()
    }
}

/// The pieces with the run `runs[i]` before piece `i` and the last run after the last
/// piece (`runs` has one more element than `pieces`).
pub open spec fn spaced(pieces: Seq<Seq<char>>, runs: Seq<Seq<char>>) -> Seq<char>
    decreases pieces.len(),
{
    if pieces.len() == 0 {
        if runs.len() > 0 {
            runs[0]
        } else {
            Seq::empty()
        }
    } else {
        spaced(pieces.drop_last(), runs.drop_last()) + pieces.last() + runs.last()
    }
}

/// Whether whitespace runs may stand between the pieces without splitting a name:
/// every run is whitespace, every piece is non-empty, and of two neighbouring pieces
/// one ends or the next begins with a character that is not a name character.
pub open spec fn spacing_allowed(pieces: Seq<Seq<char>>, runs: Seq<Seq<char>>) -> bool {
    &&& runs.len() == pieces.len() + 1
    &&& forall|k: int, i: int| 0 <= k < runs.len() && 0 <= i < runs[k].len() ==> is_space(#[trigger] runs[k][i])
    &&& forall|k: int| 0 <= k < pieces.len() ==> (#[trigger] pieces[k]).len() > 0
    &&& forall|k: int|
        0 < k < pieces.len() ==> !is_name_char(pieces[k - 1].last()) || !is_name_char(
            (#[trigger] pieces[k])[0],
        )
}

proof fn lemma_tokens_spaced(pieces: Seq<Seq<char>>, runs: Seq<Seq<char>>)
    requires
        spacing_allowed(pieces, runs),
    ensures
        tokens(spaced(pieces, runs)) == tokens(joined(pieces)),
        pieces.len() > 0 ==> joined(pieces).len() > 0 && joined(pieces).last() == pieces.last().last(),
        spaced(pieces, runs).len() > 0 ==> (is_space(spaced(pieces, runs).last()) || (pieces.len() > 0
            && spaced(pieces, runs).last() == pieces.last().last())),
    decreases pieces.len(),
{
    let n = pieces.len() as int;
    if n == 0 {
        assert forall|i: int| 0 <= i < runs[0].len() implies is_space(#[trigger] runs[0][i]) by {
            assert(is_space(runs[0][i]));
        }
        lemma_tokens_all_space(runs[0]);
        assert(tokens(Seq::<char>::empty()) =~= Seq::<Seq<char>>::empty());
    } else {
        let pp = pieces.drop_last();
        let rr = runs.drop_last();
        assert(spacing_allowed(pp, rr)) by {
            assert forall|k: int, i: int| 0 <= k < rr.len() && 0 <= i < rr[k].len() implies is_space(
                #[trigger] rr[k][i],
            ) by {
                assert(rr[k] == runs[k]);
            }
            assert forall|k: int| 0 <= k < pp.len() implies (#[trigger] pp[k]).len() > 0 by {
                assert(pp[k] == pieces[k]);
            }
            assert forall|k: int| 0 < k < pp.len() implies !is_name_char(pp[k - 1].last()) || !is_name_char(
                (#[trigger] pp[k])[0],
            ) by {
                assert(pp[k] == pieces[k]);
                assert(pp[k - 1] == pieces[k - 1]);
            }
        }
        lemma_tokens_spaced(pp, rr);
        let sp = spaced(pp, rr);
        let jp = joined(pp);
        let p = pieces.last();
        let w = runs.last();
        assert(pieces[n - 1] == p);
        assert(p.len() > 0);
        assert forall|i: int| 0 <= i < w.len() implies is_space(#[trigger] w[i]) by {
            assert(is_space(runs[n][i]));
        }
        lemma_tokens_all_space(w);
        if n > 1 {
            assert(pp.last() == pieces[n - 2]);
            assert(!is_name_char(pieces[n - 2].last()) || !is_name_char(pieces[n - 1][0]));
        }
        lemma_tokens_concat(sp, p);
        lemma_tokens_concat(sp + p, w);
        lemma_tokens_concat(jp, p);
        assert((sp + p).last() == p.last());
        assert(tokens(sp + p) + Seq::<Seq<char>>::empty() =~= tokens(sp + p));
        if w.len() > 0 {
            assert((sp + p + w).last() == w.last());
            assert(is_space(w[w.len() - 1]));
        } else {
            assert(sp + p + w =~= sp + p);
        }
    }
}

/// Whitespace runs inserted anywhere they do not split a name (before and after
/// symbols, at either end, or next to other whitespace) leave what parsing gives
/// unchanged.
pub proof fn lemma_parse_ignores_spacing(pieces: Seq<Seq<char>>, runs: Seq<Seq<char>>)
    requires
        spacing_allowed(pieces, runs),
    ensures
        parse_text(spaced(pieces, runs)) == parse_text(joined(pieces)),
{
    lemma_tokens_spaced(pieces, runs);
}

/// The tokens of ` op ` followed by a text are `op` and the tokens of the text.
proof fn lemma_tokens_after_op(op: char, d: Seq<char>)
    requires
        is_symbol(op),
    ensures
        tokens(seq![' ', op, ' '] + d) == seq![seq![op]] + tokens(d),
{
    let whole = seq![' ', op, ' '] + d;
    let after_op = seq![' '] + d;
    assert(whole[0] == ' ');
    assert(whole.drop_first() =~= seq![op] + after_op);
    assert((seq![op] + after_op)[0] == op);
    assert((seq![op] + after_op).drop_first() =~= after_op);
    assert(after_op[0] == ' ');
    assert(after_op.drop_first() =~= d);
    assert(is_space(' '));
    assert(tokens(after_op) == tokens(d));
    assert(tokens(seq![op] + after_op) == seq![seq![op]] + tokens(after_op));
    assert(tokens(whole) == tokens(seq![op] + after_op));
}

/// The tokens of a text in parentheses.
proof fn lemma_tokens_parenthesized(d: Seq<char>)
    ensures
        tokens(seq!['('] + d + seq![')']) == seq![seq!['(']] + tokens(d) + seq![seq![')']],
{
    let close = seq![')'];
    let whole = seq!['('] + d + close;
    assert(whole[0] == '(');
    assert(whole.drop_first() =~= d + close);
    lemma_tokens_concat(d, close);
    assert(close[0] == ')');
    assert(close.drop_first() =~= Seq::<char>::empty());
    assert(tokens(Seq::<char>::empty()) =~= Seq::<Seq<char>>::empty());
    assert(tokens(close) =~= seq![seq![')']]);
    assert(seq![seq!['(']] + (tokens(d) + seq![seq![')']]) =~= seq![seq!['(']] + tokens(d) + seq![
        seq![')'],
    ]);
}

/// The tokens of rendered terms are their token form.
proof fn lemma_tokens_of_terms(xs: Seq<ExpressionView>, n: int)
    requires
        1 <= n <= xs.len(),
        forall|i: int| 0 <= i < xs.len() ==> well_named(#[trigger] xs[i]),
    ensures
        tokens(display_terms(xs, n)) == terms_form(xs, n),
    decreases xs, n,
{
    lemma_tokens_of_display(xs[n - 1]);
    if n > 1 {
        lemma_tokens_of_terms(xs, n - 1);
        let a = display_terms(xs, n - 1);
        let d = display(xs[n - 1]);
        let mid = seq![' ', '+', ' '];
        assert(a + mid + d =~= a + (mid + d));
        assert((mid + d)[0] == ' ');
        lemma_tokens_concat(a, mid + d);
        lemma_tokens_after_op('+', d);
        assert(terms_form(xs, n - 1) + (seq![seq!['+']] + token_form(xs[n - 1])) =~= terms_form(
            xs,
            n - 1,
        ) + seq![seq!['+']] + token_form(xs[n - 1]));
    }
}

/// The tokens of a rendered expression are its token form.
proof fn lemma_tokens_of_display(e: ExpressionView)
    requires
        well_named(e),
    ensures
        tokens(display(e)) == token_form(e),
    decreases e, 1nat,
{
    match e {
        ExpressionView::Value(s) => {
            lemma_all_name_chars(s);
            super::parser::lemma_name_prefix(s);
            assert(s.skip(s.len() as int) =~= Seq::<char>::empty());
            assert(tokens(Seq::<char>::empty()) =~= Seq::<Seq<char>>::empty());
            assert(seq![s] + Seq::<Seq<char>>::empty() =~= seq![s]);
        },
        ExpressionView::Plus(xs) => {
            lemma_tokens_of_terms(xs, xs.len() as int);
            lemma_tokens_parenthesized(display_terms(xs, xs.len() as int));
        },
        ExpressionView::Mul(l, r) => {
            lemma_tokens_of_display(*l);
            lemma_tokens_of_display(*r);
            let dl = display(*l);
            let dr = display(*r);
            let inner = dl + seq![' ', '*', ' '] + dr;
            assert(display(e) =~= seq!['('] + inner + seq![')']);
            lemma_tokens_parenthesized(inner);
            assert(inner =~= dl + (seq![' ', '*', ' '] + dr));
            assert((seq![' ', '*', ' '] + dr)[0] == ' ');
            lemma_tokens_concat(dl, seq![' ', '*', ' '] + dr);
            lemma_tokens_after_op('*', dr);
            assert(seq![seq!['(']] + (token_form(*l) + (seq![seq!['*']] + token_form(*r))) + seq![
                seq![')'],
            ] =~= token_form(e));
        },
    }
}

proof fn lemma_token_form_len(e: ExpressionView)
    requires
        well_named(e),
    ensures
        token_form(e).len() >= 1,
{
}

/// The token form of the first `k` terms begins that of the first `n`.
proof fn lemma_terms_form_prefix(xs: Seq<ExpressionView>, k: int, n: int)
    requires
        1 <= k <= n <= xs.len(),
    ensures
        terms_form(xs, k).len() <= terms_form(xs, n).len(),
        terms_form(xs, n).take(terms_form(xs, k).len() as int) == terms_form(xs, k),
    decreases n - k,
{
    if k < n {
        lemma_terms_form_prefix(xs, k, n - 1);
        let a = terms_form(xs, n - 1);
        let b = terms_form(xs, n);
        assert(b.take(a.len() as int) =~= a);
        assert(b.take(terms_form(xs, k).len() as int) =~= a.take(terms_form(xs, k).len() as int));
    } else {
        assert(terms_form(xs, n).take(terms_form(xs, n).len() as int) =~= terms_form(xs, n));
    }
}

/// Reading the `+`-joined terms `k` and beyond of a sum whose first `k` terms were
/// read gives the whole sum, ending before the closing parenthesis.
proof fn lemma_sum_tail_terms(t: TokenSeq, pos: int, xs: Seq<ExpressionView>, k: int)
    requires
        2 <= xs.len(),
        1 <= k <= xs.len(),
        forall|i: int| 0 <= i < xs.len() ==> well_named(#[trigger] xs[i]),
        0 <= pos,
        ({
            let f = terms_form(xs, xs.len() as int);
            &&& pos + f.len() < t.len()
            &&& t.subrange(pos, pos + f.len()) == f
            &&& t[pos + f.len()] == seq![')']
        }),
    ensures
        sum_tail(t, pos + terms_form(xs, k).len(), xs.take(k)) == Ok::<(ExpressionView, int), (super::ParseFailure, int)>(
            (ExpressionView::Plus(xs), pos + terms_form(xs, xs.len() as int).len()),
        ),
    decreases xs, xs.len() - k,
{
    let n = xs.len() as int;
    let f = terms_form(xs, n);
    let p = pos + terms_form(xs, k).len();
    assert(seq![')'] != seq!['+']) by {
        assert(seq![')'][0] != seq!['+'][0]);
    }
    assert(seq!['+'] != seq!['*']) by {
        assert(seq!['+'][0] != seq!['*'][0]);
    }
    assert(seq![')'] != seq!['*']) by {
        assert(seq![')'][0] != seq!['*'][0]);
    }
    if k == n {
        assert(p == pos + f.len());
        assert(xs.take(k) =~= xs);
    } else {
        lemma_terms_form_prefix(xs, k + 1, n);
        let g = terms_form(xs, k + 1);
        let a = terms_form(xs, k);
        let x = token_form(xs[k]);
        assert(g == a + seq![seq!['+']] + x);
        lemma_token_form_len(xs[k]);
        assert(t[p] == seq!['+']) by {
            assert(t[p] == t.subrange(pos, pos + f.len())[a.len() as int]);
            assert(f[a.len() as int] == f.take(g.len() as int)[a.len() as int]);
            assert(g[a.len() as int] == seq!['+']);
        }
        let q = p + 1 + x.len();
        assert(t.subrange(p + 1, q) =~= x) by {
            assert forall|i: int| 0 <= i < x.len() implies t.subrange(p + 1, q)[i] == x[i] by {
                assert(t.subrange(p + 1, q)[i] == t[p + 1 + i]);
                assert(t[p + 1 + i] == t.subrange(pos, pos + f.len())[a.len() + 1 + i]);
                assert(f[a.len() + 1 + i] == f.take(g.len() as int)[a.len() + 1 + i]);
                assert(g[a.len() + 1 + i] == x[i]);
            }
        }
        lemma_parse_primary_token_form(t, p + 1, xs[k]);
        assert(q == pos + g.len());
        assert(t[q] == seq!['+'] || t[q] == seq![')']) by {
            if k + 1 < n {
                lemma_terms_form_prefix(xs, k + 2, n);
                let h = terms_form(xs, k + 2);
                assert(h == g + seq![seq!['+']] + token_form(xs[k + 1]));
                assert(t[q] == t.subrange(pos, pos + f.len())[g.len() as int]);
                assert(f[g.len() as int] == f.take(h.len() as int)[g.len() as int]);
                assert(h[g.len() as int] == seq!['+']);
            } else {
                assert(g.len() == f.len());
            }
        }
        assert(product_tail(t, q, xs[k]) == Ok::<(ExpressionView, int), (super::ParseFailure, int)>(
            (xs[k], q),
        ));
        assert(parse_product(t, p + 1) == Ok::<(ExpressionView, int), (super::ParseFailure, int)>(
            (xs[k], q),
        ));
        assert(xs.take(k).push(xs[k]) =~= xs.take(k + 1));
        lemma_sum_tail_terms(t, pos, xs, k + 1);
    }
}

/// A token form read from position `pos` parses back to its expression.
proof fn lemma_parse_primary_token_form(t: TokenSeq, pos: int, e: ExpressionView)
    requires
        well_named(e),
        0 <= pos,
        pos + token_form(e).len() <= t.len(),
        t.subrange(pos, pos + token_form(e).len()) == token_form(e),
    ensures
        parse_primary(t, pos) == Ok::<(ExpressionView, int), (super::ParseFailure, int)>(
            (e, pos + token_form(e).len()),
        ),
    decreases e, 2nat,
{
    let n = token_form(e).len() as int;
    assert(t[pos] == t.subrange(pos, pos + n)[0]);
    assert(seq!['('] != seq!['+'] && seq!['('] != seq!['*'] && seq!['('] != seq![')']) by {
        assert(seq!['('][0] != seq!['+'][0]);
        assert(seq!['('][0] != seq!['*'][0]);
        assert(seq!['('][0] != seq![')'][0]);
    }
    match e {
        ExpressionView::Value(s) => {
            assert(t[pos] == s);
            assert(is_name_char(s[0]));
            assert(s != seq!['(']) by {
                assert(s[0] != seq!['('][0]);
            }
            assert(s != seq![')']) by {
                assert(s[0] != seq![')'][0]);
            }
            assert(s != seq!['+']) by {
                assert(s[0] != seq!['+'][0]);
            }
            assert(s != seq!['*']) by {
                assert(s[0] != seq!['*'][0]);
            }
        },
        ExpressionView::Plus(xs) => {
            let f = terms_form(xs, xs.len() as int);
            assert(t.subrange(pos + 1, pos + 1 + f.len()) =~= f) by {
                assert forall|i: int| 0 <= i < f.len() implies t.subrange(pos + 1, pos + 1 + f.len())[i]
                    == f[i] by {
                    assert(t[pos + 1 + i] == t.subrange(pos, pos + n)[1 + i]);
                }
            }
            assert(t[pos + 1 + f.len()] == seq![')']) by {
                assert(t[pos + 1 + f.len()] == t.subrange(pos, pos + n)[1 + f.len() as int]);
            }
            assert(t[pos] == seq!['(']);
            lemma_terms_form_prefix(xs, 1, xs.len() as int);
            let a = terms_form(xs, 1);
            assert(a == token_form(xs[0]));
            assert(t.subrange(pos + 1, pos + 1 + a.len()) =~= a) by {
                assert forall|i: int| 0 <= i < a.len() implies t.subrange(pos + 1, pos + 1 + a.len())[i]
                    == a[i] by {
                    assert(t[pos + 1 + i] == t.subrange(pos + 1, pos + 1 + f.len())[i]);
                    assert(f[i] == f.take(a.len() as int)[i]);
                }
            }
            lemma_parse_primary_token_form(t, pos + 1, xs[0]);
            let q = pos + 1 + a.len();
            lemma_terms_form_prefix(xs, 2, xs.len() as int);
            let h = terms_form(xs, 2);
            assert(h == a + seq![seq!['+']] + token_form(xs[1]));
            assert(t[q] == seq!['+']) by {
                assert(t[q] == t.subrange(pos + 1, pos + 1 + f.len())[a.len() as int]);
                assert(f[a.len() as int] == f.take(h.len() as int)[a.len() as int]);
            }
            assert(seq!['+'] != seq!['*']) by {
                assert(seq!['+'][0] != seq!['*'][0]);
            }
            assert(product_tail(t, q, xs[0]) == Ok::<(ExpressionView, int), (super::ParseFailure, int)>(
                (xs[0], q),
            ));
            assert(xs.take(1) =~= seq![xs[0]]);
            lemma_sum_tail_terms(t, pos + 1, xs, 1);
            assert(parse_sum(t, pos + 1) == Ok::<(ExpressionView, int), (super::ParseFailure, int)>(
                (e, pos + 1 + f.len()),
            ));
        },
        ExpressionView::Mul(l, r) => {
            lemma_operand_positions(t, pos, l, r);
            lemma_parse_primary_token_form(t, pos + 1, *l);
            lemma_parse_primary_token_form(t, pos + 2 + token_form(*l).len(), *r);
            lemma_product(t, pos, *l, *r);
        },
    }
}

proof fn lemma_operand_positions(t: TokenSeq, pos: int, l: Box<ExpressionView>, r: Box<ExpressionView>)
    requires
        0 <= pos,
        ({
            let f = token_form(ExpressionView::Mul(l, r));
            pos + f.len() <= t.len() && t.subrange(pos, pos + f.len()) == f
        }),
    ensures
        ({
            let p1 = pos + 1 + token_form(*l).len();
            let p2 = p1 + 1 + token_form(*r).len();
            &&& p2 + 1 <= t.len()
            &&& t[pos] == seq!['(']
            &&& t[p1] == seq!['*']
            &&& t[p2] == seq![')']
            &&& t.subrange(pos + 1, p1) == token_form(*l)
            &&& t.subrange(p1 + 1, p2) == token_form(*r)
        }),
{
    let fl = token_form(*l);
    let fr = token_form(*r);
    let f = seq![seq!['(']] + fl + seq![seq!['*']] + fr + seq![seq![')']];
    let p1 = pos + 1 + fl.len();
    let p2 = p1 + 1 + fr.len();
    assert(t[pos] == t.subrange(pos, pos + f.len())[0]);
    assert(t[p1] == t.subrange(pos, pos + f.len())[1 + fl.len() as int]);
    assert(t[p2] == t.subrange(pos, pos + f.len())[2 + fl.len() as int + fr.len() as int]);
    assert(t.subrange(pos + 1, p1) =~= fl) by {
        assert forall|i: int| 0 <= i < fl.len() implies t.subrange(pos + 1, p1)[i] == fl[i] by {
            assert(t[pos + 1 + i] == t.subrange(pos, pos + f.len())[1 + i]);
        }
    }
    assert(t.subrange(p1 + 1, p2) =~= fr) by {
        assert forall|i: int| 0 <= i < fr.len() implies t.subrange(p1 + 1, p2)[i] == fr[i] by {
            assert(t[p1 + 1 + i] == t.subrange(pos, pos + f.len())[2 + fl.len() as int + i]);
        }
    }
}

proof fn lemma_product(t: TokenSeq, pos: int, l: ExpressionView, r: ExpressionView)
    requires
        0 <= pos,
        token_form(l).len() >= 1,
        token_form(r).len() >= 1,
        ({
            let p1 = pos + 1 + token_form(l).len();
            let p2 = p1 + 1 + token_form(r).len();
            &&& p2 + 1 <= t.len()
            &&& t[pos] == seq!['(']
            &&& t[p1] == seq!['*']
            &&& t[p2] == seq![')']
            &&& parse_primary(t, pos + 1) == Ok::<(ExpressionView, int), (super::ParseFailure, int)>((l, p1))
            &&& parse_primary(t, p1 + 1) == Ok::<(ExpressionView, int), (super::ParseFailure, int)>((r, p2))
        }),
    ensures
        parse_primary(t, pos) == Ok::<(ExpressionView, int), (super::ParseFailure, int)>(
            (
                ExpressionView::Mul(Box::new(l), Box::new(r)),
                pos + 3 + token_form(l).len() + token_form(r).len(),
            ),
        ),
{
    let p1 = pos + 1 + token_form(l).len();
    let p2 = p1 + 1 + token_form(r).len();
    assert(seq![')'] != seq!['*'] && seq![')'] != seq!['+']) by {
        assert(seq![')'][0] != seq!['*'][0]);
        assert(seq![')'][0] != seq!['+'][0]);
    }
    let lm = ExpressionView::Mul(Box::new(l), Box::new(r));
    assert(product_tail(t, p2, lm) == Ok::<(ExpressionView, int), (super::ParseFailure, int)>((lm, p2)));
    assert(product_tail(t, p1, l) == Ok::<(ExpressionView, int), (super::ParseFailure, int)>((lm, p2)));
    assert(parse_product(t, pos + 1) == Ok::<(ExpressionView, int), (super::ParseFailure, int)>((lm, p2)));
    assert(seq![lm].len() == 1);
    assert(sum_tail(t, p2, seq![lm]) == Ok::<(ExpressionView, int), (super::ParseFailure, int)>((lm, p2)));
    assert(parse_sum(t, pos + 1) == Ok::<(ExpressionView, int), (super::ParseFailure, int)>((lm, p2)));
}

/// Parsing the rendering of an expression whose names are runs of name characters and
/// whose sums have at least two terms gives the expression back.
pub proof fn lemma_parse_display_roundtrip(e: ExpressionView)
    requires
        well_named(e),
    ensures
        parse_text(display(e)) == Ok::<ExpressionView, super::ParseFailure>(e),
{
    lemma_tokens_of_display(e);
    let t = token_form(e);
    lemma_token_form_len(e);
    assert(t.subrange(0, t.len() as int) =~= t);
    lemma_parse_primary_token_form(t, 0, e);
    assert(product_tail(t, t.len() as int, e) == Ok::<(ExpressionView, int), (super::ParseFailure, int)>(
        (e, t.len() as int),
    ));
    assert(seq![e].len() == 1);
    assert(sum_tail(t, t.len() as int, seq![e]) == Ok::<(ExpressionView, int), (super::ParseFailure, int)>(
        (e, t.len() as int),
    ));
}

/// The tokens of three renderings joined by ` op1 ` and ` op2 `.
proof fn lemma_tokens_of_three(a: ExpressionView, op1: char, b: ExpressionView, op2: char, c: ExpressionView)
    requires
        well_named(a),
        well_named(b),
        well_named(c),
        is_symbol(op1),
        is_symbol(op2),
    ensures
        tokens(display(a) + seq![' ', op1, ' '] + display(b) + seq![' ', op2, ' '] + display(c))
            == token_form(a) + seq![seq![op1]] + token_form(b) + seq![seq![op2]] + token_form(c),
{
    let d1 = display(a);
    let d2 = display(b);
    let d3 = display(c);
    let m1 = seq![' ', op1, ' '];
    let m2 = seq![' ', op2, ' '];
    let rest2 = m2 + d3;
    let rest1 = m1 + (d2 + rest2);
    assert(tokens(d1) == token_form(a)) by {
        lemma_tokens_of_display(a);
    }
    assert(tokens(d2) == token_form(b)) by {
        lemma_tokens_of_display(b);
    }
    assert(tokens(d3) == token_form(c)) by {
        lemma_tokens_of_display(c);
    }
    assert(tokens(rest2) == seq![seq![op2]] + tokens(d3)) by {
        lemma_tokens_after_op(op2, d3);
    }
    assert(tokens(d2 + rest2) == tokens(d2) + tokens(rest2)) by {
        assert(rest2[0] == ' ');
        lemma_tokens_concat(d2, rest2);
    }
    assert(tokens(rest1) == seq![seq![op1]] + tokens(d2 + rest2)) by {
        lemma_tokens_after_op(op1, d2 + rest2);
    }
    assert(tokens(d1 + rest1) == tokens(d1) + tokens(rest1)) by {
        assert(rest1[0] == ' ');
        lemma_tokens_concat(d1, rest1);
    }
    assert(d1 + m1 + d2 + m2 + d3 =~= d1 + rest1);
    assert(token_form(a) + (seq![seq![op1]] + (token_form(b) + (seq![seq![op2]] + token_form(c))))
        =~= token_form(a) + seq![seq![op1]] + token_form(b) + seq![seq![op2]] + token_form(c));
}

/// Where the parts of `f1 op1 f2 op2 f3` stand.
proof fn lemma_three_positions(t: TokenSeq, f1: TokenSeq, o1: Seq<char>, f2: TokenSeq, o2: Seq<char>, f3: TokenSeq)
    requires
        t == f1 + seq![o1] + f2 + seq![o2] + f3,
    ensures
        ({
            let p1 = f1.len() as int;
            let p2 = p1 + 1 + f2.len();
            &&& t.len() == p2 + 1 + f3.len()
            &&& t.subrange(0, p1) == f1
            &&& t[p1] == o1
            &&& t.subrange(p1 + 1, p2) == f2
            &&& t[p2] == o2
            &&& t.subrange(p2 + 1, t.len() as int) == f3
        }),
{
    let p1 = f1.len() as int;
    let p2 = p1 + 1 + f2.len();
    assert(t.subrange(0, p1) =~= f1);
    assert(t.subrange(p1 + 1, p2) =~= f2);
    assert(t.subrange(p2 + 1, t.len() as int) =~= f3);
}

/// Multiplication binds tighter than addition: for any expressions that parsing can
/// give, `a * b + c` parses as the sum of the product of `a` and `b` with `c`, and
/// `a + b * c` as the sum of `a` with the product of `b` and `c`; the right operand of
/// `*` is never a sum that is not in parentheses.
pub proof fn lemma_products_bind_tighter_than_sums(a: ExpressionView, b: ExpressionView, c: ExpressionView)
    requires
        well_named(a),
        well_named(b),
        well_named(c),
    ensures
        parse_text(display(a) + seq![' ', '*', ' '] + display(b) + seq![' ', '+', ' '] + display(c))
            == Ok::<ExpressionView, super::ParseFailure>(
            ExpressionView::Plus(seq![ExpressionView::Mul(Box::new(a), Box::new(b)), c]),
        ),
        parse_text(display(a) + seq![' ', '+', ' '] + display(b) + seq![' ', '*', ' '] + display(c))
            == Ok::<ExpressionView, super::ParseFailure>(
            ExpressionView::Plus(seq![a, ExpressionView::Mul(Box::new(b), Box::new(c))]),
        ),
{
    assert(seq!['+'] != seq!['*']) by {
        assert(seq!['+'][0] != seq!['*'][0]);
    }
    assert(is_symbol('*') && is_symbol('+'));
    let f1 = token_form(a);
    let f2 = token_form(b);
    let f3 = token_form(c);
    lemma_token_form_len(a);
    lemma_token_form_len(b);
    lemma_token_form_len(c);
    let p1 = f1.len() as int;
    let p2 = p1 + 1 + f2.len();
    let n = p2 + 1 + f3.len();
    // `a * b + c`
    lemma_tokens_of_three(a, '*', b, '+', c);
    let t = f1 + seq![seq!['*']] + f2 + seq![seq!['+']] + f3;
    lemma_three_positions(t, f1, seq!['*'], f2, seq!['+'], f3);
    lemma_parse_primary_token_form(t, 0, a);
    lemma_parse_primary_token_form(t, p1 + 1, b);
    lemma_parse_primary_token_form(t, p2 + 1, c);
    let ab = ExpressionView::Mul(Box::new(a), Box::new(b));
    assert(product_tail(t, p2, ab) == Ok::<(ExpressionView, int), (super::ParseFailure, int)>((ab, p2)));
    assert(product_tail(t, p1, a) == Ok::<(ExpressionView, int), (super::ParseFailure, int)>((ab, p2)));
    assert(parse_product(t, 0) == Ok::<(ExpressionView, int), (super::ParseFailure, int)>((ab, p2)));
    assert(product_tail(t, n, c) == Ok::<(ExpressionView, int), (super::ParseFailure, int)>((c, n)));
    assert(parse_product(t, p2 + 1) == Ok::<(ExpressionView, int), (super::ParseFailure, int)>((c, n)));
    assert(seq![ab].push(c) =~= seq![ab, c]);
    assert(sum_tail(t, n, seq![ab, c]) == Ok::<(ExpressionView, int), (super::ParseFailure, int)>(
        (ExpressionView::Plus(seq![ab, c]), n),
    ));
    assert(sum_tail(t, p2, seq![ab]) == Ok::<(ExpressionView, int), (super::ParseFailure, int)>(
        (ExpressionView::Plus(seq![ab, c]), n),
    ));
    assert(parse_sum(t, 0) == Ok::<(ExpressionView, int), (super::ParseFailure, int)>(
        (ExpressionView::Plus(seq![ab, c]), n),
    ));
    // `a + b * c`
    lemma_tokens_of_three(a, '+', b, '*', c);
    let u = f1 + seq![seq!['+']] + f2 + seq![seq!['*']] + f3;
    lemma_three_positions(u, f1, seq!['+'], f2, seq!['*'], f3);
    lemma_parse_primary_token_form(u, 0, a);
    lemma_parse_primary_token_form(u, p1 + 1, b);
    lemma_parse_primary_token_form(u, p2 + 1, c);
    let bc = ExpressionView::Mul(Box::new(b), Box::new(c));
    assert(product_tail(u, p1, a) == Ok::<(ExpressionView, int), (super::ParseFailure, int)>((a, p1)));
    assert(parse_product(u, 0) == Ok::<(ExpressionView, int), (super::ParseFailure, int)>((a, p1)));
    assert(product_tail(u, n, bc) == Ok::<(ExpressionView, int), (super::ParseFailure, int)>((bc, n)));
    assert(product_tail(u, p2, b) == Ok::<(ExpressionView, int), (super::ParseFailure, int)>((bc, n)));
    assert(parse_product(u, p1 + 1) == Ok::<(ExpressionView, int), (super::ParseFailure, int)>((bc, n)));
    assert(seq![a].push(bc) =~= seq![a, bc]);
    assert(sum_tail(u, n, seq![a, bc]) == Ok::<(ExpressionView, int), (super::ParseFailure, int)>(
        (ExpressionView::Plus(seq![a, bc]), n),
    ));
    assert(sum_tail(u, p1, seq![a]) == Ok::<(ExpressionView, int), (super::ParseFailure, int)>(
        (ExpressionView::Plus(seq![a, bc]), n),
    ));
    assert(parse_sum(u, 0) == Ok::<(ExpressionView, int), (super::ParseFailure, int)>(
        (ExpressionView::Plus(seq![a, bc]), n),
    ));
}

} // verus!
