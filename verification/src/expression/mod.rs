//! Expressions over named vectors: construction, comparison, rendering and evaluation.

pub mod laws;
mod parser;

use vstd::prelude::*;

pub use self::parser::{ParseError, ParseFailure, Parser};

verus! {

/// The mathematical shape of an expression: names are sequences of characters.
pub enum ExpressionView {
    /// A named value.
    Value(Seq<char>),
    /// The sum of its terms, added all at once.
    Plus(Seq<ExpressionView>),
    /// The product of two expressions.
    Mul(Box<ExpressionView>, Box<ExpressionView>),
}

/// An expression that can be evaluated to a value. Two expressions are equal when they
/// agree up to swapping the operands of a product or of a sum of two terms; there is
/// no `Hash`, since a derived one would tell such equal expressions apart.
#[derive(Debug)]
pub enum Expression {
    /// A value.
    Value(String),
    /// The sum of its terms.
    Plus(Vec<Expression>),
    /// The product of two expressions.
    Mul(Box<Expression>, Box<Expression>),
}

/// The view of an expression, taken node by node.
pub open spec fn expression_view(e: Expression) -> ExpressionView
    decreases e,
{
    match e {
        Expression::Value(s) => ExpressionView::Value(s@),
        Expression::Plus(terms) => ExpressionView::Plus(
            Seq::new(
                terms@.len(),
                |i: int|
                    if 0 <= i < terms@.len() {
                        proof {
                            assert(decreases_to!(terms => terms@));
                            assert(decreases_to!(terms@ => terms@[i]));
                        }
                        expression_view(terms@[i])
                    } else {
                        ExpressionView::Value(Seq::empty())
                    },
            ),
        ),
        Expression::Mul(l, r) => ExpressionView::Mul(
            Box::new(expression_view(*l)),
            Box::new(expression_view(*r)),
        ),
    }
}

impl View for Expression {
    type V = ExpressionView;

    open spec fn view(&self) -> ExpressionView {
        expression_view(*self)
    }
}

/// Two expressions are equivalent when they agree up to swapping the two operands of
/// any product or of any sum of two terms.
pub open spec fn equivalent(a: ExpressionView, b: ExpressionView) -> bool
    decreases a,
{
    match (a, b) {
        (ExpressionView::Value(x), ExpressionView::Value(y)) => x == y,
        (ExpressionView::Plus(xs), ExpressionView::Plus(ys)) => xs.len() == ys.len() && ((forall|i: int|
            0 <= i < xs.len() ==> equivalent(#[trigger] xs[i], ys[i])) || (xs.len() == 2 && equivalent(
            xs[0],
            ys[1],
        ) && equivalent(xs[1], ys[0]))),
        (ExpressionView::Mul(l1, r1), ExpressionView::Mul(l2, r2)) => (equivalent(*l1, *l2)
            && equivalent(*r1, *r2)) || (equivalent(*l1, *r2) && equivalent(*r1, *l2)),
        _ => false,
    }
}

/// The fully parenthesised rendering of an expression.
pub open spec fn display(e: ExpressionView) -> Seq<char>
    decreases e, 1nat,
{
    match e {
        ExpressionView::Value(s) => s,
        ExpressionView::Plus(xs) => seq!['('] + display_terms(xs, xs.len() as int) + seq![')'],
        ExpressionView::Mul(l, r) => seq!['('] + display(*l) + seq![' ', '*', ' '] + display(*r)
            + seq![')'],
    }
}

/// The renderings of the first `n` terms of a sum, separated by ` + `.
pub open spec fn display_terms(xs: Seq<ExpressionView>, n: int) -> Seq<char>
    decreases xs, n,
{
    if n <= 0 || n > xs.len() {
        Seq::empty()
    } else if n == 1 {
        display(xs[0])
    } else {
        display_terms(xs, n - 1) + seq![' ', '+', ' '] + display(xs[n - 1])
    }
}

/// Appends one character to a string.
#[verifier::external_body]
pub(crate) fn push_char(s: &mut String, c: char)
    ensures
        final(s)@ == old(s)@.push(c),
{
    s.push(c);
}

impl Expression {
    /// Create a new expression from a string value.
    pub fn new(value: &'static str) -> (e: Self)
        ensures
            e@ == ExpressionView::Value(value@),
    {
        Expression::Value(value.to_owned())
    }

    /// Check if the expression is a value.
    pub fn is_value(&self) -> (b: bool)
        ensures
            b <==> self@ is Value,
    {
        match self {
            Expression::Value(_) => true,
            _ => false,
        }
    }

    /// Whether two expressions are equal up to the order of operands.
    #[verifier::loop_isolation(false)]
    pub fn equivalent_to(&self, other: &Expression) -> (b: bool)
        ensures
            b == equivalent(self@, other@),
        decreases self,
    {
        match self {
            Expression::Value(x) => match other {
                Expression::Value(y) => {
                    let b = *x == *y;
                    proof {
                        assert(self@ == ExpressionView::Value(x@));
                        assert(other@ == ExpressionView::Value(y@));
                    }
                    b
                },
                _ => false,
            },
            Expression::Plus(xs) => match other {
                Expression::Plus(ys) => {
                    let ghost xv = self@->Plus_0;
                    let ghost yv = other@->Plus_0;
                    if xs.len() != ys.len() {
                        return false;
                    }
                    let mut same = true;
                    let mut i: usize = 0;
                    while i < xs.len()
                        invariant
                            i <= xs@.len(),
                            xs@.len() == ys@.len(),
                            xv == Seq::new(xs@.len(), |k: int| expression_view(xs@[k])),
                            yv == Seq::new(ys@.len(), |k: int| expression_view(ys@[k])),
                            same == (forall|k: int| 0 <= k < i ==> equivalent(#[trigger] xv[k], yv[k])),
                        decreases xs@.len() - i,
                    {
                        proof {
                            assert(decreases_to!(*self => *xs));
                            assert(decreases_to!(*xs => xs@));
                            assert(decreases_to!(xs@ => xs@[i as int]));
                        }
                        let e = xs[i].equivalent_to(&ys[i]);
                        proof {
                            assert(xv[i as int] == xs@[i as int]@);
                            assert(yv[i as int] == ys@[i as int]@);
                            if !e {
                                assert(!equivalent(xv[i as int], yv[i as int]));
                            }
                        }
                        same = same && e;
                        i = i + 1;
                    }
                    let mut swapped = false;
                    if xs.len() == 2 {
                        proof {
                            assert(decreases_to!(*self => *xs));
                            assert(decreases_to!(*xs => xs@));
                            assert(decreases_to!(xs@ => xs@[0]));
                            assert(decreases_to!(*self => *xs));
                            assert(decreases_to!(*xs => xs@));
                            assert(decreases_to!(xs@ => xs@[1]));
                        }
                        let c = xs[0].equivalent_to(&ys[1]);
                        let d = xs[1].equivalent_to(&ys[0]);
                        swapped = c && d;
                    }
                    same || swapped
                },
                _ => false,
            },
            Expression::Mul(l1, r1) => match other {
                Expression::Mul(l2, r2) => {
                    let a = l1.equivalent_to(l2);
                    let b = r1.equivalent_to(r2);
                    let c = l1.equivalent_to(r2);
                    let d = r1.equivalent_to(l2);
                    (a && b) || (c && d)
                },
                _ => false,
            },
        }
    }

    /// Render the expression with every sum and product in parentheses.
    pub fn to_string(&self) -> (s: String)
        ensures
            s@ == display(self@),
    {
        let mut out = String::new();
        self.write_into(&mut out);
        out
    }

    #[verifier::loop_isolation(false)]
    fn write_into(&self, out: &mut String)
        ensures
            final(out)@ == old(out)@ + display(self@),
        decreases self,
    {
        match self {
            Expression::Value(v) => {
                out.append(v.as_str());
            },
            Expression::Plus(terms) => {
                let ghost xv = self@->Plus_0;
                let ghost start = out@;
                push_char(out, '(');
                let mut i: usize = 0;
                while i < terms.len()
                    invariant
                        i <= terms@.len(),
                        xv == Seq::new(terms@.len(), |k: int| expression_view(terms@[k])),
                        out@ == start + seq!['('] + display_terms(xv, i as int),
                    decreases terms@.len() - i,
                {
                    if i > 0 {
                        push_char(out, ' ');
                        push_char(out, '+');
                        push_char(out, ' ');
                    }
                    proof {
                        assert(decreases_to!(*self => *terms));
                        assert(decreases_to!(*terms => terms@));
                        assert(decreases_to!(terms@ => terms@[i as int]));
                    }
                    terms[i].write_into(out);
                    proof {
                        assert(xv[i as int] == terms@[i as int]@);
                    }
                    i = i + 1;
                }
                push_char(out, ')');
            },
            Expression::Mul(l, r) => {
                push_char(out, '(');
                l.write_into(out);
                push_char(out, ' ');
                push_char(out, '*');
                push_char(out, ' ');
                r.write_into(out);
                push_char(out, ')');
            },
        }
    }
}

/// Operations an evaluated value supports: the results of sums and products.
pub trait EvaluateOps: Sized {
    /// A measure that must agree between the operands of a sum or product (the size of a vector).
    spec fn dimension(&self) -> nat;

    /// Whether `r` is a possible result of the sum of all `values`.
    spec fn is_sum(values: Seq<Self>, r: Self) -> bool;

    /// Whether `r` is a possible result of the product of `lhs` and `rhs`.
    spec fn is_product(lhs: Self, rhs: Self, r: Self) -> bool;

    /// The sum of several values.
    fn add_many(values: &[Self]) -> (r: Self)
        requires
            1 <= values@.len() <= 0x7fff_ffff,
            forall|i: int|
                0 <= i < values@.len() ==> (#[trigger] values@[i]).dimension() == values@[0].dimension(),
        ensures
            Self::is_sum(values@, r),
            r.dimension() == values@[0].dimension(),
    ;

    /// The product of two values.
    fn multiply(lhs: &Self, rhs: &Self) -> (r: Self)
        requires
            lhs.dimension() == rhs.dimension(),
        ensures
            Self::is_product(*lhs, *rhs, r),
            r.dimension() == lhs.dimension(),
    ;
}

/// The sum of integers.
pub open spec fn sum_of(values: Seq<int>) -> int
    decreases values.len(),
{
    if values.len() == 0 {
        0
    } else {
        sum_of(values.drop_last()) + values.last()
    }
}

impl EvaluateOps for u32 {
    open spec fn dimension(&self) -> nat {
        0
    }

    open spec fn is_sum(values: Seq<Self>, r: Self) -> bool {
        r == sum_of(values.map_values(|v: u32| v as int)) % 0x1_0000_0000
    }

    open spec fn is_product(lhs: Self, rhs: Self, r: Self) -> bool {
        r == (lhs * rhs) % 0x1_0000_0000
    }

    fn add_many(values: &[Self]) -> (r: Self) {
        let ghost ints = values@.map_values(|v: u32| v as int);
        let mut acc: u32 = 0;
        let mut i: usize = 0;
        while i < values.len()
            invariant
                i <= values@.len(),
                ints == values@.map_values(|v: u32| v as int),
                acc == sum_of(ints.take(i as int)) % 0x1_0000_0000,
            decreases values@.len() - i,
        {
            proof {
                assert(ints.take(i + 1).drop_last() =~= ints.take(i as int));
                vstd::arithmetic::div_mod::lemma_add_mod_noop(
                    sum_of(ints.take(i as int)),
                    values@[i as int] as int,
                    0x1_0000_0000,
                );
                vstd::arithmetic::div_mod::lemma_small_mod(values@[i as int] as nat, 0x1_0000_0000);
            }
            acc = acc.wrapping_add(values[i]);
            i = i + 1;
        }
        assert(ints.take(values@.len() as int) =~= ints);
        acc
    }

    fn multiply(lhs: &Self, rhs: &Self) -> (r: Self) {
        lhs.wrapping_mul(*rhs)
    }
}

impl EvaluateOps for u64 {
    open spec fn dimension(&self) -> nat {
        0
    }

    open spec fn is_sum(values: Seq<Self>, r: Self) -> bool {
        r == sum_of(values.map_values(|v: u64| v as int)) % 0x1_0000_0000_0000_0000
    }

    open spec fn is_product(lhs: Self, rhs: Self, r: Self) -> bool {
        r == (lhs * rhs) % 0x1_0000_0000_0000_0000
    }

    fn add_many(values: &[Self]) -> (r: Self) {
        let ghost ints = values@.map_values(|v: u64| v as int);
        let mut acc: u64 = 0;
        let mut i: usize = 0;
        while i < values.len()
            invariant
                i <= values@.len(),
                ints == values@.map_values(|v: u64| v as int),
                acc == sum_of(ints.take(i as int)) % 0x1_0000_0000_0000_0000,
            decreases values@.len() - i,
        {
            proof {
                assert(ints.take(i + 1).drop_last() =~= ints.take(i as int));
                vstd::arithmetic::div_mod::lemma_add_mod_noop(
                    sum_of(ints.take(i as int)),
                    values@[i as int] as int,
                    0x1_0000_0000_0000_0000,
                );
                vstd::arithmetic::div_mod::lemma_small_mod(
                    values@[i as int] as nat,
                    0x1_0000_0000_0000_0000,
                );
            }
            acc = acc.wrapping_add(values[i]);
            i = i + 1;
        }
        assert(ints.take(values@.len() as int) =~= ints);
        acc
    }

    fn multiply(lhs: &Self, rhs: &Self) -> (r: Self) {
        lhs.wrapping_mul(*rhs)
    }
}

/// A record of one evaluation: what each lookup returned, the records of the terms of
/// each sum that were evaluated and the value of the sum, and the records of the
/// operands of each product and the value of the product.
pub enum Evaluation<T> {
    /// The result of looking up a name.
    Lookup(Option<T>),
    /// The records of the terms evaluated, in order, and the value of the sum.
    Sum(Seq<Evaluation<T>>, T),
    /// The records of both operands and the value of the product.
    Product(Box<Evaluation<T>>, Box<Evaluation<T>>, T),
}

/// Whether every sum has at least one and at most `0x7fff_ffff` terms.
pub open spec fn sums_fit(e: ExpressionView) -> bool
    decreases e,
{
    match e {
        ExpressionView::Value(_) => true,
        ExpressionView::Plus(xs) => 1 <= xs.len() <= 0x7fff_ffff && forall|i: int|
            0 <= i < xs.len() ==> sums_fit(#[trigger] xs[i]),
        ExpressionView::Mul(l, r) => sums_fit(*l) && sums_fit(*r),
    }
}

/// What the records `ts` of the first `ts.len()` terms of `xs` give: their values in
/// order, or the first unknown name.
pub open spec fn prefix_values<T>(xs: Seq<ExpressionView>, ts: Seq<Evaluation<T>>) -> Result<
    Seq<T>,
    Seq<char>,
>
    decreases xs, ts.len(),
{
    if ts.len() == 0 || ts.len() > xs.len() {
        Ok(Seq::empty())
    } else {
        match prefix_values(xs, ts.drop_last()) {
            Err(n) => Err(n),
            Ok(vs) => match outcome(xs[ts.len() - 1], ts.last()) {
                Ok(v) => Ok(vs.push(v)),
                Err(n) => Err(n),
            },
        }
    }
}

/// What an evaluation record of `e` gives: a value, or the first unknown name.
pub open spec fn outcome<T>(e: ExpressionView, t: Evaluation<T>) -> Result<T, Seq<char>>
    decreases e, 0nat,
{
    match e {
        ExpressionView::Value(name) => match t {
            Evaluation::Lookup(Some(v)) => Ok(v),
            _ => Err(name),
        },
        ExpressionView::Plus(xs) => match t {
            Evaluation::Sum(ts, v) => match prefix_values(xs, ts) {
                Err(n) => Err(n),
                Ok(_) => if ts.len() == xs.len() {
                    Ok(v)
                } else {
                    Err(Seq::empty())
                },
            },
            _ => Err(Seq::empty()),
        },
        ExpressionView::Mul(l, r) => match t {
            Evaluation::Product(lt, rt, v) => match outcome(*l, *lt) {
                Err(n) => Err(n),
                Ok(_) => match outcome(*r, *rt) {
                    Err(n) => Err(n),
                    Ok(_) => Ok(v),
                },
            },
            _ => Err(Seq::empty()),
        },
    }
}

/// What a lookup may answer for a name, as a relation: `lookup(name, o)` holds where
/// looking `name` up may give `o`.
pub type LookupRelation<T> = spec_fn(Seq<char>, Option<T>) -> bool;

/// The relation of a lookup function: what the function may return for a string
/// with that name.
pub open spec fn lookup_of<T, C: Fn(&str) -> Option<T>>(variables: C) -> LookupRelation<T> {
    |name: Seq<char>, o: Option<T>| exists|s: &str| s@ == name && call_ensures(variables, (s,), o)
}

/// Whether `ts` records possible evaluations of the first `ts.len()` terms of `xs`,
/// from left to right, each evaluated only when all before it succeeded.
pub open spec fn prefix_evaluated<T: EvaluateOps>(
    xs: Seq<ExpressionView>,
    lookup: LookupRelation<T>,
    ts: Seq<Evaluation<T>>,
) -> bool
    decreases xs, ts.len(),
{
    if ts.len() == 0 {
        true
    } else if ts.len() > xs.len() {
        false
    } else {
        &&& prefix_evaluated(xs, lookup, ts.drop_last())
        &&& prefix_values(xs, ts.drop_last()) is Ok
        &&& is_evaluation(xs[ts.len() - 1], lookup, ts.last())
    }
}

/// Whether `t` records a possible evaluation of `e`: every lookup is an answer the
/// lookup may give for that name; a sum evaluates its terms from left to right, stops
/// at the first that fails, and adds them all at once; a product evaluates both
/// operands and multiplies them. An operand is only evaluated when the one before it
/// succeeded.
pub open spec fn is_evaluation<T: EvaluateOps>(
    e: ExpressionView,
    lookup: LookupRelation<T>,
    t: Evaluation<T>,
) -> bool
    decreases e, 0nat,
{
    match e {
        ExpressionView::Value(name) => match t {
            Evaluation::Lookup(o) => lookup(name, o),
            _ => false,
        },
        ExpressionView::Plus(xs) => match t {
            Evaluation::Sum(ts, v) => {
                &&& 1 <= ts.len() <= xs.len()
                &&& prefix_evaluated(xs, lookup, ts)
                &&& ts.len() < xs.len() ==> prefix_values(xs, ts) is Err
                &&& prefix_values(xs, ts) is Ok ==> T::is_sum(prefix_values(xs, ts)->Ok_0, v)
            },
            _ => false,
        },
        ExpressionView::Mul(l, r) => match t {
            Evaluation::Product(lt, rt, v) => {
                &&& is_evaluation(*l, lookup, *lt)
                &&& outcome(*l, *lt) is Ok ==> is_evaluation(*r, lookup, *rt)
                &&& (outcome(*l, *lt) is Ok && outcome(*r, *rt) is Ok) ==> T::is_product(
                    outcome(*l, *lt)->Ok_0,
                    outcome(*r, *rt)->Ok_0,
                    v,
                )
            },
            _ => false,
        },
    }
}

/// Whether evaluating `e` with a lookup that answers as `lookup` allows can give
/// `result` (`Err` holds the name of the first unknown variable, scanning left to right).
pub open spec fn evaluates_to<T: EvaluateOps>(
    e: ExpressionView,
    lookup: LookupRelation<T>,
    result: Result<T, Seq<char>>,
) -> bool {
    exists|t: Evaluation<T>| is_evaluation(e, lookup, t) && outcome(e, t) == result
}

/// All values that a lookup can return have the same dimension.
pub open spec fn uniform_lookup<T: EvaluateOps, C: Fn(&str) -> Option<T>>(variables: C) -> bool {
    forall|s1: &str, s2: &str, v1: T, v2: T|
        call_ensures(variables, (s1,), Some(v1)) && call_ensures(variables, (s2,), Some(v2))
            ==> v1.dimension() == v2.dimension()
}

/// Records of the terms of a sum under one lookup relation are records under any
/// relation that allows at least as much.
pub proof fn lemma_prefix_evaluated_weaken<T: EvaluateOps>(
    xs: Seq<ExpressionView>,
    narrow: LookupRelation<T>,
    wide: LookupRelation<T>,
    ts: Seq<Evaluation<T>>,
)
    requires
        forall|name: Seq<char>, o: Option<T>| #[trigger] narrow(name, o) ==> wide(name, o),
        prefix_evaluated(xs, narrow, ts),
    ensures
        prefix_evaluated(xs, wide, ts),
    decreases xs, ts.len(),
{
    if ts.len() > 0 && ts.len() <= xs.len() {
        lemma_prefix_evaluated_weaken(xs, narrow, wide, ts.drop_last());
        lemma_evaluation_weaken(xs[ts.len() - 1], narrow, wide, ts.last());
    }
}

/// A record of an evaluation under one lookup relation is one under any relation that
/// allows at least as much.
pub proof fn lemma_evaluation_weaken<T: EvaluateOps>(
    e: ExpressionView,
    narrow: LookupRelation<T>,
    wide: LookupRelation<T>,
    t: Evaluation<T>,
)
    requires
        forall|name: Seq<char>, o: Option<T>| #[trigger] narrow(name, o) ==> wide(name, o),
        is_evaluation(e, narrow, t),
    ensures
        is_evaluation(e, wide, t),
    decreases e, 0nat,
{
    match e {
        ExpressionView::Value(name) => {},
        ExpressionView::Plus(xs) => match t {
            Evaluation::Sum(ts, v) => {
                lemma_prefix_evaluated_weaken(xs, narrow, wide, ts);
            },
            _ => {},
        },
        ExpressionView::Mul(l, r) => match t {
            Evaluation::Product(lt, rt, v) => {
                lemma_evaluation_weaken(*l, narrow, wide, *lt);
                if outcome(*l, *lt) is Ok {
                    lemma_evaluation_weaken(*r, narrow, wide, *rt);
                }
            },
            _ => {},
        },
    }
}

/// Whether `v` has the dimension of some value the lookup may return.
pub open spec fn looked_up_dimension<T: EvaluateOps, C: Fn(&str) -> Option<T>>(
    variables: C,
    v: T,
) -> bool {
    exists|s: &str, v0: T| call_ensures(variables, (s,), Some(v0)) && v.dimension() == v0.dimension()
}

impl Expression {
    /// Evaluate the expression given a variable mapping: a name is looked up, a sum
    /// evaluates its terms from left to right and adds them at once, a product
    /// evaluates both operands and multiplies them. The first name that the lookup
    /// does not know is the error.
    pub fn evaluate<T: EvaluateOps, C: Copy + Fn(&str) -> Option<T>>(&self, variables: C) -> (r:
        Result<T, UnknownValue>)
        requires
            forall|s: &str| call_requires(variables, (s,)),
            uniform_lookup(variables),
            sums_fit(self@),
        ensures
            match r {
                Ok(v) => evaluates_to(self@, lookup_of(variables), Ok(v)) && looked_up_dimension(
                    variables,
                    v,
                ),
                Err(u) => evaluates_to(self@, lookup_of(variables), Err(u@)),
            },
    {
        let (r, Ghost(t)) = self.evaluate_recorded(variables);
        r
    }

    #[verifier::loop_isolation(false)]
    fn evaluate_recorded<T: EvaluateOps, C: Copy + Fn(&str) -> Option<T>>(
        &self,
        variables: C,
    ) -> (r: (Result<T, UnknownValue>, Ghost<Evaluation<T>>))
        requires
            forall|s: &str| call_requires(variables, (s,)),
            uniform_lookup(variables),
            sums_fit(self@),
        ensures
            is_evaluation(self@, lookup_of(variables), r.1@),
            match r.0 {
                Ok(v) => outcome(self@, r.1@) == Ok::<T, Seq<char>>(v) && looked_up_dimension(
                    variables,
                    v,
                ),
                Err(u) => outcome(self@, r.1@) == Err::<T, Seq<char>>(u@),
            },
        decreases self,
    {
        match self {
            Expression::Value(val) => {
                let name = val.as_str();
                let o = variables(name);
                let ghost t = Evaluation::Lookup(o);
                match o {
                    Some(v) => (Ok(v), Ghost(t)),
                    None => (Err(UnknownValue::from(name)), Ghost(t)),
                }
            },
            Expression::Plus(terms) => {
                let ghost xs = self@->Plus_0;
                let ghost lookup = lookup_of(variables);
                let mut values: Vec<T> = Vec::new();
                let ghost mut ts: Seq<Evaluation<T>> = Seq::empty();
                let mut i: usize = 0;
                while i < terms.len()
                    invariant
                        forall|s: &str| call_requires(variables, (s,)),
                        uniform_lookup(variables),
                        lookup == lookup_of(variables),
                        xs == Seq::new(terms@.len(), |k: int| expression_view(terms@[k])),
                        1 <= xs.len() <= 0x7fff_ffff,
                        forall|k: int| 0 <= k < xs.len() ==> sums_fit(#[trigger] xs[k]),
                        i <= terms@.len(),
                        ts.len() == i,
                        values@.len() == i,
                        prefix_evaluated(xs, lookup, ts),
                        prefix_values(xs, ts) == Ok::<Seq<T>, Seq<char>>(values@),
                        forall|k: int| 0 <= k < i ==> looked_up_dimension(variables, #[trigger] values@[k]),
                    decreases terms@.len() - i,
                {
                    proof {
                        assert(decreases_to!(*self => *terms));
                        assert(decreases_to!(*terms => terms@));
                        assert(decreases_to!(terms@ => terms@[i as int]));
                        assert(xs[i as int] == terms@[i as int]@);
                    }
                    let (r, Ghost(t)) = terms[i].evaluate_recorded(variables);
                    let ghost next = ts.push(t);
                    proof {
                        assert(next.drop_last() =~= ts);
                        assert(next.last() == t);
                    }
                    match r {
                        Ok(v) => {
                            values.push(v);
                            proof {
                                ts = next;
                            }
                        },
                        Err(u) => {
                            proof {
                                assert(prefix_values(xs, next) == Err::<Seq<T>, Seq<char>>(u@));
                                assert(prefix_evaluated(xs, lookup, next));
                            }
                            return (Err(u), Ghost(Evaluation::Sum(next, arbitrary())));
                        },
                    }
                    i = i + 1;
                }
                let ghost v0 = values@[0];
                let ghost (s0, w0) = choose|s: &str, w: T|
                    call_ensures(variables, (s,), Some(w)) && v0.dimension() == w.dimension();
                proof {
                    assert forall|k: int| 0 <= k < values@.len() implies (#[trigger] values@[k]).dimension()
                        == values@[0].dimension() by {
                        let (s1, w1) = choose|s: &str, w: T|
                            call_ensures(variables, (s,), Some(w)) && values@[k].dimension()
                                == w.dimension();
                    }
                }
                let v = T::add_many(values.as_slice());
                assert(call_ensures(variables, (s0,), Some(w0)) && v.dimension() == w0.dimension());
                let ghost t = Evaluation::Sum(ts, v);
                (Ok(v), Ghost(t))
            },
            Expression::Mul(lhs, rhs) => {
                let (ra, Ghost(ta)) = lhs.evaluate_recorded(variables);
                let a = match ra {
                    Ok(a) => a,
                    Err(u) => {
                        let ghost t = Evaluation::Product(Box::new(ta), Box::new(ta), arbitrary());
                        return (Err(u), Ghost(t));
                    },
                };
                let (rb, Ghost(tb)) = rhs.evaluate_recorded(variables);
                let b = match rb {
                    Ok(b) => b,
                    Err(u) => {
                        let ghost t = Evaluation::Product(Box::new(ta), Box::new(tb), arbitrary());
                        return (Err(u), Ghost(t));
                    },
                };
                let ghost (s0, w0) = choose|s: &str, w: T|
                    call_ensures(variables, (s,), Some(w)) && a.dimension() == w.dimension();
                proof {
                    let (s1, w1) = choose|s: &str, w: T|
                        call_ensures(variables, (s,), Some(w)) && b.dimension() == w.dimension();
                }
                let v = T::multiply(&a, &b);
                assert(call_ensures(variables, (s0,), Some(w0)) && v.dimension() == w0.dimension());
                let ghost t = Evaluation::Product(Box::new(ta), Box::new(tb), v);
                (Ok(v), Ghost(t))
            },
        }
    }
}

/// An error indicating that a variable was not found during evaluation.
#[derive(Debug, Clone, Hash)]
pub struct UnknownValue(String);

impl View for UnknownValue {
    type V = Seq<char>;

    closed spec fn view(&self) -> Seq<char> {
        self.0@
    }
}

impl UnknownValue {
    /// The name of the unknown variable.
    pub fn as_str(&self) -> (s: &str)
        ensures
            s@ == self@,
    {
        self.0.as_str()
    }

    /// The name of the unknown variable, as an owned string.
    pub fn to_string(&self) -> (s: String)
        ensures
            s@ == self@,
    {
        self.0.clone()
    }
}

impl From<String> for UnknownValue {
    fn from(value: String) -> Self {
        UnknownValue(value)
    }
}

impl vstd::std_specs::convert::FromSpecImpl<String> for UnknownValue {
    open spec fn obeys_from_spec() -> bool {
        true
    }

    closed spec fn from_spec(v: String) -> Self {
        UnknownValue(v)
    }
}

impl<'a> vstd::std_specs::convert::FromSpecImpl<&'a str> for UnknownValue {
    open spec fn obeys_from_spec() -> bool {
        false
    }

    closed spec fn from_spec(v: &'a str) -> Self {
        arbitrary()
    }
}

impl<'a> From<&'a str> for UnknownValue {
    fn from(value: &'a str) -> (r: Self)
        ensures
            r@ == value@,
    {
        UnknownValue(value.to_owned())
    }
}

impl PartialEq for UnknownValue {
    fn eq(&self, other: &Self) -> (r: bool) {
        self.0 == other.0
    }
}

impl vstd::std_specs::cmp::PartialEqSpecImpl for UnknownValue {
    open spec fn obeys_eq_spec() -> bool {
        true
    }

    open spec fn eq_spec(&self, other: &Self) -> bool {
        self@ == other@
    }
}

impl Eq for UnknownValue {

}

impl std::ops::Add for Expression {
    type Output = Self;

    fn add(self, rhs: Self) -> (r: Self::Output)
        ensures
            r@ == ExpressionView::Plus(seq![self@, rhs@]),
    {
        let ghost a = self@;
        let ghost b = rhs@;
        let r = Expression::Plus(vec![self, rhs]);
        assert(r@->Plus_0 =~= seq![a, b]);
        r
    }
}

impl vstd::std_specs::ops::AddSpecImpl for Expression {
    open spec fn obeys_add_spec() -> bool {
        false
    }

    open spec fn add_req(self, rhs: Self) -> bool {
        true
    }

    open spec fn add_spec(self, rhs: Self) -> Self {
        arbitrary()
    }
}

impl std::ops::Mul for Expression {
    type Output = Self;

    fn mul(self, rhs: Self) -> Self::Output {
        Expression::Mul(Box::new(self), Box::new(rhs))
    }
}

impl vstd::std_specs::ops::MulSpecImpl for Expression {
    open spec fn obeys_mul_spec() -> bool {
        true
    }

    open spec fn mul_req(self, rhs: Self) -> bool {
        true
    }

    open spec fn mul_spec(self, rhs: Self) -> Self {
        Expression::Mul(Box::new(self), Box::new(rhs))
    }
}

impl Expression {
    #[verifier::loop_isolation(false)]
    fn copy_tree(&self) -> (r: Expression)
        ensures
            r@ == self@,
        decreases self,
    {
        match self {
            Expression::Value(v) => Expression::Value(v.clone()),
            Expression::Plus(terms) => {
                let ghost xv = self@->Plus_0;
                let mut out: Vec<Expression> = Vec::new();
                let mut i: usize = 0;
                while i < terms.len()
                    invariant
                        i <= terms@.len(),
                        xv == Seq::new(terms@.len(), |k: int| expression_view(terms@[k])),
                        out@.len() == i,
                        forall|k: int| 0 <= k < i ==> (#[trigger] out@[k])@ == xv[k],
                    decreases terms@.len() - i,
                {
                    proof {
                        assert(decreases_to!(*self => *terms));
                        assert(decreases_to!(*terms => terms@));
                        assert(decreases_to!(terms@ => terms@[i as int]));
                    }
                    out.push(terms[i].copy_tree());
                    i = i + 1;
                }
                let r = Expression::Plus(out);
                assert(r@->Plus_0 =~= xv);
                r
            },
            Expression::Mul(l, r) => Expression::Mul(Box::new(l.copy_tree()), Box::new(r.copy_tree())),
        }
    }
}

impl Clone for Expression {
    fn clone(&self) -> (r: Self)
        ensures
            r@ == self@,
    {
        self.copy_tree()
    }
}

impl PartialEq for Expression {
    fn eq(&self, other: &Self) -> (r: bool) {
        self.equivalent_to(other)
    }
}

impl vstd::std_specs::cmp::PartialEqSpecImpl for Expression {
    open spec fn obeys_eq_spec() -> bool {
        true
    }

    open spec fn eq_spec(&self, other: &Self) -> bool {
        equivalent(self@, other@)
    }
}

impl Eq for Expression {

}

} // verus!
