//! The mathematical model of hypervectors: sequences of integers.

use vstd::prelude::*;

use super::architectures::bits::rotated_right;

verus! {

/// The dot product of two vectors over `{+1, -1}` written as any two-letter alphabet:
/// each agreeing position counts `+1`, each disagreeing position `-1`.
pub open spec fn agreement(a: Seq<int>, b: Seq<int>) -> int
    decreases a.len(),
{
    if a.len() == 0 {
        0
    } else {
        agreement(a.drop_last(), b.drop_last()) + if a.last() == b[a.len() - 1] {
            1int
        } else {
            -1int
        }
    }
}

/// A vector permuted by `shifts` places: rotated to the right by `shifts` modulo its
/// length (the empty vector stays as it is).
pub open spec fn permuted(s: Seq<int>, shifts: nat) -> Seq<int> {
    if s.len() == 0 {
        s
    } else {
        rotated_right(s, (shifts % s.len()) as int)
    }
}

/// The agreement of a vector with itself is its length.
pub proof fn lemma_agreement_self(a: Seq<int>)
    ensures
        agreement(a, a) == a.len(),
    decreases a.len(),
{
    if a.len() > 0 {
        lemma_agreement_self(a.drop_last());
    }
}

/// Agreement is symmetric.
pub proof fn lemma_agreement_symmetric(a: Seq<int>, b: Seq<int>)
    requires
        a.len() == b.len(),
    ensures
        agreement(a, b) == agreement(b, a),
    decreases a.len(),
{
    if a.len() > 0 {
        lemma_agreement_symmetric(a.drop_last(), b.drop_last());
    }
}

/// Agreement lies between minus the length and the length.
pub proof fn lemma_agreement_bounds(a: Seq<int>, b: Seq<int>)
    requires
        a.len() == b.len(),
    ensures
        -(a.len() as int) <= agreement(a, b) <= a.len(),
    decreases a.len(),
{
    if a.len() > 0 {
        lemma_agreement_bounds(a.drop_last(), b.drop_last());
    }
}

/// Agreement only depends on which positions agree.
pub proof fn lemma_agreement_pattern(a: Seq<int>, b: Seq<int>, c: Seq<int>, d: Seq<int>)
    requires
        a.len() == b.len(),
        c.len() == d.len(),
        a.len() == c.len(),
        forall|i: int| 0 <= i < a.len() ==> (a[i] == b[i] <==> c[i] == d[i]),
    ensures
        agreement(a, b) == agreement(c, d),
    decreases a.len(),
{
    if a.len() > 0 {
        lemma_agreement_pattern(a.drop_last(), b.drop_last(), c.drop_last(), d.drop_last());
    }
}

proof fn lemma_rotated_index(s: Seq<int>, k: int, i: int)
    requires
        0 <= k < s.len(),
        0 <= i < s.len(),
    ensures
        rotated_right(s, k)[i] == if i < k {
            s[s.len() - k + i]
        } else {
            s[i - k]
        },
{
}

/// Permuting by `x` and then by `y` is permuting by `x + y`.
pub proof fn lemma_permuted_compose(s: Seq<int>, x: nat, y: nat)
    ensures
        permuted(permuted(s, x), y) == permuted(s, x + y),
{
    if s.len() > 0 {
        let n = s.len() as int;
        let a = (x % s.len()) as int;
        let b = (y % s.len()) as int;
        let c = ((x + y) % s.len()) as int;
        assert(c == (a + b) % n) by {
            vstd::arithmetic::div_mod::lemma_add_mod_noop(x as int, y as int, n);
        }
        assert(c == a + b || c == a + b - n) by {
            if a + b < n {
                vstd::arithmetic::div_mod::lemma_small_mod((a + b) as nat, n as nat);
            } else {
                vstd::arithmetic::div_mod::lemma_mod_add_multiples_vanish(a + b - n, n);
                vstd::arithmetic::div_mod::lemma_small_mod((a + b - n) as nat, n as nat);
            }
        }
        let p = permuted(s, x);
        let q = permuted(p, y);
        let r = permuted(s, x + y);
        assert forall|i: int| 0 <= i < n implies q[i] == r[i] by {
            lemma_rotated_index(p, b, i);
            let j = if i < b {
                n - b + i
            } else {
                i - b
            };
            lemma_rotated_index(s, a, j);
            lemma_rotated_index(s, c, i);
        }
        assert(q =~= r);
    }
}

/// Permuting by the length (or any multiple of it) leaves a vector as it is.
pub proof fn lemma_permuted_full_turn(s: Seq<int>, k: nat)
    ensures
        permuted(s, k * s.len()) == s,
{
    if s.len() > 0 {
        assert((k * s.len()) % s.len() == 0) by {
            vstd::arithmetic::div_mod::lemma_mod_multiples_basic(k as int, s.len() as int);
        }
        assert(rotated_right(s, 0) =~= s);
    }
}

} // verus!
