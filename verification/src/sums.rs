//! Folds over the 64-square board sequence: integer sums and XOR
//! accumulations of a per-square contribution, with the update lemmas that
//! justify maintaining such folds incrementally when single squares change.

use vstd::prelude::*;
use crate::piece::Piece;

verus! {

/// Sum of `f(i, s[i])` over all indices `i` of `s`.
pub open spec fn sum_squares(s: Seq<Piece>, f: spec_fn(int, Piece) -> int) -> int
    decreases s.len(),
{
    if s.len() == 0 {
        0
    } else {
        sum_squares(s.drop_last(), f) + f(s.len() - 1, s.last())
    }
}

/// XOR of `f(i, s[i])` over all indices `i` of `s`.
pub open spec fn xor_squares(s: Seq<Piece>, f: spec_fn(int, Piece) -> u64) -> u64
    decreases s.len(),
{
    if s.len() == 0 {
        0u64
    } else {
        xor_squares(s.drop_last(), f) ^ f(s.len() - 1, s.last())
    }
}

/// Extending a prefix by one element adds that element's contribution.
pub proof fn lemma_sum_take_step(s: Seq<Piece>, f: spec_fn(int, Piece) -> int, i: int)
    requires
        0 <= i < s.len(),
    ensures
        sum_squares(s.take(i + 1), f) == sum_squares(s.take(i), f) + f(i, s[i]),
{
    assert(s.take(i + 1).drop_last() =~= s.take(i));
    assert(s.take(i + 1).last() == s[i]);
}

pub proof fn lemma_xor_take_step(s: Seq<Piece>, f: spec_fn(int, Piece) -> u64, i: int)
    requires
        0 <= i < s.len(),
    ensures
        xor_squares(s.take(i + 1), f) == xor_squares(s.take(i), f) ^ f(i, s[i]),
{
    assert(s.take(i + 1).drop_last() =~= s.take(i));
    assert(s.take(i + 1).last() == s[i]);
}

/// Appending an element adds its contribution at the new last index.
pub proof fn lemma_sum_push(s: Seq<Piece>, f: spec_fn(int, Piece) -> int, p: Piece)
    ensures
        sum_squares(s.push(p), f) == sum_squares(s, f) + f(s.len() as int, p),
{
    assert(s.push(p).drop_last() =~= s);
    assert(s.push(p).last() == p);
}


/// Writing one square replaces exactly that square's contribution in the sum.
pub proof fn lemma_sum_update(s: Seq<Piece>, f: spec_fn(int, Piece) -> int, i: int, p: Piece)
    requires
        0 <= i < s.len(),
    ensures
        sum_squares(s.update(i, p), f) == sum_squares(s, f) - f(i, s[i]) + f(i, p),
    decreases s.len(),
{
    let t = s.update(i, p);
    if i == s.len() - 1 {
        assert(t.drop_last() =~= s.drop_last());
        assert(t.last() == p);
    } else {
        lemma_sum_update(s.drop_last(), f, i, p);
        assert(t.drop_last() =~= s.drop_last().update(i, p));
        assert(t.last() == s.last());
    }
}

/// Writing one square XORs out its old contribution and XORs in the new one.
pub proof fn lemma_xor_update(s: Seq<Piece>, f: spec_fn(int, Piece) -> u64, i: int, p: Piece)
    requires
        0 <= i < s.len(),
    ensures
        xor_squares(s.update(i, p), f) == xor_squares(s, f) ^ f(i, s[i]) ^ f(i, p),
    decreases s.len(),
{
    let t = s.update(i, p);
    let a = xor_squares(s.drop_last(), f);
    let b = f(i, s[i]);
    let c = f(i, p);
    if i == s.len() - 1 {
        assert(t.drop_last() =~= s.drop_last());
        assert(t.last() == p);
        assert(a ^ c == ((a ^ b) ^ b) ^ c) by (bit_vector);
    } else {
        lemma_xor_update(s.drop_last(), f, i, p);
        assert(t.drop_last() =~= s.drop_last().update(i, p));
        assert(t.last() == s.last());
        let l = f(s.len() - 1, s.last());
        assert(((a ^ b) ^ c) ^ l == ((a ^ l) ^ b) ^ c) by (bit_vector);
    }
}

/// A fold of non-negative contributions is non-negative.
pub proof fn lemma_sum_nonneg(s: Seq<Piece>, f: spec_fn(int, Piece) -> int)
    requires
        forall|i: int, p: Piece| 0 <= i < s.len() ==> #[trigger] f(i, p) >= 0,
    ensures
        sum_squares(s, f) >= 0,
    decreases s.len(),
{
    if s.len() > 0 {
        lemma_sum_nonneg(s.drop_last(), f);
        assert(f(s.len() - 1, s.last()) == f(s.len() - 1, s[s.len() - 1]));
    }
}

/// Key functions that agree on every square of a board give it the same
/// fold.
pub proof fn lemma_xor_pointwise(
    s: Seq<Piece>,
    f: spec_fn(int, Piece) -> u64,
    g: spec_fn(int, Piece) -> u64,
)
    requires
        forall|i: int| 0 <= i < s.len() ==> #[trigger] f(i, s[i]) == g(i, s[i]),
    ensures
        xor_squares(s, f) == xor_squares(s, g),
    decreases s.len(),
{
    if s.len() > 0 {
        assert forall|i: int| 0 <= i < s.drop_last().len() implies #[trigger] f(
            i,
            s.drop_last()[i],
        ) == g(i, s.drop_last()[i]) by {
            assert(s.drop_last()[i] == s[i]);
        }
        lemma_xor_pointwise(s.drop_last(), f, g);
        assert(f(s.len() - 1, s.last()) == g(s.len() - 1, s.last()));
    }
}

/// If every per-square contribution is bounded, the fold is bounded by
/// the board size times the bound.
pub proof fn lemma_sum_bound(s: Seq<Piece>, f: spec_fn(int, Piece) -> int, bound: int)
    requires
        forall|i: int, p: Piece| 0 <= i < s.len() ==> -bound <= #[trigger] f(i, p) <= bound,
        bound >= 0,
    ensures
        -(s.len() * bound) <= sum_squares(s, f) <= s.len() * bound,
    decreases s.len(),
{
    if s.len() == 0 {
    } else {
        lemma_sum_bound(s.drop_last(), f, bound);
        assert(f(s.len() - 1, s.last()) == f(s.len() - 1, s[s.len() - 1]));
        assert(s.len() * bound == (s.len() - 1) * bound + bound) by (nonlinear_arith);
    }
}

} // verus!
