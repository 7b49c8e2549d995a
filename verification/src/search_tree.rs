//! The pruning law, stated and proved over explicit game trees: alpha-beta
//! search never changes the answer of full minimax, it only skips work.
//! `minimax_val` is the mathematical value of a tree; `tree_minimax` walks
//! the whole tree and provably computes it; `tree_alpha_beta` prunes with a
//! window and provably agrees with it whenever the window does not clip,
//! so with the full window the two searches return the same value.

use vstd::prelude::*;
use crate::score::{SCORE_INF, score_in_range};

verus! {

/// A game tree: an evaluated leaf, or a node with the side to move (true
/// for the maximizing side) and the positions its moves lead to. A node
/// with no children is a decided game: the worst value for its side.
pub enum SearchTree {
    Leaf(i64),
    Node(bool, Vec<SearchTree>),
}

/// The true minimax value of a tree.
pub open spec fn minimax_val(t: SearchTree) -> int
    decreases t, 0int,
{
    match t {
        SearchTree::Leaf(v) => v as int,
        SearchTree::Node(white, children) => best_val(
            white,
            children@,
            children@.len() as int,
        ),
    }
}

/// The best value for the given side among the first `n` children.
pub open spec fn best_val(white: bool, cs: Seq<SearchTree>, n: int) -> int
    decreases cs, n,
{
    if n <= 0 || n > cs.len() {
        if white {
            -SCORE_INF as int
        } else {
            SCORE_INF as int
        }
    } else {
        let v = minimax_val(cs[n - 1]);
        let rest = best_val(white, cs, n - 1);
        if white {
            if rest >= v {
                rest
            } else {
                v
            }
        } else {
            if rest <= v {
                rest
            } else {
                v
            }
        }
    }
}

/// Every leaf value lies within the sentinels.
pub open spec fn tree_wf(t: SearchTree) -> bool
    decreases t, 0int,
{
    match t {
        SearchTree::Leaf(v) => score_in_range(v as int),
        SearchTree::Node(white, children) => children_wf(
            children@,
            children@.len() as int,
        ),
    }
}

pub open spec fn children_wf(cs: Seq<SearchTree>, n: int) -> bool
    decreases cs, n,
{
    n <= 0 || n > cs.len() || (tree_wf(cs[n - 1]) && children_wf(cs, n - 1))
}

/// The minimax value of a well-formed tree lies within the sentinels.
pub proof fn lemma_minimax_in_range(t: SearchTree)
    requires
        tree_wf(t),
    ensures
        score_in_range(minimax_val(t)),
    decreases t, 0int,
{
    match t {
        SearchTree::Leaf(_) => {},
        SearchTree::Node(white, children) => {
            lemma_best_in_range(white, children@, children@.len() as int);
        },
    }
}

pub proof fn lemma_best_in_range(white: bool, cs: Seq<SearchTree>, n: int)
    requires
        children_wf(cs, n),
        n <= cs.len(),
    ensures
        score_in_range(best_val(white, cs, n)),
    decreases cs, n,
{
    if n > 0 {
        lemma_minimax_in_range(cs[n - 1]);
        lemma_best_in_range(white, cs, n - 1);
    }
}

/// Considering more children only improves the best value for the side to
/// move.
pub proof fn lemma_best_monotonic(white: bool, cs: Seq<SearchTree>, n1: int, n2: int)
    requires
        0 <= n1 <= n2 <= cs.len(),
    ensures
        white ==> best_val(white, cs, n1) <= best_val(white, cs, n2),
        !white ==> best_val(white, cs, n1) >= best_val(white, cs, n2),
    decreases n2 - n1,
{
    if n1 < n2 {
        lemma_best_monotonic(white, cs, n1, n2 - 1);
    }
}

/// A reference evaluator: walks the whole tree and computes the exact
/// minimax value.
pub fn tree_minimax(t: &SearchTree) -> (r: i64)
    requires
        tree_wf(*t),
    ensures
        r == minimax_val(*t),
    decreases *t,
{
    match t {
        SearchTree::Leaf(v) => *v,
        SearchTree::Node(white, children) => {
            let w = *white;
            let mut value: i64 = if w {
                -SCORE_INF
            } else {
                SCORE_INF
            };
            let mut i: usize = 0;
            while i < children.len()
                invariant
                    tree_wf(*t),
                    *t == SearchTree::Node(w, *children),
                    children_wf(children@, children@.len() as int),
                    i <= children@.len(),
                    value == best_val(w, children@, i as int),
                    score_in_range(value as int),
                decreases children@.len() - i,
            {
                proof {
                    lemma_children_wf_prefix(children@, i + 1, children@.len() as int);
                    lemma_minimax_in_range(children@[i as int]);
                }
                let s = tree_minimax(&children[i]);
                if w {
                    if s > value {
                        value = s;
                    }
                } else {
                    if s < value {
                        value = s;
                    }
                }
                i += 1;
            }
            value
        },
    }
}

/// Well-formedness of all children covers every prefix.
pub proof fn lemma_children_wf_prefix(cs: Seq<SearchTree>, n1: int, n2: int)
    requires
        children_wf(cs, n2),
        0 <= n1 <= n2 <= cs.len(),
    ensures
        children_wf(cs, n1),
        n1 >= 1 ==> tree_wf(cs[n1 - 1]),
    decreases n2 - n1,
{
    if n1 < n2 {
        lemma_children_wf_prefix(cs, n1, n2 - 1);
    }
}

/// Alpha-beta over a game tree. The result is fail-soft sound: a result
/// inside the window is the exact minimax value, a result at or below
/// alpha is an upper bound on it, and a result at or above beta is a
/// lower bound on it.
pub fn tree_alpha_beta(t: &SearchTree, alpha: i64, beta: i64) -> (r: i64)
    requires
        tree_wf(*t),
        -SCORE_INF - 1 <= alpha < beta <= SCORE_INF + 1,
    ensures
        score_in_range(r as int),
        alpha < r < beta ==> r == minimax_val(*t),
        r <= alpha ==> minimax_val(*t) <= r,
        r >= beta ==> minimax_val(*t) >= r,
    decreases *t,
{
    match t {
        SearchTree::Leaf(v) => *v,
        SearchTree::Node(white, children) => {
            let w = *white;
            let n = children.len();
            let ghost cs = children@;
            let mut value: i64 = if w {
                -SCORE_INF
            } else {
                SCORE_INF
            };
            let mut a = alpha;
            let mut b = beta;
            if w {
                if value > a {
                    a = value;
                }
            } else {
                if value < b {
                    b = value;
                }
            }
            let mut cut = a >= b;
            let mut i: usize = 0;
            while i < n && !cut
                invariant
                    tree_wf(*t),
                    *t == SearchTree::Node(w, *children),
                    cs == children@,
                    n == cs.len(),
                    children_wf(cs, cs.len() as int),
                    i <= n,
                    score_in_range(value as int),
                    -SCORE_INF - 1 <= alpha < beta <= SCORE_INF + 1,
                    w ==> a == (if value > alpha { value } else { alpha }),
                    w ==> b == beta,
                    !w ==> b == (if value < beta { value } else { beta }),
                    !w ==> a == alpha,
                    // fail-low knowledge: if nothing beat alpha/beta yet, the
                    // prefix's true value is bounded by the running value
                    w ==> (value <= alpha ==> best_val(w, cs, i as int) <= value),
                    !w ==> (value >= beta ==> best_val(w, cs, i as int) >= value),
                    // exactness inside the window
                    w ==> (alpha < value < beta ==> value == best_val(w, cs, i as int)),
                    !w ==> (alpha < value < beta ==> value == best_val(w, cs, i as int)),
                    // fail-high knowledge
                    w ==> (value >= beta ==> best_val(w, cs, i as int) >= value),
                    !w ==> (value <= alpha ==> best_val(w, cs, i as int) <= value),
                    !cut ==> a < b,
                    // a cut only happens past the window edge
                    cut ==> (w && value >= beta) || (!w && value <= alpha),
                decreases n - i,
            {
                proof {
                    lemma_children_wf_prefix(cs, i + 1, cs.len() as int);
                    lemma_minimax_in_range(cs[i as int]);
                }
                let s = tree_alpha_beta(&children[i], a, b);
                let ghost vc = minimax_val(cs[i as int]);
                if w {
                    if s > value {
                        value = s;
                    }
                    if value > a {
                        a = value;
                    }
                    if a >= b {
                        cut = true;
                    }
                } else {
                    if s < value {
                        value = s;
                    }
                    if value < b {
                        b = value;
                    }
                    if b <= a {
                        cut = true;
                    }
                }
                i += 1;
            }
            proof {
                if !cut {
                    assert(i == n);
                } else {
                    lemma_best_monotonic(w, cs, i as int, cs.len() as int);
                }
            }
            value
        },
    }
}

/// Pruning never changes the answer: with the full window the
/// alpha-beta search returns exactly the full minimax value, the same
/// value `tree_minimax` computes by walking everything.
pub fn tree_search(t: &SearchTree) -> (r: i64)
    requires
        tree_wf(*t),
    ensures
        r == minimax_val(*t),
    decreases *t,
{
    proof {
        lemma_minimax_in_range(*t);
    }
    tree_alpha_beta(t, -SCORE_INF - 1, SCORE_INF + 1)
}

} // verus!
