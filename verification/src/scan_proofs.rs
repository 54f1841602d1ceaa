//! Facts about scanning the board in row-major order: the list of legal
//! moves, the next legal move, and the best score found so far.

use vstd::prelude::*;
use crate::board::{Grid, Move, Player};
use crate::rules::{is_legal, legal_upto, next_legal_from};
use crate::search::{best_upto, branch_value, infinite};

verus! {

/// The square with the given place in row-major order.
pub open spec fn square(i: int) -> Move {
    ((i / 8) as usize, (i % 8) as usize)
}

/// The legal moves among the first `k` squares are exactly the legal squares
/// with a place below `k`, and they come in increasing order of place.
pub proof fn lemma_legal_upto(g: Grid, p: Player, k: int)
    requires
        0 <= k <= 64,
    ensures
        legal_upto(g, p, k).len() <= k,
        forall|i: int|
            0 <= i < k && is_legal(g, p, i / 8, i % 8) ==> legal_upto(g, p, k).contains(
                #[trigger] square(i),
            ),
        forall|n: int|
            0 <= n < legal_upto(g, p, k).len() ==> {
                let mv = #[trigger] legal_upto(g, p, k)[n];
                is_legal(g, p, mv.0 as int, mv.1 as int) && 8 * mv.0 + mv.1 < k
            },
        forall|m: int, n: int|
            0 <= m < n < legal_upto(g, p, k).len() ==> 8 * (#[trigger] legal_upto(g, p, k)[m]).0
                + legal_upto(g, p, k)[m].1 < 8 * (#[trigger] legal_upto(g, p, k)[n]).0 + legal_upto(
                g,
                p,
                k,
            )[n].1,
    decreases k,
{
    if k > 0 {
        lemma_legal_upto(g, p, k - 1);
        let before = legal_upto(g, p, k - 1);
        let now = legal_upto(g, p, k);
        assert forall|i: int| 0 <= i < k && is_legal(g, p, i / 8, i % 8) implies now.contains(
            #[trigger] square(i),
        ) by {
            if i < k - 1 {
                assert(before.contains(square(i)));
                let n = choose|n: int| 0 <= n < before.len() && before[n] == square(i);
                assert(now[n] == square(i));
            } else {
                assert(now[now.len() - 1] == square(i));
            }
        }
    }
}

/// No square among the first `k` is legal exactly when the list of legal moves
/// among them is empty.
pub proof fn lemma_legal_upto_empty(g: Grid, p: Player, k: int)
    requires
        0 <= k <= 64,
    ensures
        legal_upto(g, p, k).len() == 0 <==> forall|i: int|
            0 <= i < k ==> !#[trigger] is_legal(g, p, i / 8, i % 8),
    decreases k,
{
    if k > 0 {
        lemma_legal_upto_empty(g, p, k - 1);
        if legal_upto(g, p, k).len() == 0 {
            assert forall|i: int| 0 <= i < k implies !#[trigger] is_legal(g, p, i / 8, i % 8) by {
                if i == k - 1 {
                } else {
                    assert(legal_upto(g, p, k - 1).len() == 0);
                }
            }
        }
    }
}

/// The next legal move from place `k` on is legal, no square between `k` and it
/// is, and it is `(8, 8)` exactly when no square from `k` on is legal.
pub proof fn lemma_next_legal(g: Grid, p: Player, k: int)
    requires
        0 <= k <= 64,
    ensures
        ({
            let mv = next_legal_from(g, p, k);
            let m = if mv.0 < 8 {
                8 * mv.0 + mv.1
            } else {
                64
            };
            &&& k <= m <= 64
            &&& mv.0 < 8 ==> mv.1 < 8 && is_legal(g, p, mv.0 as int, mv.1 as int)
            &&& mv.0 >= 8 ==> mv == (8usize, 8usize)
            &&& forall|i: int| k <= i < m ==> !#[trigger] is_legal(g, p, i / 8, i % 8)
        }),
    decreases 64 - k,
{
    if k < 64 && !is_legal(g, p, k / 8, k % 8) {
        lemma_next_legal(g, p, k + 1);
    }
}

/// Squares that are not legal leave the list of legal moves as it was.
pub proof fn lemma_legal_upto_skip(g: Grid, p: Player, k: int, m: int)
    requires
        0 <= k <= m <= 64,
        forall|i: int| k <= i < m ==> !#[trigger] is_legal(g, p, i / 8, i % 8),
    ensures
        legal_upto(g, p, m) == legal_upto(g, p, k),
    decreases m - k,
{
    if k < m {
        lemma_legal_upto_skip(g, p, k, m - 1);
        assert(!is_legal(g, p, (m - 1) / 8, (m - 1) % 8));
    }
}

/// Squares that are not legal leave the best score as it was.
pub proof fn lemma_best_upto_skip(g: Grid, p: Player, depth: nat, k: int, m: int)
    requires
        0 <= k <= m <= 64,
        forall|i: int| k <= i < m ==> !#[trigger] is_legal(g, p, i / 8, i % 8),
    ensures
        best_upto(g, p, depth, m) == best_upto(g, p, depth, k),
    decreases m - k,
{
    if k < m {
        lemma_best_upto_skip(g, p, depth, k, m - 1);
        assert(!is_legal(g, p, (m - 1) / 8, (m - 1) % 8));
    }
}

/// The best score among the first `k` squares is the greatest branch score of
/// a legal move among them: no such move scores higher, one of them reaches it,
/// and it is `-infinite()` when there is none.
pub proof fn lemma_best_upto_is_max(g: Grid, p: Player, depth: nat, k: int)
    requires
        0 <= k <= 64,
    ensures
        forall|i: int|
            0 <= i < k && is_legal(g, p, i / 8, i % 8) ==> #[trigger] branch_value(
                g,
                p,
                square(i),
                depth,
            ) <= best_upto(g, p, depth, k),
        (forall|i: int| 0 <= i < k ==> !#[trigger] is_legal(g, p, i / 8, i % 8)) ==> best_upto(
            g,
            p,
            depth,
            k,
        ) == -infinite(),
        (exists|i: int| 0 <= i < k && #[trigger] is_legal(g, p, i / 8, i % 8)) ==> exists|i: int|
            0 <= i < k && #[trigger] is_legal(g, p, i / 8, i % 8) && branch_value(
                g,
                p,
                square(i),
                depth,
            ) == best_upto(g, p, depth, k),
    decreases k,
{
    if k > 0 {
        lemma_best_upto_is_max(g, p, depth, k - 1);
        let rest = best_upto(g, p, depth, k - 1);
        let now = best_upto(g, p, depth, k);
        if exists|i: int| 0 <= i < k && #[trigger] is_legal(g, p, i / 8, i % 8) {
            if is_legal(g, p, (k - 1) / 8, (k - 1) % 8) && branch_value(g, p, square(k - 1), depth)
                >= rest {
                assert(branch_value(g, p, square(k - 1), depth) == now);
            } else if is_legal(g, p, (k - 1) / 8, (k - 1) % 8) {
                if exists|i: int| 0 <= i < k - 1 && #[trigger] is_legal(g, p, i / 8, i % 8) {
                    let w = choose|i: int|
                        0 <= i < k - 1 && #[trigger] is_legal(g, p, i / 8, i % 8) && branch_value(
                            g,
                            p,
                            square(i),
                            depth,
                        ) == rest;
                    assert(0 <= w < k && is_legal(g, p, w / 8, w % 8) && branch_value(
                        g,
                        p,
                        square(w),
                        depth,
                    ) == now);
                } else {
                    assert(rest == -infinite());
                    lemma_branch_value_bounds(g, p, square(k - 1), depth);
                }
            } else {
                let v = choose|i: int| 0 <= i < k && #[trigger] is_legal(g, p, i / 8, i % 8);
                assert(v < k - 1);
                let w = choose|i: int|
                    0 <= i < k - 1 && #[trigger] is_legal(g, p, i / 8, i % 8) && branch_value(
                        g,
                        p,
                        square(i),
                        depth,
                    ) == rest;
                assert(0 <= w < k && is_legal(g, p, w / 8, w % 8) && branch_value(
                    g,
                    p,
                    square(w),
                    depth,
                ) == now);
            }
        }
    }
}

/// Every score lies between the two infinities.
pub proof fn lemma_branch_value_bounds(g: Grid, p: Player, mv: Move, depth: nat)
    ensures
        -infinite() <= branch_value(g, p, mv, depth) <= infinite(),
    decreases depth, 0int,
{
    if depth <= 1 {
        crate::count_proofs::lemma_disks_bounds(crate::rules::after_move(g, p, mv), p);
        crate::count_proofs::lemma_disks_bounds(crate::rules::after_move(g, p, mv), p.other());
    } else {
        lemma_best_upto_bounds(crate::rules::after_move(g, p, mv), p.other(), (depth - 1) as nat, 64);
    }
}

/// Every best score lies between the two infinities.
pub proof fn lemma_best_upto_bounds(g: Grid, p: Player, depth: nat, k: int)
    ensures
        -infinite() <= best_upto(g, p, depth, k) <= infinite(),
    decreases depth, k + 1,
{
    if k > 0 {
        lemma_best_upto_bounds(g, p, depth, k - 1);
        lemma_branch_value_bounds(g, p, square(k - 1), depth);
    }
}

} // verus!
