//! What holds of the rules and of the search, for every position.

use vstd::prelude::*;
use crate::board::{initial_grid, Cell, Grid, Move, Player};
use crate::ray_proofs::{lemma_ray_flips_len, lemma_run_lists};
use crate::rules::{
    after_move, dir_of, disks, disks_upto, flip_cells, flips_upto, is_direction, is_legal,
    legal_moves, on_board, ray_captures, ray_flips, shift,
};
use crate::scan_proofs::{lemma_best_upto_is_max, lemma_legal_upto, lemma_legal_upto_empty, square};
use crate::search::{best_value, branch_value, evaluation, infinite};

verus! {

/// The square `x` is the `k`-th of the `n` disks that the ray from `(r, c)` in
/// direction `(dr, dc)` captures.
pub open spec fn captured_on_ray(
    g: Grid,
    p: Player,
    r: int,
    c: int,
    dr: int,
    dc: int,
    n: int,
    k: int,
    x: Move,
) -> bool {
    &&& is_direction(dr, dc)
    &&& ray_captures(g, p, r, c, dr, dc, n)
    &&& 1 <= k <= n
    &&& x == (shift(r, dr, k) as usize, shift(c, dc, k) as usize)
}

/// The square `x` lies on a ray from `(r, c)` that captures, strictly between
/// `(r, c)` and the disk of `p` that ends the ray.
pub open spec fn is_captured(g: Grid, p: Player, r: int, c: int, x: Move) -> bool {
    exists|dr: int, dc: int, n: int, k: int| #[trigger] captured_on_ray(g, p, r, c, dr, dc, n, k, x)
}

/// A disk among the captures of the first `k` directions is among the captures
/// of one of them, and the other way round.
proof fn lemma_flips_upto_contains(g: Grid, p: Player, r: int, c: int, k: int, x: Move)
    requires
        0 <= k <= 9,
    ensures
        flips_upto(g, p, r, c, k).contains(x) <==> exists|j: int|
            0 <= j < k && (#[trigger] ray_flips(g, p, r, c, j)).contains(x),
    decreases k,
{
    if k > 0 {
        lemma_flips_upto_contains(g, p, r, c, k - 1, x);
        let head = flips_upto(g, p, r, c, k - 1);
        let tail = ray_flips(g, p, r, c, k - 1);
        let all = flips_upto(g, p, r, c, k);
        if all.contains(x) {
            let i = choose|i: int| 0 <= i < all.len() && all[i] == x;
            if i < head.len() {
                assert(head[i] == x);
            } else {
                assert(tail[i - head.len()] == x);
            }
        }
        if head.contains(x) {
            let i = choose|i: int| 0 <= i < head.len() && head[i] == x;
            assert(all[i] == x);
        }
        if tail.contains(x) {
            let i = choose|i: int| 0 <= i < tail.len() && tail[i] == x;
            assert(all[head.len() + i] == x);
        }
    }
}

/// A disk that a move turns over lies on a capturing ray.
proof fn lemma_flipped_is_captured(g: Grid, p: Player, r: int, c: int, x: Move)
    requires
        flip_cells(g, p, r, c).contains(x),
    ensures
        is_captured(g, p, r, c, x),
{
    lemma_flips_upto_contains(g, p, r, c, 9, x);
    let j = choose|j: int| 0 <= j < 9 && (#[trigger] ray_flips(g, p, r, c, j)).contains(x);
    let s = ray_flips(g, p, r, c, j);
    let i = choose|i: int| 0 <= i < s.len() && s[i] == x;
    let n = s.len() as int;
    let (dr, dc) = dir_of(j);
    lemma_ray_flips_len(g, p, r, c, j, n);
    lemma_run_lists(g, p, r + dr, c + dc, dr, dc, i);
    let k = n - i;
    assert(shift(r + dr, dr, n - 1 - i) == shift(r, dr, k));
    assert(shift(c + dc, dc, n - 1 - i) == shift(c, dc, k));
    assert(captured_on_ray(g, p, r, c, dr, dc, n, k, x));
}

/// A disk on a capturing ray from an empty square is turned over.
proof fn lemma_captured_is_flipped(
    g: Grid,
    p: Player,
    r: int,
    c: int,
    dr: int,
    dc: int,
    n: int,
    k: int,
    x: Move,
)
    requires
        on_board(r, c),
        g[r][c] == Cell::Empty,
        captured_on_ray(g, p, r, c, dr, dc, n, k, x),
    ensures
        flip_cells(g, p, r, c).contains(x),
{
    let j = (dr + 1) * 3 + (dc + 1);
    assert(dir_of(j) == (dr, dc));
    lemma_ray_flips_len(g, p, r, c, j, n);
    let s = ray_flips(g, p, r, c, j);
    lemma_run_lists(g, p, r + dr, c + dc, dr, dc, n - k);
    assert(shift(r + dr, dr, k - 1) == shift(r, dr, k));
    assert(shift(c + dc, dc, k - 1) == shift(c, dc, k));
    assert(s[n - k] == x);
    assert(s.contains(x));
    lemma_flips_upto_contains(g, p, r, c, 9, x);
}

/// The disks that a move turns over are exactly the opponent's disks that lie
/// on a capturing ray from an empty square, between that square and the disk
/// of the mover that ends the ray.
pub proof fn lemma_flip_cells_are_the_captured(g: Grid, p: Player, r: int, c: int, x: Move)
    ensures
        flip_cells(g, p, r, c).contains(x) <==> on_board(r, c) && g[r][c] == Cell::Empty
            && is_captured(g, p, r, c, x),
{
    if flip_cells(g, p, r, c).contains(x) {
        lemma_flipped_is_captured(g, p, r, c, x);
    }
    if on_board(r, c) && g[r][c] == Cell::Empty && is_captured(g, p, r, c, x) {
        let (dr, dc, n, k) = choose|dr: int, dc: int, n: int, k: int| #[trigger]
            captured_on_ray(g, p, r, c, dr, dc, n, k, x);
        lemma_captured_is_flipped(g, p, r, c, dr, dc, n, k, x);
    }
}

/// A square that was just played on cannot be played on again: whoever moves
/// next, the move is illegal there and turns nothing over.
pub proof fn lemma_replay_is_illegal(g: Grid, p: Player, mv: Move, q: Player)
    requires
        mv.0 < 8,
        mv.1 < 8,
    ensures
        after_move(g, p, mv)[mv.0 as int][mv.1 as int] == Cell::Taken(p),
        !is_legal(after_move(g, p, mv), q, mv.0 as int, mv.1 as int),
        flip_cells(after_move(g, p, mv), q, mv.0 as int, mv.1 as int) == Seq::<Move>::empty(),
{
}

/// The list of legal moves holds every legal move and nothing else, each once,
/// in increasing row-major order. So it is the same list whenever it is asked
/// for on the same position.
pub proof fn lemma_legal_moves_listed_in_order(g: Grid, p: Player)
    ensures
        forall|r: int, c: int|
            is_legal(g, p, r, c) ==> legal_moves(g, p).contains((r as usize, c as usize)),
        forall|n: int|
            0 <= n < legal_moves(g, p).len() ==> is_legal(
                g,
                p,
                (#[trigger] legal_moves(g, p)[n]).0 as int,
                legal_moves(g, p)[n].1 as int,
            ),
        forall|m: int, n: int|
            0 <= m < n < legal_moves(g, p).len() ==> 8 * (#[trigger] legal_moves(g, p)[m]).0
                + legal_moves(g, p)[m].1 < 8 * (#[trigger] legal_moves(g, p)[n]).0 + legal_moves(
                g,
                p,
            )[n].1,
{
    lemma_legal_upto(g, p, 64);
    assert forall|r: int, c: int| is_legal(g, p, r, c) implies legal_moves(g, p).contains(
        (r as usize, c as usize),
    ) by {
        let i = 8 * r + c;
        assert(i / 8 == r && i % 8 == c);
        assert(legal_moves(g, p).contains(square(i)));
    }
}

/// The opening position holds two disks of each side.
pub proof fn lemma_initial_disks(p: Player)
    ensures
        disks(initial_grid(), p) == 2,
{
    let g = initial_grid();
    assert(disks_upto(g, p, 0) == 0);
    match p {
        Player::White => {
            lemma_empty_stretch(g, p, 0, 27);
            assert(g[27int / 8][27int % 8] == Cell::Taken(p));
            assert(disks_upto(g, p, 28) == 1);
            lemma_empty_stretch(g, p, 28, 36);
            assert(g[36int / 8][36int % 8] == Cell::Taken(p));
            assert(disks_upto(g, p, 37) == 2);
            lemma_empty_stretch(g, p, 37, 64);
        },
        Player::Black => {
            lemma_empty_stretch(g, p, 0, 28);
            assert(g[28int / 8][28int % 8] == Cell::Taken(p));
            assert(disks_upto(g, p, 29) == 1);
            lemma_empty_stretch(g, p, 29, 35);
            assert(g[35int / 8][35int % 8] == Cell::Taken(p));
            assert(disks_upto(g, p, 36) == 2);
            lemma_empty_stretch(g, p, 36, 64);
        },
    }
}

/// Squares that hold no disk of `p` add nothing to the count.
proof fn lemma_empty_stretch(g: Grid, p: Player, k: int, m: int)
    requires
        0 <= k <= m,
        forall|i: int| k <= i < m ==> (#[trigger] g[i / 8])[i % 8] != Cell::Taken(p),
    ensures
        disks_upto(g, p, m) == disks_upto(g, p, k),
    decreases m - k,
{
    if k < m {
        lemma_empty_stretch(g, p, k, m - 1);
        assert(g[(m - 1) / 8][(m - 1) % 8] != Cell::Taken(p));
    }
}

/// What one side gains the other loses: a position is worth to the opponent
/// the negation of what it is worth to `p`.
pub proof fn lemma_evaluation_is_zero_sum(g: Grid, p: Player)
    ensures
        evaluation(g, p.other()) == -evaluation(g, p),
{
}

/// In a search deeper than one level, the score of a move for `p` is the
/// negation of the best score that the opponent finds, one level down, on the
/// position the move leads to.
pub proof fn lemma_branch_negates_reply(g: Grid, p: Player, mv: Move, depth: nat)
    requires
        depth > 1,
    ensures
        branch_value(g, p, mv, depth) == -best_value(
            after_move(g, p, mv),
            p.other(),
            (depth - 1) as nat,
        ),
{
}

/// At depth 1 the score of a move is the evaluation of the position it leads to.
pub proof fn lemma_branch_at_depth_one(g: Grid, p: Player, mv: Move)
    ensures
        branch_value(g, p, mv, 1) == evaluation(after_move(g, p, mv), p),
{
}

/// The score of a search is the greatest score of a legal move: no legal move
/// scores higher, some legal move reaches it when there is one, and it is
/// `-infinite()` when there is none.
pub proof fn lemma_best_value_is_max(g: Grid, p: Player, depth: nat)
    requires
        depth >= 1,
    ensures
        forall|r: int, c: int|
            is_legal(g, p, r, c) ==> #[trigger] branch_value(
                g,
                p,
                (r as usize, c as usize),
                depth,
            ) <= best_value(g, p, depth),
        legal_moves(g, p).len() == 0 ==> best_value(g, p, depth) == -infinite(),
        legal_moves(g, p).len() > 0 ==> exists|r: int, c: int|
            is_legal(g, p, r, c) && #[trigger] branch_value(g, p, (r as usize, c as usize), depth)
                == best_value(g, p, depth),
{
    lemma_best_upto_is_max(g, p, depth, 64);
    lemma_legal_upto_empty(g, p, 64);
    assert forall|r: int, c: int| is_legal(g, p, r, c) implies #[trigger] branch_value(
        g,
        p,
        (r as usize, c as usize),
        depth,
    ) <= best_value(g, p, depth) by {
        let i = 8 * r + c;
        assert(i / 8 == r && i % 8 == c);
        assert(square(i) == (r as usize, c as usize));
        assert(branch_value(g, p, square(i), depth) <= best_value(g, p, depth));
    }
    if legal_moves(g, p).len() > 0 {
        let i = choose|i: int|
            0 <= i < 64 && #[trigger] is_legal(g, p, i / 8, i % 8) && branch_value(
                g,
                p,
                square(i),
                depth,
            ) == best_value(g, p, depth);
        assert(is_legal(g, p, i / 8, i % 8) && branch_value(
            g,
            p,
            ((i / 8) as usize, (i % 8) as usize),
            depth,
        ) == best_value(g, p, depth));
    }
}

} // verus!
