//! How the step-by-step walk of a ray relates to what a ray captures.

use vstd::prelude::*;
use crate::board::{Cell, Grid, Move, Player};
use crate::rules::{
    adjacent_upto, captured_run, dir_of, flip_cells, flips_over, flips_upto, is_adjacent_opposite,
    is_direction, is_legal, on_board, ray_captures, ray_flips, reach, room, run_toward, shift,
    step_owned,
};

verus! {

/// A walk that succeeds crosses no more squares than the board has room for.
pub proof fn lemma_run_length(g: Grid, p: Player, r: int, c: int, dr: int, dc: int)
    ensures
        captured_run(g, p, r, c, dr, dc) matches Some(s) ==> s.len() <= reach(r, c, dr, dc)
            && reach(r, c, dr, dc) <= 7,
    decreases room(r, dr) + room(c, dc),
{
    if on_board(r, c) && is_direction(dr, dc) && g[r][c] == Cell::Taken(p.other()) && on_board(
        r + dr,
        c + dc,
    ) {
        lemma_run_length(g, p, r + dr, c + dc, dr, dc);
    }
}

/// A walk that succeeds from `(r, c)` with `n` squares crossed passed over disks of
/// the opponent on steps `0..n` and met a disk of `p` on step `n`.
pub proof fn lemma_run_describes(g: Grid, p: Player, r: int, c: int, dr: int, dc: int)
    requires
        captured_run(g, p, r, c, dr, dc) is Some,
    ensures
        is_direction(dr, dc),
        forall|k: int|
            0 <= k < captured_run(g, p, r, c, dr, dc).unwrap().len() ==> #[trigger] step_owned(
                g,
                p.other(),
                r,
                c,
                dr,
                dc,
                k,
            ),
        step_owned(g, p, r, c, dr, dc, captured_run(g, p, r, c, dr, dc).unwrap().len() as int),
    decreases room(r, dr) + room(c, dc),
{
    let s = captured_run(g, p, r, c, dr, dc).unwrap();
    let n = s.len() as int;
    if g[r][c] == Cell::Taken(p) {
        assert(n == 0);
    } else {
        lemma_run_describes(g, p, r + dr, c + dc, dr, dc);
        let t = captured_run(g, p, r + dr, c + dc, dr, dc).unwrap();
        assert(s == t.push((r as usize, c as usize)));
        assert(n == t.len() + 1);
        assert forall|k: int| 0 <= k < n implies #[trigger] step_owned(
            g,
            p.other(),
            r,
            c,
            dr,
            dc,
            k,
        ) by {
            if k > 0 {
                assert(step_owned(g, p.other(), r + dr, c + dc, dr, dc, k - 1));
                assert(shift(r + dr, dr, k - 1) == shift(r, dr, k));
                assert(shift(c + dc, dc, k - 1) == shift(c, dc, k));
            }
        }
        assert(step_owned(g, p, r + dr, c + dc, dr, dc, n - 1));
        assert(shift(r + dr, dr, n - 1) == shift(r, dr, n));
        assert(shift(c + dc, dc, n - 1) == shift(c, dc, n));
    }
}

/// A walk that succeeds lists the squares it crossed from the farthest back to
/// the square it started on.
pub proof fn lemma_run_lists(g: Grid, p: Player, r: int, c: int, dr: int, dc: int, i: int)
    requires
        captured_run(g, p, r, c, dr, dc) is Some,
        0 <= i < captured_run(g, p, r, c, dr, dc).unwrap().len(),
    ensures
        ({
            let s = captured_run(g, p, r, c, dr, dc).unwrap();
            s[i] == (shift(r, dr, s.len() - 1 - i) as usize, shift(c, dc, s.len() - 1 - i) as usize)
        }),
    decreases room(r, dr) + room(c, dc),
{
    let s = captured_run(g, p, r, c, dr, dc).unwrap();
    let n = s.len() as int;
    if g[r][c] == Cell::Taken(p) {
    } else {
        let t = captured_run(g, p, r + dr, c + dc, dr, dc).unwrap();
        assert(s == t.push((r as usize, c as usize)));
        if i < n - 1 {
            lemma_run_lists(g, p, r + dr, c + dc, dr, dc, i);
            assert(s[i] == t[i]);
            assert(shift(r + dr, dr, n - 2 - i) == shift(r, dr, n - 1 - i));
            assert(shift(c + dc, dc, n - 2 - i) == shift(c, dc, n - 1 - i));
        }
    }
}

/// Where disks of the opponent stand on steps `0..m` from `(r, c)` and a disk of
/// `p` on step `m`, the walk from `(r, c)` succeeds and crosses `m` squares.
pub proof fn lemma_captures_run(g: Grid, p: Player, r: int, c: int, dr: int, dc: int, m: int)
    requires
        is_direction(dr, dc),
        m >= 0,
        forall|k: int| 0 <= k < m ==> #[trigger] step_owned(g, p.other(), r, c, dr, dc, k),
        step_owned(g, p, r, c, dr, dc, m),
    ensures
        captured_run(g, p, r, c, dr, dc) matches Some(s) && s.len() == m,
    decreases m,
{
    if m > 0 {
        assert(step_owned(g, p.other(), r, c, dr, dc, 0));
        assert forall|k: int| 0 <= k < m - 1 implies #[trigger] step_owned(
            g,
            p.other(),
            r + dr,
            c + dc,
            dr,
            dc,
            k,
        ) by {
            assert(step_owned(g, p.other(), r, c, dr, dc, k + 1));
        }
        if m > 1 {
            assert(step_owned(g, p.other(), r, c, dr, dc, 1));
        }
        lemma_captures_run(g, p, r + dr, c + dc, dr, dc, m - 1);
    }
}

/// The ray along the `j`-th direction captures `n >= 1` disks exactly when the
/// walk from the neighbouring square yields `n` squares.
pub proof fn lemma_ray_flips_len(g: Grid, p: Player, r: int, c: int, j: int, n: int)
    requires
        0 <= j < 9,
        n >= 1,
    ensures
        ray_captures(g, p, r, c, dir_of(j).0, dir_of(j).1, n) && j != 4 <==> ray_flips(
            g,
            p,
            r,
            c,
            j,
        ).len() == n,
{
    let (dr, dc) = dir_of(j);
    if ray_captures(g, p, r, c, dr, dc, n) && j != 4 {
        assert forall|k: int| 0 <= k < n implies #[trigger] step_owned(
            g,
            p.other(),
            r + dr,
            c + dc,
            dr,
            dc,
            k,
        ) by {
            assert(step_owned(g, p.other(), r, c, dr, dc, k + 1));
        }
        lemma_captures_run(g, p, r + dr, c + dc, dr, dc, n);
    }
    if ray_flips(g, p, r, c, j).len() == n {
        lemma_run_describes(g, p, r + dr, c + dc, dr, dc);
        assert forall|k: int| 1 <= k <= n implies #[trigger] step_owned(
            g,
            p.other(),
            r,
            c,
            dr,
            dc,
            k,
        ) by {
            assert(step_owned(g, p.other(), r + dr, c + dc, dr, dc, k - 1));
        }
    }
}

/// The captures along the first `k` directions are empty exactly when each of
/// those rays captures nothing.
pub proof fn lemma_flips_upto_empty(g: Grid, p: Player, r: int, c: int, k: int)
    requires
        0 <= k <= 9,
    ensures
        flips_upto(g, p, r, c, k).len() == 0 <==> forall|j: int|
            0 <= j < k ==> (#[trigger] ray_flips(g, p, r, c, j)).len() == 0,
    decreases k,
{
    if k > 0 {
        lemma_flips_upto_empty(g, p, r, c, k - 1);
    }
}

/// Every disk that a ray captures stands on the board.
pub proof fn lemma_ray_flips_on_board(g: Grid, p: Player, r: int, c: int, j: int)
    ensures
        forall|i: int|
            0 <= i < ray_flips(g, p, r, c, j).len() ==> (#[trigger] ray_flips(g, p, r, c, j)[i]).0
                < 8 && ray_flips(g, p, r, c, j)[i].1 < 8,
{
    let (dr, dc) = dir_of(j);
    let s = ray_flips(g, p, r, c, j);
    assert forall|i: int| 0 <= i < s.len() implies (#[trigger] s[i]).0 < 8 && s[i].1 < 8 by {
        lemma_run_describes(g, p, r + dr, c + dc, dr, dc);
        lemma_run_lists(g, p, r + dr, c + dc, dr, dc, i);
        assert(step_owned(g, p.other(), r + dr, c + dc, dr, dc, s.len() - 1 - i));
    }
}

/// Every disk captured along the first `k` directions stands on the board.
pub proof fn lemma_flips_upto_on_board(g: Grid, p: Player, r: int, c: int, k: int)
    requires
        0 <= k <= 9,
    ensures
        forall|i: int|
            0 <= i < flips_upto(g, p, r, c, k).len() ==> (#[trigger] flips_upto(g, p, r, c, k)[i]).0
                < 8 && flips_upto(g, p, r, c, k)[i].1 < 8,
    decreases k,
{
    if k > 0 {
        lemma_flips_upto_on_board(g, p, r, c, k - 1);
        lemma_ray_flips_on_board(g, p, r, c, k - 1);
        let head = flips_upto(g, p, r, c, k - 1);
        let tail = ray_flips(g, p, r, c, k - 1);
        let all = flips_upto(g, p, r, c, k);
        assert forall|i: int| 0 <= i < all.len() implies (#[trigger] all[i]).0 < 8 && all[i].1
            < 8 by {
            if i < head.len() {
                assert(all[i] == head[i]);
            } else {
                assert(all[i] == tail[i - head.len()]);
            }
        }
    }
}

/// Every disk that a move turns over stands on the board.
pub proof fn lemma_flip_cells_on_board(g: Grid, p: Player, r: int, c: int)
    ensures
        forall|i: int|
            0 <= i < flip_cells(g, p, r, c).len() ==> (#[trigger] flip_cells(g, p, r, c)[i]).0 < 8
                && flip_cells(g, p, r, c)[i].1 < 8,
{
    lemma_flips_upto_on_board(g, p, r, c, 9);
}

/// A move is legal exactly when it captures at least one disk.
pub proof fn lemma_legal_iff_captures(g: Grid, p: Player, r: int, c: int)
    ensures
        is_legal(g, p, r, c) <==> flip_cells(g, p, r, c).len() > 0,
{
    if on_board(r, c) && g[r][c] == Cell::Empty {
        lemma_flips_upto_empty(g, p, r, c, 9);
        if is_legal(g, p, r, c) {
            let (dr, dc, n) = choose|dr: int, dc: int, n: int|
                is_direction(dr, dc) && #[trigger] ray_captures(g, p, r, c, dr, dc, n);
            let j = (dr + 1) * 3 + (dc + 1);
            assert(dir_of(j) == (dr, dc));
            lemma_ray_flips_len(g, p, r, c, j, n);
            assert(ray_flips(g, p, r, c, j).len() > 0);
        }
        if flip_cells(g, p, r, c).len() > 0 {
            let j = choose|j: int| 0 <= j < 9 && (#[trigger] ray_flips(g, p, r, c, j)).len() != 0;
            let n = ray_flips(g, p, r, c, j).len() as int;
            lemma_ray_flips_len(g, p, r, c, j, n);
            assert(is_direction(dir_of(j).0, dir_of(j).1));
            assert(ray_captures(g, p, r, c, dir_of(j).0, dir_of(j).1, n));
        }
    }
}

/// Neighbours that hold no disk of the opponent add nothing to the list.
pub proof fn lemma_adjacent_skip(g: Grid, p: Player, r: int, c: int, k: int, m: int)
    requires
        0 <= k <= m,
        forall|j: int| k <= j < m ==> !#[trigger] is_adjacent_opposite(g, p, r, c, j),
    ensures
        adjacent_upto(g, p, r, c, m) == adjacent_upto(g, p, r, c, k),
    decreases m - k,
{
    if k < m {
        lemma_adjacent_skip(g, p, r, c, k, m - 1);
        assert(!is_adjacent_opposite(g, p, r, c, m - 1));
    }
}

/// Casting a ray through each neighbouring disk of the opponent gathers the same
/// captures as casting one along every direction.
pub proof fn lemma_flips_over_adjacent(g: Grid, p: Player, r: int, c: int, k: int)
    requires
        on_board(r, c),
        0 <= k <= 9,
    ensures
        flips_over(g, p, r, c, adjacent_upto(g, p, r, c, k)) == flips_upto(g, p, r, c, k),
        adjacent_upto(g, p, r, c, k).len() <= k,
        forall|i: int|
            0 <= i < adjacent_upto(g, p, r, c, k).len() ==> {
                let cell = #[trigger] adjacent_upto(g, p, r, c, k)[i];
                on_board(cell.0 as int, cell.1 as int) && is_direction(cell.0 - r, cell.1 - c)
            },
    decreases k,
{
    if k > 0 {
        lemma_flips_over_adjacent(g, p, r, c, k - 1);
        let j = k - 1;
        let (dr, dc) = dir_of(j);
        let before = adjacent_upto(g, p, r, c, k - 1);
        if is_adjacent_opposite(g, p, r, c, j) {
            let cell = ((r + dr) as usize, (c + dc) as usize);
            let now = adjacent_upto(g, p, r, c, k);
            assert(now == before.push(cell));
            assert(now.drop_last() =~= before);
            assert(now.last() == cell);
            assert(run_toward(g, p, r, c, cell) == ray_flips(g, p, r, c, j));
        } else {
            assert(ray_flips(g, p, r, c, j) =~= Seq::<Move>::empty());
            assert(flips_upto(g, p, r, c, k) =~= flips_upto(g, p, r, c, k - 1));
        }
    }
}

} // verus!
