//! The rules of the game as mathematics: rays, captures, legal moves, and
//! the position a move leads to.

use vstd::prelude::*;
use crate::board::{Cell, Grid, Move, Player};
use crate::referee::Outcome;

verus! {

/// Both coordinates lie on the board.
pub open spec fn on_board(r: int, c: int) -> bool {
    0 <= r < 8 && 0 <= c < 8
}

/// One of the eight compass steps.
pub open spec fn is_direction(dr: int, dc: int) -> bool {
    -1 <= dr <= 1 && -1 <= dc <= 1 && !(dr == 0 && dc == 0)
}

/// The coordinate reached from `x` after `k` steps along a component `d` of a direction.
pub open spec fn shift(x: int, d: int, k: int) -> int {
    if d > 0 {
        x + k
    } else if d < 0 {
        x - k
    } else {
        x
    }
}

/// The square `(r, c)` is on the board and holds a disk of `p`.
pub open spec fn owned_by(g: Grid, p: Player, r: int, c: int) -> bool {
    on_board(r, c) && g[r][c] == Cell::Taken(p)
}

/// The square `k` steps from `(r, c)` in direction `(dr, dc)` holds a disk of `p`.
pub open spec fn step_owned(g: Grid, p: Player, r: int, c: int, dr: int, dc: int, k: int) -> bool {
    owned_by(g, p, shift(r, dr, k), shift(c, dc, k))
}

/// The ray from `(r, c)` in direction `(dr, dc)` crosses exactly `n >= 1` disks of
/// the opponent and then meets a disk of `p`.
pub open spec fn ray_captures(g: Grid, p: Player, r: int, c: int, dr: int, dc: int, n: int) -> bool {
    &&& n >= 1
    &&& forall|k: int| 1 <= k <= n ==> #[trigger] step_owned(g, p.other(), r, c, dr, dc, k)
    &&& step_owned(g, p, r, c, dr, dc, n + 1)
}

/// `p` may play on `(r, c)`: the square is empty and some ray from it captures.
pub open spec fn is_legal(g: Grid, p: Player, r: int, c: int) -> bool {
    &&& on_board(r, c)
    &&& g[r][c] == Cell::Empty
    &&& exists|dr: int, dc: int, n: int|
        is_direction(dr, dc) && #[trigger] ray_captures(g, p, r, c, dr, dc, n)
}

/// How many more steps a coordinate `x` can take along `d` before leaving the board.
pub open spec fn room(x: int, d: int) -> int {
    if d > 0 {
        7 - x
    } else if d < 0 {
        x
    } else {
        0
    }
}

/// A bound on the number of squares a ray standing on `(r, c)` can still cross.
pub open spec fn reach(r: int, c: int, dr: int, dc: int) -> int {
    if dr != 0 {
        room(r, dr)
    } else {
        room(c, dc)
    }
}

/// The walk of a ray that has arrived on `(r, c)`: `None` when it runs into an empty
/// square or off the board, else the opponent's disks it crosses before the first
/// disk of `p`, the farthest first.
pub open spec fn captured_run(g: Grid, p: Player, r: int, c: int, dr: int, dc: int) -> Option<
    Seq<Move>,
>
    decreases room(r, dr) + room(c, dc),
{
    if !on_board(r, c) || !is_direction(dr, dc) {
        None
    } else if g[r][c] == Cell::Taken(p) {
        Some(Seq::empty())
    } else if g[r][c] == Cell::Taken(p.other()) && on_board(r + dr, c + dc) {
        match captured_run(g, p, r + dr, c + dc, dr, dc) {
            Some(s) => Some(s.push((r as usize, c as usize))),
            None => None,
        }
    } else {
        None
    }
}

/// The row and column offsets of the `j`-th square of a 3x3 neighbourhood, row by
/// row; `j == 4` is the centre.
pub open spec fn dir_of(j: int) -> (int, int) {
    (j / 3 - 1, j % 3 - 1)
}

/// The disks that a move on `(r, c)` captures along the `j`-th direction.
pub open spec fn ray_flips(g: Grid, p: Player, r: int, c: int, j: int) -> Seq<Move> {
    let (dr, dc) = dir_of(j);
    match captured_run(g, p, r + dr, c + dc, dr, dc) {
        Some(s) => s,
        None => Seq::empty(),
    }
}

/// The captures along the first `k` directions, one ray after the other.
pub open spec fn flips_upto(g: Grid, p: Player, r: int, c: int, k: int) -> Seq<Move>
    decreases k,
{
    if k <= 0 {
        Seq::empty()
    } else {
        flips_upto(g, p, r, c, k - 1) + ray_flips(g, p, r, c, k - 1)
    }
}

/// Every disk that turns over when `p` plays on `(r, c)`: empty when the square is
/// taken or off the board.
pub open spec fn flip_cells(g: Grid, p: Player, r: int, c: int) -> Seq<Move> {
    if on_board(r, c) && g[r][c] == Cell::Empty {
        flips_upto(g, p, r, c, 9)
    } else {
        Seq::empty()
    }
}

/// The `j`-th neighbour of `(r, c)` holds a disk of `p`'s opponent.
pub open spec fn is_adjacent_opposite(g: Grid, p: Player, r: int, c: int, j: int) -> bool {
    j != 4 && owned_by(g, p.other(), r + dir_of(j).0, c + dir_of(j).1)
}

/// The opponent's disks among the first `k` neighbours of `(r, c)`.
pub open spec fn adjacent_upto(g: Grid, p: Player, r: int, c: int, k: int) -> Seq<Move>
    decreases k,
{
    if k <= 0 {
        Seq::empty()
    } else if is_adjacent_opposite(g, p, r, c, k - 1) {
        adjacent_upto(g, p, r, c, k - 1).push(
            ((r + dir_of(k - 1).0) as usize, (c + dir_of(k - 1).1) as usize),
        )
    } else {
        adjacent_upto(g, p, r, c, k - 1)
    }
}

/// The opponent's disks that touch `(r, c)`, in row-major order.
pub open spec fn adjacent_opposites(g: Grid, p: Player, r: int, c: int) -> Seq<Move> {
    adjacent_upto(g, p, r, c, 9)
}

/// The captures of the ray that leaves `(r, c)` through the neighbouring square `cell`.
pub open spec fn run_toward(g: Grid, p: Player, r: int, c: int, cell: Move) -> Seq<Move> {
    match captured_run(g, p, cell.0 as int, cell.1 as int, cell.0 - r, cell.1 - c) {
        Some(s) => s,
        None => Seq::empty(),
    }
}

/// The captures of the rays through each square of `adj`, one ray after the other.
pub open spec fn flips_over(g: Grid, p: Player, r: int, c: int, adj: Seq<Move>) -> Seq<Move>
    decreases adj.len(),
{
    if adj.len() == 0 {
        Seq::empty()
    } else {
        flips_over(g, p, r, c, adj.drop_last()) + run_toward(g, p, r, c, adj.last())
    }
}

/// The legal moves of `p` among the first `k` squares in row-major order.
pub open spec fn legal_upto(g: Grid, p: Player, k: int) -> Seq<Move>
    decreases k,
{
    if k <= 0 {
        Seq::empty()
    } else if is_legal(g, p, (k - 1) / 8, (k - 1) % 8) {
        legal_upto(g, p, k - 1).push((((k - 1) / 8) as usize, ((k - 1) % 8) as usize))
    } else {
        legal_upto(g, p, k - 1)
    }
}

/// Every legal move of `p`, in row-major order.
pub open spec fn legal_moves(g: Grid, p: Player) -> Seq<Move> {
    legal_upto(g, p, 64)
}

/// The position after `p` puts a disk on `mv` and the disks on `flips` turn over.
pub open spec fn played(g: Grid, p: Player, mv: Move, flips: Seq<Move>) -> Grid {
    Seq::new(
        8,
        |r: int|
            Seq::new(
                8,
                |c: int|
                    if (r == mv.0 && c == mv.1) || flips.contains((r as usize, c as usize)) {
                        Cell::Taken(p)
                    } else {
                        g[r][c]
                    },
            ),
    )
}

/// The position after `p` plays on `mv` and captures what the rules give.
pub open spec fn after_move(g: Grid, p: Player, mv: Move) -> Grid {
    played(g, p, mv, flip_cells(g, p, mv.0 as int, mv.1 as int))
}

/// The number of disks of `p` on the first `k` squares in row-major order.
pub open spec fn disks_upto(g: Grid, p: Player, k: int) -> int
    decreases k,
{
    if k <= 0 {
        0
    } else {
        disks_upto(g, p, k - 1) + if g[(k - 1) / 8][(k - 1) % 8] == Cell::Taken(p) {
            1int
        } else {
            0int
        }
    }
}

/// The number of disks of `p` on the board.
pub open spec fn disks(g: Grid, p: Player) -> int {
    disks_upto(g, p, 64)
}

/// The side that holds more disks wins; equal counts are a tie.
pub open spec fn outcome_of(g: Grid) -> Outcome {
    if disks(g, Player::Black) > disks(g, Player::White) {
        Outcome::Won(Player::Black)
    } else if disks(g, Player::White) > disks(g, Player::Black) {
        Outcome::Won(Player::White)
    } else {
        Outcome::Tie
    }
}

/// The place of a square in row-major order. Squares right of the board count
/// as the start of the next row, squares below it as the end of the scan.
pub open spec fn scan_index(mv: Move) -> int {
    if mv.0 >= 8 {
        64
    } else if mv.1 >= 8 {
        8 * mv.0 + 8
    } else {
        8 * mv.0 + mv.1
    }
}

/// The first legal move of `p` among the squares `k..64` in row-major order,
/// or `(8, 8)` when there is none.
pub open spec fn next_legal_from(g: Grid, p: Player, k: int) -> Move
    decreases 64 - k,
{
    if k < 0 || k >= 64 {
        (8, 8)
    } else if is_legal(g, p, k / 8, k % 8) {
        ((k / 8) as usize, (k % 8) as usize)
    } else {
        next_legal_from(g, p, k + 1)
    }
}

/// The first legal move of `p` at or after `start` in row-major order, or
/// `(8, 8)` when there is none.
pub open spec fn next_legal(g: Grid, p: Player, start: Move) -> Move {
    next_legal_from(g, p, scan_index(start))
}

} // verus!
