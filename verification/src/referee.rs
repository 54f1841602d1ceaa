//! The referee: which moves are legal, what they capture, how they change the
//! board, and who has won.

use vstd::prelude::*;
use crate::board::{Board, Cell, Move, Player};
use crate::common::CellList;
use crate::ray_proofs::{
    lemma_adjacent_skip, lemma_flip_cells_on_board, lemma_flips_over_adjacent, lemma_legal_iff_captures,
    lemma_run_length,
};
use crate::rules::{
    adjacent_opposites, adjacent_upto, after_move, captured_run, dir_of, disks, disks_upto,
    flip_cells, flips_over, is_adjacent_opposite, is_direction, is_legal, legal_moves, legal_upto,
    next_legal, on_board, outcome_of, played, reach, room, run_toward, scan_index,
};

verus! {

/// How a finished game ended.
#[derive(Debug, Clone, Copy, PartialEq, Eq, Structural)]
pub enum Outcome {
    Won(Player),
    Tie,
}

/// The rules, with two scratch lists that are reused from call to call.
pub struct Referee {
    adjacent_opposites: CellList,
    flip_cells: CellList,
}

impl Default for Referee {
    fn default() -> (r: Referee)
        ensures
            r.wf(),
            r.is_fresh(),
    {
        Referee { adjacent_opposites: CellList::default(), flip_cells: CellList::default() }
    }
}

impl Referee {
    /// Neither scratch list holds more than its storage has room for.
    pub closed spec fn wf(&self) -> bool {
        self.adjacent_opposites.wf() && self.flip_cells.wf()
    }

    /// Both scratch lists are empty, as in a referee that has not been asked yet.
    pub closed spec fn is_fresh(&self) -> bool {
        self.adjacent_opposites@ == Seq::<Move>::empty() && self.flip_cells@ == Seq::<Move>::empty()
    }

    /// Whether `player` may play on `maybe_move`.
    pub fn validate_move(&mut self, board: &Board, player: Player, maybe_move: Move) -> (ok: bool)
        requires
            maybe_move.0 < 8,
            maybe_move.1 < 8,
        ensures
            ok == is_legal(board@, player, maybe_move.0 as int, maybe_move.1 as int),
            old(self).wf() ==> final(self).wf(),
    {
        Self::find_flip_cells_for_move_internal(
            board,
            player,
            maybe_move,
            &mut self.adjacent_opposites,
            &mut self.flip_cells,
        )
    }

    /// Fills `result` with the disks that turn over when `player` plays on
    /// `maybe_move`, and says whether the move is legal.
    pub fn find_flip_cells_for_move(
        &mut self,
        board: &Board,
        player: Player,
        maybe_move: Move,
        result: &mut CellList,
    ) -> (ok: bool)
        requires
            maybe_move.0 < 8,
            maybe_move.1 < 8,
        ensures
            ok == is_legal(board@, player, maybe_move.0 as int, maybe_move.1 as int),
            ok == (final(result)@.len() > 0),
            final(result).wf(),
            final(result)@ == flip_cells(board@, player, maybe_move.0 as int, maybe_move.1 as int),
            old(self).wf() ==> final(self).wf(),
    {
        Self::find_flip_cells_for_move_internal(
            board,
            player,
            maybe_move,
            &mut self.adjacent_opposites,
            result,
        )
    }

    /// Lists in `result` every legal move of `player`, row by row, and says
    /// whether there is one.
    pub fn find_all_valid_moves(&mut self, board: &Board, player: Player, result: &mut CellList) -> (found:
        bool)
        ensures
            final(result).wf(),
            final(result)@ == legal_moves(board@, player),
            found == (final(result)@.len() > 0),
            old(self).wf() ==> final(self).wf(),
    {
        result.count = 0;
        let ghost g = board@;
        proof {
            assert(result@ =~= Seq::<Move>::empty());
        }
        let mut row: usize = 0;
        while row < Board::SIZE
            invariant
                g == board@,
                row <= 8,
                old(self).wf() ==> self.wf(),
                result.count <= 8 * row,
                result@ == legal_upto(g, player, 8 * row),
            decreases 8 - row,
        {
            let mut col: usize = 0;
            while col < Board::SIZE
                invariant
                    g == board@,
                    row < 8,
                    col <= 8,
                    old(self).wf() ==> self.wf(),
                    result.count <= 8 * row + col,
                    result@ == legal_upto(g, player, 8 * row + col),
                decreases 8 - col,
            {
                proof {
                    assert((8 * row + col) / 8 == row);
                    assert((8 * row + col) % 8 == col);
                }
                if self.validate_move(board, player, (row, col)) {
                    result.push_back((row, col));
                }
                col += 1;
            }
            row += 1;
        }
        result.count != 0
    }

    /// Counts the disks of `player` and of the opponent, in that order.
    pub fn count_disks(board: &Board, player: Player) -> (counts: (i32, i32))
        ensures
            counts.0 == disks(board@, player),
            counts.1 == disks(board@, player.other()),
            0 <= counts.0,
            0 <= counts.1,
            counts.0 + counts.1 <= 64,
    {
        let mut black_count: i32 = 0;
        let mut white_count: i32 = 0;
        let ghost g = board@;
        let mut row: usize = 0;
        while row < Board::SIZE
            invariant
                g == board@,
                row <= 8,
                0 <= black_count,
                0 <= white_count,
                black_count + white_count <= 8 * row,
                black_count == disks_upto(g, Player::Black, 8 * row),
                white_count == disks_upto(g, Player::White, 8 * row),
            decreases 8 - row,
        {
            let mut col: usize = 0;
            while col < Board::SIZE
                invariant
                    g == board@,
                    row < 8,
                    col <= 8,
                    0 <= black_count,
                    0 <= white_count,
                    black_count + white_count <= 8 * row + col,
                    black_count == disks_upto(g, Player::Black, 8 * row + col),
                    white_count == disks_upto(g, Player::White, 8 * row + col),
                decreases 8 - col,
            {
                proof {
                    assert((8 * row + col) / 8 == row);
                    assert((8 * row + col) % 8 == col);
                    assert(g[row as int][col as int] == board.grid[row as int][col as int]);
                }
                match board.grid[row][col] {
                    Cell::Empty => {},
                    Cell::Taken(Player::Black) => black_count += 1,
                    Cell::Taken(Player::White) => white_count += 1,
                }
                col += 1;
            }
            row += 1;
        }
        match player {
            Player::Black => (black_count, white_count),
            Player::White => (white_count, black_count),
        }
    }

    /// Who holds more disks. Meant for a finished game, in which neither side can move.
    pub fn check_outcome(board: &Board) -> (outcome: Outcome)
        ensures
            outcome == outcome_of(board@),
    {
        let (black_count, white_count) = Self::count_disks(board, Player::Black);
        if black_count > white_count {
            Outcome::Won(Player::Black)
        } else if white_count > black_count {
            Outcome::Won(Player::White)
        } else {
            Outcome::Tie
        }
    }

    /// Plays the first legal move of `player` at or after `start` in row-major
    /// order and returns it, or leaves the board alone and returns `(8, 8)`.
    pub fn find_and_apply_next_valid_move(&mut self, board: &mut Board, player: Player, start: Move) -> (mv:
        Move)
        ensures
            mv == next_legal(old(board)@, player, start),
            mv.0 < 8 ==> final(board)@ == after_move(old(board)@, player, mv),
            mv.0 >= 8 ==> *final(board) == *old(board),
            old(self).wf() ==> final(self).wf(),
    {
        let (start_row, start_col) = start;
        let mut row = start_row;
        let mut col = start_col;
        let ghost g = board@;
        while row < Board::SIZE
            invariant
                g == board@,
                *board == *old(board),
                old(self).wf() ==> self.wf(),
                scan_index((row, col)) <= 64 || row >= 8,
                next_legal(g, player, start) == next_legal(g, player, (row, col)),
            decreases 8 - row,
        {
            while col < Board::SIZE
                invariant
                    g == board@,
                    *board == *old(board),
                    old(self).wf() ==> self.wf(),
                    row < 8,
                    next_legal(g, player, start) == next_legal(g, player, (row, col)),
                decreases 8 - col,
            {
                proof {
                    assert(scan_index((row, col)) == 8 * row + col);
                    assert((8 * row + col) / 8 == row);
                    assert((8 * row + col) % 8 == col);
                    assert(scan_index((row, (col + 1) as usize)) == 8 * row + col + 1);
                }
                if Self::find_flip_cells_for_move_internal(
                    board,
                    player,
                    (row, col),
                    &mut self.adjacent_opposites,
                    &mut self.flip_cells,
                ) {
                    proof {
                        lemma_flip_cells_on_board(g, player, row as int, col as int);
                    }
                    Self::apply_move(board, player, (row, col), &self.flip_cells);
                    return (row, col);
                }
                col += 1;
            }
            proof {
                assert(scan_index((row, col)) == scan_index(((row + 1) as usize, 0)));
            }
            row += 1;
            col = 0;
        }
        (Board::SIZE, Board::SIZE)
    }

    /// Puts a disk of `player` on the given square and turns every disk listed in
    /// `flip_cells` over to `player`.
    pub fn apply_move(board: &mut Board, player: Player, mv: Move, flip_cells: &CellList)
        requires
            mv.0 < 8,
            mv.1 < 8,
            flip_cells.wf(),
            forall|i: int|
                0 <= i < flip_cells@.len() ==> (#[trigger] flip_cells@[i]).0 < 8 && flip_cells@[i].1
                    < 8,
        ensures
            final(board)@ == played(old(board)@, player, mv, flip_cells@),
    {
        let (row, col) = mv;
        board.grid[row][col] = Cell::Taken(player);
        let cells = flip_cells.iter();
        let ghost g = old(board)@;
        proof {
            assert(board@ =~~= played(g, player, mv, cells@.take(0)));
        }
        let mut i: usize = 0;
        while i < cells.len()
            invariant
                i <= cells@.len(),
                mv == (row, col),
                row < 8,
                col < 8,
                forall|i: int| 0 <= i < cells@.len() ==> (#[trigger] cells@[i]).0 < 8 && cells@[i].1 < 8,
                board@ == played(g, player, mv, cells@.take(i as int)),
            decreases cells.len() - i,
        {
            let (flip_row, flip_col) = cells[i];
            board.grid[flip_row][flip_col] = Cell::Taken(player);
            proof {
                let before = cells@.take(i as int);
                let now = cells@.take(i + 1);
                assert(now =~= before.push(cells@[i as int]));
                assert forall|x: Move| now.contains(x) <==> before.contains(x) || x == cells@[i as int] by {
                    if before.contains(x) {
                        let k = choose|k: int| 0 <= k < before.len() && before[k] == x;
                        assert(now[k] == x);
                    }
                    if x == cells@[i as int] {
                        assert(now[i as int] == x);
                    }
                }
                let target = played(g, player, mv, now);
                assert forall|r: int, c: int| 0 <= r < 8 && 0 <= c < 8 implies #[trigger] board@[r][c]
                    == target[r][c] by {
                    let x = (r as usize, c as usize);
                    assert(now.contains(x) <==> before.contains(x) || x == cells@[i as int]);
                    assert(played(g, player, mv, before)[r][c] == if (r == mv.0 && c == mv.1)
                        || before.contains(x) {
                        Cell::Taken(player)
                    } else {
                        g[r][c]
                    });
                }
                assert(board@ =~~= target);
            }
            i += 1;
        }
        assert(cells@.take(cells@.len() as int) =~= cells@);
    }

    fn find_flip_cells_for_move_internal(
        board: &Board,
        player: Player,
        maybe_move: Move,
        adjacent_opposites: &mut CellList,
        flip_cells: &mut CellList,
    ) -> (ok: bool)
        requires
            maybe_move.0 < 8,
            maybe_move.1 < 8,
        ensures
            ok == is_legal(board@, player, maybe_move.0 as int, maybe_move.1 as int),
            ok == (final(flip_cells)@.len() > 0),
            final(flip_cells).wf(),
            final(flip_cells)@ == crate::rules::flip_cells(
                board@,
                player,
                maybe_move.0 as int,
                maybe_move.1 as int,
            ),
            old(adjacent_opposites).wf() ==> final(adjacent_opposites).wf(),
    {
        flip_cells.count = 0;
        proof {
            lemma_legal_iff_captures(board@, player, maybe_move.0 as int, maybe_move.1 as int);
            lemma_flips_over_adjacent(board@, player, maybe_move.0 as int, maybe_move.1 as int, 9);
            assert(flip_cells@ =~= Seq::<Move>::empty());
        }
        match board.cell(maybe_move) {
            Cell::Empty => {
                if Self::find_adjacent_opposites(board, player, maybe_move, adjacent_opposites) {
                    Self::find_flip_cells(board, player, maybe_move, adjacent_opposites, flip_cells)
                } else {
                    false
                }
            },
            Cell::Taken(_) => false,
        }
    }

    /// Lists in `result` the opponent's disks on the squares that touch the given one.
    fn find_adjacent_opposites(board: &Board, player: Player, mv: Move, result: &mut CellList) -> (found:
        bool)
        requires
            mv.0 < 8,
            mv.1 < 8,
        ensures
            final(result).wf(),
            final(result)@ == adjacent_opposites(board@, player, mv.0 as int, mv.1 as int),
            found == (final(result)@.len() > 0),
    {
        let (row, col) = mv;
        let start_row: usize = if row == 0 { 0 } else { row - 1 };
        let end_row: usize = if row + 1 == Board::SIZE { Board::SIZE } else { row + 2 };
        let start_col: usize = if col == 0 { 0 } else { col - 1 };
        let end_col: usize = if col + 1 == Board::SIZE { Board::SIZE } else { col + 2 };

        result.count = 0;
        let ghost g = board@;
        proof {
            assert(result@ =~= Seq::<Move>::empty());
            if row == 0 {
                lemma_adjacent_skip(g, player, row as int, col as int, 0, 3);
            }
        }

        let mut other_row: usize = start_row;
        while other_row < end_row
            invariant
                row < 8,
                col < 8,
                mv == (row, col),
                g == board@,
                start_row == if row == 0 { 0 } else { row - 1 },
                end_row == if row + 1 == 8 { 8 } else { row + 2 },
                start_col == if col == 0 { 0 } else { col - 1 },
                end_col == if col + 1 == 8 { 8 } else { col + 2 },
                start_row <= other_row <= end_row,
                result.count <= 3 * (other_row - row + 1),
                result@ == adjacent_upto(g, player, row as int, col as int, 3 * (other_row - row + 1)),
            decreases end_row - other_row,
        {
            let ghost base: int = 3 * (other_row - row + 1);
            proof {
                if col == 0 {
                    lemma_adjacent_skip(g, player, row as int, col as int, base, base + 1);
                }
            }
            let mut other_col: usize = start_col;
            while other_col < end_col
                invariant
                    row < 8,
                    col < 8,
                    g == board@,
                    start_col == if col == 0 { 0 } else { col - 1 },
                    end_col == if col + 1 == 8 { 8 } else { col + 2 },
                    start_col <= other_col <= end_col,
                    other_row < 8,
                    row <= other_row + 1 <= row + 2,
                    base == 3 * (other_row - row + 1),
                    result.count <= base + (other_col - col + 1),
                    result@ == adjacent_upto(
                        g,
                        player,
                        row as int,
                        col as int,
                        base + (other_col - col + 1),
                    ),
                decreases end_col - other_col,
            {
                let ghost j: int = base + (other_col - col + 1);
                proof {
                    assert(dir_of(j) == (other_row - row, other_col - col));
                    assert(g[other_row as int][other_col as int]
                        == board.grid[other_row as int][other_col as int]);
                }
                if other_row != row || other_col != col {
                    if let Cell::Taken(other_disk) = board.grid[other_row][other_col] {
                        if other_disk != player {
                            assert(is_adjacent_opposite(g, player, row as int, col as int, j));
                            result.push_back((other_row, other_col));
                        }
                    }
                }
                other_col += 1;
            }
            proof {
                if col == 7 {
                    lemma_adjacent_skip(g, player, row as int, col as int, base + 2, base + 3);
                }
            }
            other_row += 1;
        }
        proof {
            if row == 7 {
                lemma_adjacent_skip(g, player, row as int, col as int, 6, 9);
            }
        }
        result.count != 0
    }

    /// Casts a ray from the given square through each square of
    /// `adjacent_opposites` and gathers in `result` what the rays capture.
    fn find_flip_cells(
        board: &Board,
        player: Player,
        mv: Move,
        adjacent_opposites: &CellList,
        result: &mut CellList,
    ) -> (found: bool)
        requires
            mv.0 < 8,
            mv.1 < 8,
            adjacent_opposites.count <= 9,
            forall|i: int|
                0 <= i < adjacent_opposites@.len() ==> {
                    let cell = #[trigger] adjacent_opposites@[i];
                    on_board(cell.0 as int, cell.1 as int) && is_direction(
                        cell.0 - mv.0,
                        cell.1 - mv.1,
                    )
                },
        ensures
            final(result).wf(),
            final(result)@ == flips_over(
                board@,
                player,
                mv.0 as int,
                mv.1 as int,
                adjacent_opposites@,
            ),
            found == (final(result)@.len() > 0),
    {
        let (row, col) = mv;
        result.count = 0;
        let cells = adjacent_opposites.iter();
        let ghost g = board@;
        proof {
            assert(result@ =~= Seq::<Move>::empty());
            assert(cells@.take(0) =~= Seq::<Move>::empty());
        }
        let mut i: usize = 0;
        while i < cells.len()
            invariant
                row < 8,
                col < 8,
                g == board@,
                cells@ == adjacent_opposites@,
                cells@.len() <= 9,
                i <= cells@.len(),
                forall|i: int|
                    0 <= i < cells@.len() ==> {
                        let cell = #[trigger] cells@[i];
                        on_board(cell.0 as int, cell.1 as int) && is_direction(
                            cell.0 - row,
                            cell.1 - col,
                        )
                    },
                result.count <= 6 * i,
                result@ == flips_over(g, player, row as int, col as int, cells@.take(i as int)),
            decreases cells.len() - i,
        {
            let (adjacent_row, adjacent_col) = cells[i];
            let ghost cell = cells@[i as int];
            let direction = (adjacent_row as i32 - row as i32, adjacent_col as i32 - col as i32);
            proof {
                assert(cells@.take(i + 1).drop_last() =~= cells@.take(i as int));
                assert(cells@.take(i + 1).last() == cell);
                lemma_run_length(
                    g,
                    player,
                    adjacent_row as int,
                    adjacent_col as int,
                    direction.0 as int,
                    direction.1 as int,
                );
                assert(reach(
                    adjacent_row as int,
                    adjacent_col as int,
                    direction.0 as int,
                    direction.1 as int,
                ) <= 6);
            }
            let ghost before = result@;
            Self::cast_ray_recursive(board, player, (adjacent_row, adjacent_col), direction, result);
            assert(result@ == before + run_toward(g, player, row as int, col as int, cell));
            i += 1;
        }
        assert(cells@.take(cells@.len() as int) =~= cells@);
        result.count != 0
    }

    /// Walks a ray that has arrived on the given square. The ray succeeds if it
    /// meets a disk of `player`; the disks of the opponent that it crossed on the
    /// way are then appended to `result`, the farthest first.
    fn cast_ray_recursive(
        board: &Board,
        player: Player,
        mv: Move,
        direction: (i32, i32),
        result: &mut CellList,
    ) -> (hit: bool)
        requires
            mv.0 < 8,
            mv.1 < 8,
            is_direction(direction.0 as int, direction.1 as int),
            old(result).count + reach(
                mv.0 as int,
                mv.1 as int,
                direction.0 as int,
                direction.1 as int,
            ) <= 64,
        ensures
            final(result).wf(),
            hit == captured_run(
                board@,
                player,
                mv.0 as int,
                mv.1 as int,
                direction.0 as int,
                direction.1 as int,
            ).is_some(),
            hit ==> final(result)@ == old(result)@ + captured_run(
                board@,
                player,
                mv.0 as int,
                mv.1 as int,
                direction.0 as int,
                direction.1 as int,
            ).unwrap(),
            !hit ==> final(result)@ == old(result)@,
        decreases room(mv.0 as int, direction.0 as int) + room(mv.1 as int, direction.1 as int),
    {
        let (row, col) = mv;
        let (row_direction, col_direction) = direction;
        proof {
            assert(board@[row as int][col as int] == board.grid[row as int][col as int]);
            lemma_run_length(
                board@,
                player,
                row as int,
                col as int,
                row_direction as int,
                col_direction as int,
            );
        }
        match board.grid[row][col] {
            Cell::Empty => false,
            Cell::Taken(color) => {
                if color == player {
                    assert(result@ + Seq::<Move>::empty() =~= result@);
                    true
                } else {
                    let new_row = row as i32 + row_direction;
                    let new_col = col as i32 + col_direction;
                    if new_row < 0 || new_row >= Board::SIZE as i32 || new_col < 0 || new_col
                        >= Board::SIZE as i32 {
                        false
                    } else {
                        proof {
                            lemma_run_length(
                                board@,
                                player,
                                new_row as int,
                                new_col as int,
                                row_direction as int,
                                col_direction as int,
                            );
                        }
                        if Self::cast_ray_recursive(
                            board,
                            player,
                            (new_row as usize, new_col as usize),
                            (row_direction, col_direction),
                            result,
                        ) {
                            assert(old(result)@.len() == old(result).count);
                            assert(result@.len() == result.count);
                            result.push_back((row, col));
                            proof {
                                let below = captured_run(
                                    board@,
                                    player,
                                    new_row as int,
                                    new_col as int,
                                    row_direction as int,
                                    col_direction as int,
                                ).unwrap();
                                assert(result@ =~= old(result)@ + below.push((row, col)));
                            }
                            true
                        } else {
                            false
                        }
                    }
                }
            },
        }
    }
}

} // verus!
