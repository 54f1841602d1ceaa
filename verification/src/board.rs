//! The players, the cells and the 8x8 grid they stand on.

use vstd::prelude::*;

verus! {

/// A coordinate pair `(row, column)`.
pub type Move = (usize, usize);

/// One of the two sides.
#[derive(Debug, Clone, Copy, PartialEq, Eq, Structural)]
pub enum Player {
    Black,
    White,
}

impl Player {
    /// The other side.
    pub open spec fn other(self) -> Player {
        match self {
            Player::Black => Player::White,
            Player::White => Player::Black,
        }
    }

    pub fn opponent(&self) -> (r: Player)
        ensures
            r == self.other(),
            r != *self,
    {
        match self {
            Player::Black => Player::White,
            Player::White => Player::Black,
        }
    }
}

/// What stands on one square of the board.
#[derive(Debug, Clone, Copy, PartialEq, Eq, Structural)]
pub enum Cell {
    Empty,
    Taken(Player),
}

/// The mathematical board: eight rows of eight cells.
pub type Grid = Seq<Seq<Cell>>;

/// The 8x8 grid of cells.
#[derive(Debug)]
pub struct Board {
    pub grid: [[Cell; 8]; 8],
}

impl Board {
    pub const SIZE: usize = 8;

    /// The board as rows of cells.
    pub open spec fn view(&self) -> Grid {
        Seq::new(8, |r: int| Seq::new(8, |c: int| self.grid[r][c]))
    }

    /// Whether both boards hold the same cells.
    pub fn same_as(&self, other: &Board) -> (same: bool)
        ensures
            same == (self@ == other@),
    {
        let mut row: usize = 0;
        while row < Board::SIZE
            invariant
                row <= 8,
                forall|r: int, c: int| 0 <= r < row && 0 <= c < 8 ==> self@[r][c] == other@[r][c],
            decreases 8 - row,
        {
            let mut col: usize = 0;
            while col < Board::SIZE
                invariant
                    row < 8,
                    col <= 8,
                    forall|r: int, c: int|
                        0 <= r < row && 0 <= c < 8 ==> self@[r][c] == other@[r][c],
                    forall|c: int| 0 <= c < col ==> self@[row as int][c] == other@[row as int][c],
                decreases 8 - col,
            {
                if self.grid[row][col] != other.grid[row][col] {
                    assert(self@[row as int][col as int] != other@[row as int][col as int]);
                    return false;
                }
                assert(self@[row as int][col as int] == other@[row as int][col as int]);
                col += 1;
            }
            row += 1;
        }
        assert(self@ =~~= other@);
        true
    }

    pub fn cell(&self, mv: Move) -> (c: Cell)
        requires
            mv.0 < 8,
            mv.1 < 8,
        ensures
            c == self@[mv.0 as int][mv.1 as int],
    {
        self.grid[mv.0][mv.1]
    }

}

impl Clone for Board {
    fn clone(&self) -> (b: Board)
        ensures
            b == *self,
    {
        Board { grid: self.grid }
    }
}

/// The opening position: four disks on the centre squares, each side holding one diagonal.
pub open spec fn initial_grid() -> Grid {
    Seq::new(
        8,
        |r: int|
            Seq::new(
                8,
                |c: int|
                    if (r == 3 && c == 3) || (r == 4 && c == 4) {
                        Cell::Taken(Player::White)
                    } else if (r == 3 && c == 4) || (r == 4 && c == 3) {
                        Cell::Taken(Player::Black)
                    } else {
                        Cell::Empty
                    },
            ),
    )
}

impl Default for Board {
    fn default() -> (b: Board)
        ensures
            b@ == initial_grid(),
    {
        let mut grid = [[Cell::Empty; 8]; 8];
        grid[3][3] = Cell::Taken(Player::White);
        grid[4][4] = Cell::Taken(Player::White);
        grid[3][4] = Cell::Taken(Player::Black);
        grid[4][3] = Cell::Taken(Player::Black);
        let b = Board { grid };
        assert(b@ =~~= initial_grid());
        b
    }
}

} // verus!
