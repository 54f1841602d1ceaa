//! Scores, the value that a fixed-depth search assigns to a position, and the
//! running choice among candidates that tie for the best score.

use vstd::prelude::*;
use crate::board::{Grid, Move, Player};
use crate::rules::{after_move, disks, is_legal};

verus! {

/// The magnitude that stands for an infinite score; every finite score is smaller.
pub open spec fn infinite() -> int {
    0x1_0000_0000
}

/// The score of a position for one side: a difference of disk counts, or an
/// infinity where a side has no move to score.
#[derive(Debug, Clone, Copy, PartialEq, Eq, Structural)]
pub enum Score {
    NegInfinity,
    Finite(i32),
    Infinity,
}

impl Score {
    /// The score as a number, the infinities at `-infinite()` and `infinite()`.
    pub open spec fn view(&self) -> int {
        match *self {
            Score::NegInfinity => -infinite(),
            Score::Finite(v) => v as int,
            Score::Infinity => infinite(),
        }
    }

    /// A finite score is a difference of two disk counts on one board.
    pub open spec fn wf(&self) -> bool {
        match *self {
            Score::Finite(v) => -64 <= v <= 64,
            _ => true,
        }
    }

    /// The same position seen from the other side.
    pub fn negate(self) -> (r: Score)
        requires
            self.wf(),
        ensures
            r.wf(),
            r@ == -self@,
    {
        match self {
            Score::NegInfinity => Score::Infinity,
            Score::Finite(v) => Score::Finite(-v),
            Score::Infinity => Score::NegInfinity,
        }
    }

    /// Whether this score is strictly better than `other`.
    pub fn exceeds(&self, other: &Score) -> (r: bool)
        ensures
            r == (self@ > other@),
    {
        match (*self, *other) {
            (Score::NegInfinity, _) => false,
            (_, Score::Infinity) => false,
            (Score::Infinity, _) => true,
            (_, Score::NegInfinity) => true,
            (Score::Finite(a), Score::Finite(b)) => a > b,
        }
    }
}

/// The static evaluation of a position for `p`: its disks minus the opponent's.
pub open spec fn evaluation(g: Grid, p: Player) -> int {
    disks(g, p) - disks(g, p.other())
}

/// The score for `p` of playing `mv`: at depth 1 the evaluation of the position
/// reached, deeper the negated best score of the opponent there, one level down.
pub open spec fn branch_value(g: Grid, p: Player, mv: Move, depth: nat) -> int
    decreases depth, 0int,
{
    let next = after_move(g, p, mv);
    if depth <= 1 {
        evaluation(next, p)
    } else {
        -best_upto(next, p.other(), (depth - 1) as nat, 64)
    }
}

/// The best branch score among the legal moves on the first `k` squares in
/// row-major order; `-infinite()` when none of them is legal.
pub open spec fn best_upto(g: Grid, p: Player, depth: nat, k: int) -> int
    decreases depth, k,
{
    if k <= 0 {
        -infinite()
    } else {
        let rest = best_upto(g, p, depth, k - 1);
        if is_legal(g, p, (k - 1) / 8, (k - 1) % 8) {
            let here = branch_value(g, p, (((k - 1) / 8) as usize, ((k - 1) % 8) as usize), depth);
            if here > rest {
                here
            } else {
                rest
            }
        } else {
            rest
        }
    }
}

/// The score that a search of the given depth returns for `p`: the best branch
/// score over all legal moves, `-infinite()` when there is no move or no depth.
pub open spec fn best_value(g: Grid, p: Player, depth: nat) -> int {
    if depth == 0 {
        -infinite()
    } else {
        best_upto(g, p, depth, 64)
    }
}

/// The candidate held so far, its score, and how many candidates seen so far
/// share that score.
#[derive(Debug, Clone, Copy)]
pub struct Selection {
    pub best_move: Move,
    pub best_score: Score,
    pub tied: u32,
}

impl Selection {
    /// Nothing has been offered yet.
    pub open spec fn is_vacant(&self) -> bool {
        self.best_move == (8usize, 8usize)
    }

    /// A candidate with this score would tie with the one held.
    pub open spec fn ties_with(&self, score: Score) -> bool {
        !self.is_vacant() && score == self.best_score
    }

    /// The selection after a candidate is offered. The first candidate is taken.
    /// A strictly better one replaces what is held and stands alone. One that
    /// ties is counted, and replaces what is held when `coin` says so.
    pub open spec fn offered(self, mv: Move, score: Score, coin: bool) -> Selection {
        if self.is_vacant() {
            Selection { best_move: mv, best_score: score, tied: 1 }
        } else if score == self.best_score {
            Selection {
                best_move: if coin {
                    mv
                } else {
                    self.best_move
                },
                best_score: self.best_score,
                tied: (self.tied + 1) as u32,
            }
        } else if score@ > self.best_score@ {
            Selection { best_move: mv, best_score: score, tied: 1 }
        } else {
            self
        }
    }

    /// The selection before any candidate: no move, the lowest score.
    pub fn new() -> (s: Selection)
        ensures
            s == (Selection { best_move: (8, 8), best_score: Score::NegInfinity, tied: 0 }),
            s.is_vacant(),
    {
        Selection { best_move: (8, 8), best_score: Score::NegInfinity, tied: 0 }
    }

    /// Whether a candidate with this score would tie with the one held, so that
    /// a coin has to decide between them.
    pub fn is_tie(&self, score: Score) -> (tie: bool)
        ensures
            tie == self.ties_with(score),
    {
        !(self.best_move.0 == 8 && self.best_move.1 == 8) && score == self.best_score
    }

    /// The odds for a tying candidate to replace the one held: one chance in as
    /// many as there are candidates sharing the score, the newcomer included.
    pub fn replacement_odds(&self) -> (n: u32)
        requires
            self.tied < u32::MAX,
        ensures
            n == self.tied + 1,
    {
        self.tied + 1
    }

    /// Offers a candidate. `coin` is consulted only when the candidate ties with
    /// the one held; it should come up with one chance in `replacement_odds()`.
    pub fn offer(self, mv: Move, score: Score, coin: bool) -> (s: Selection)
        requires
            self.tied < u32::MAX,
        ensures
            s == self.offered(mv, score, coin),
    {
        if self.best_move.0 == 8 && self.best_move.1 == 8 {
            Selection { best_move: mv, best_score: score, tied: 1 }
        } else if score == self.best_score {
            Selection {
                best_move: if coin {
                    mv
                } else {
                    self.best_move
                },
                best_score: self.best_score,
                tied: self.tied + 1,
            }
        } else if score.exceeds(&self.best_score) {
            Selection { best_move: mv, best_score: score, tied: 1 }
        } else {
            self
        }
    }
}

} // verus!
