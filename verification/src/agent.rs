//! The computer player: a move picked at random, or the best one that a
//! fixed-depth search finds, with ties broken fairly.

use vstd::prelude::*;
use rand::Rng;
use crate::board::{Board, Move, Player};
use crate::common::CellList;
use crate::count_proofs::lemma_disks_bounds;
use crate::referee::Referee;
use crate::rules::{is_legal, legal_moves, legal_upto, scan_index};
use crate::scan_proofs::{
    lemma_best_upto_bounds, lemma_best_upto_skip, lemma_legal_upto, lemma_legal_upto_empty,
    lemma_legal_upto_skip, lemma_next_legal, square,
};
use crate::search::{best_upto, best_value, branch_value, evaluation, Score, Selection};

verus! {

/// The random number generator of the current thread.
#[verifier::external_type_specification]
#[verifier::external_body]
pub struct ExThreadRng(rand::rngs::ThreadRng);

/// `rand::rng`: a handle to the generator of the current thread. Nothing is
/// claimed of it.
#[verifier::external_body]
fn thread_rng() -> (rng: rand::rngs::ThreadRng) {
    rand::rng()
}

/// `Rng::random_range` on `..count`: some index below `count`. Which one is
/// left open. The call panics on an empty range, so `count` must be positive.
#[verifier::external_body]
fn draw_index(rng: &mut rand::rngs::ThreadRng, count: usize) -> (index: usize)
    requires
        count > 0,
    ensures
        index < count,
{
    rng.random_range(..count)
}

/// `Rng::random_ratio(1, n)`: true with one chance in `n`, and always true for
/// `n == 1`. The call panics for `n == 0`.
#[verifier::external_body]
fn draw_one_in(rng: &mut rand::rngs::ThreadRng, n: u32) -> (hit: bool)
    requires
        n >= 1,
    ensures
        n == 1 ==> hit,
{
    rng.random_ratio(1, n)
}

/// How the computer player picks its move.
#[derive(Debug, Clone, Copy, PartialEq, Eq, Structural)]
pub enum AiType {
    Random,
    Minimax,
}

/// A position for which a move is wanted.
pub struct MoveRequest {
    pub board: Board,
    pub player: Player,
    pub pace_response: bool,
    pub algorithm_choice: AiType,
    pub recursion_depth: usize,
}

/// The move found, with the position and the side it was found for.
pub struct MoveResult {
    pub board: Board,
    pub player: Player,
    pub next_move: Move,
}

/// The computer player, with its own referee and scratch list.
pub struct Agent {
    rng: rand::rngs::ThreadRng,
    valid_moves: CellList,
    referee: Referee,
}

/// What a search leaves in its selection after the first `k` squares: the best
/// score among them, and a legal move that reaches it if there is one.
pub open spec fn selection_covers(
    sel: Selection,
    g: crate::board::Grid,
    p: Player,
    depth: nat,
    k: int,
) -> bool {
    &&& sel.best_score.wf()
    &&& sel.best_score@ == best_upto(g, p, depth, k)
    &&& sel.tied <= k
    &&& sel.is_vacant() <==> legal_upto(g, p, k).len() == 0
    &&& sel.is_vacant() ==> sel.best_score == Score::NegInfinity
    &&& !sel.is_vacant() ==> {
        &&& is_legal(g, p, sel.best_move.0 as int, sel.best_move.1 as int)
        &&& branch_value(g, p, sel.best_move, depth) == best_upto(g, p, depth, k)
    }
}

impl Agent {
    /// The scratch list and those of the referee hold no more than their
    /// storage has room for.
    pub closed spec fn wf(&self) -> bool {
        self.valid_moves.wf() && self.referee.wf()
    }

    /// The moves that the scratch list holds: those that the last random pick
    /// chose from.
    pub closed spec fn held_moves(&self) -> Seq<Move> {
        self.valid_moves@
    }

    /// The referee has not been asked yet.
    pub closed spec fn has_fresh_referee(&self) -> bool {
        self.referee.is_fresh()
    }

    /// A player that draws from the random number generator of this thread.
    /// Its scratch list is empty and its referee is fresh.
    pub fn new() -> (agent: Agent)
        ensures
            agent.wf(),
            agent.held_moves() == Seq::<Move>::empty(),
            agent.has_fresh_referee(),
    {
        Agent { rng: thread_rng(), valid_moves: CellList::default(), referee: Referee::default() }
    }

    /// Answers a request with the algorithm it names, and hands the position and
    /// the side back with the move.
    pub fn respond(&mut self, request: MoveRequest) -> (result: MoveResult)
        ensures
            result.board == request.board,
            result.player == request.player,
            result.next_move == (8usize, 8usize) <==> legal_moves(
                request.board@,
                request.player,
            ).len() == 0 || (request.algorithm_choice == AiType::Minimax && request.recursion_depth
                == 0),
            result.next_move != (8usize, 8usize) ==> is_legal(
                request.board@,
                request.player,
                result.next_move.0 as int,
                result.next_move.1 as int,
            ),
            result.next_move != (8usize, 8usize) && request.algorithm_choice == AiType::Minimax
                ==> branch_value(
                request.board@,
                request.player,
                result.next_move,
                request.recursion_depth as nat,
            ) == best_value(request.board@, request.player, request.recursion_depth as nat),
            old(self).wf() ==> final(self).wf(),
            request.algorithm_choice == AiType::Random ==> final(self).held_moves() == legal_moves(
                request.board@,
                request.player,
            ),
            request.algorithm_choice == AiType::Minimax ==> final(self).held_moves() == old(
                self,
            ).held_moves(),
    {
        let next_move = match request.algorithm_choice {
            AiType::Random => self.find_random_move(&request.board, request.player),
            AiType::Minimax => self.find_best_move_using_minimax(
                &request.board,
                request.player,
                request.recursion_depth,
            ),
        };
        MoveResult { board: request.board, player: request.player, next_move }
    }

    /// One of the legal moves of `player`, or `(8, 8)` when there is none.
    pub fn find_random_move(&mut self, board: &Board, player: Player) -> (mv: Move)
        ensures
            mv == (8usize, 8usize) <==> legal_moves(board@, player).len() == 0,
            mv != (8usize, 8usize) ==> legal_moves(board@, player).contains(mv) && is_legal(
                board@,
                player,
                mv.0 as int,
                mv.1 as int,
            ),
            old(self).wf() ==> final(self).wf(),
            final(self).held_moves() == legal_moves(board@, player),
    {
        if self.referee.find_all_valid_moves(board, player, &mut self.valid_moves) {
            let index = draw_index(&mut self.rng, self.valid_moves.count);
            proof {
                lemma_legal_upto(board@, player, 64);
                assert(self.valid_moves@[index as int] == self.valid_moves.list[index as int]);
            }
            self.valid_moves.list[index]
        } else {
            (Board::SIZE, Board::SIZE)
        }
    }

    /// A legal move of `player` with the best score that a search of the given
    /// depth finds, or `(8, 8)` when there is no move or no depth.
    pub fn find_best_move_using_minimax(&mut self, board: &Board, player: Player, recursion_depth: usize) -> (mv:
        Move)
        ensures
            mv == (8usize, 8usize) <==> legal_moves(board@, player).len() == 0 || recursion_depth
                == 0,
            mv != (8usize, 8usize) ==> is_legal(board@, player, mv.0 as int, mv.1 as int)
                && branch_value(board@, player, mv, recursion_depth as nat) == best_value(
                board@,
                player,
                recursion_depth as nat,
            ),
            old(self).wf() ==> final(self).wf(),
            final(self).held_moves() == old(self).held_moves(),
    {
        let (optimal_move, _optimal_score) = self.find_best_move_recursive(
            board,
            player,
            recursion_depth,
        );
        optimal_move
    }

    /// The search itself: the move chosen and the best score. Among the moves
    /// that share the best score, chance decides.
    pub fn find_best_move_recursive(&mut self, board: &Board, player: Player, recursion_depth: usize) -> (best:
        (Move, Score))
        ensures
            best.1.wf(),
            best.1@ == best_value(board@, player, recursion_depth as nat),
            best.0 == (8usize, 8usize) <==> legal_moves(board@, player).len() == 0
                || recursion_depth == 0,
            best.0 != (8usize, 8usize) ==> is_legal(board@, player, best.0.0 as int, best.0.1 as int)
                && branch_value(board@, player, best.0, recursion_depth as nat) == best.1@,
            old(self).wf() ==> final(self).wf(),
            final(self).held_moves() == old(self).held_moves(),
        decreases recursion_depth,
    {
        let mut selection = Selection::new();
        if recursion_depth == 0 {
            return (selection.best_move, selection.best_score);
        }
        let ghost g = board@;
        let ghost depth = recursion_depth as nat;
        let mut row: usize = 0;
        let mut col: usize = 0;
        while row < Board::SIZE
            invariant
                g == board@,
                depth == recursion_depth as nat,
                recursion_depth >= 1,
                old(self).wf() ==> self.wf(),
                self.held_moves() == old(self).held_moves(),
                row <= 9,
                row < 8 ==> col == 0,
                selection_covers(selection, g, player, depth, scan_index((row, col))),
            decreases 9 - row,
        {
            let ghost first_row = row;
            while col < Board::SIZE
                invariant
                    g == board@,
                    depth == recursion_depth as nat,
                    recursion_depth >= 1,
                    old(self).wf() ==> self.wf(),
                    self.held_moves() == old(self).held_moves(),
                    first_row <= row <= 8,
                    col < 8 ==> row < 8,
                    selection_covers(selection, g, player, depth, scan_index((row, col))),
                decreases 64 - scan_index((row, col)),
            {
                let ghost k = scan_index((row, col));
                let mut new_board = board.clone();
                let found = self.referee.find_and_apply_next_valid_move(
                    &mut new_board,
                    player,
                    (row, col),
                );
                proof {
                    lemma_next_legal(g, player, k);
                    let m = scan_index(found);
                    lemma_best_upto_skip(g, player, depth, k, m);
                    lemma_legal_upto_skip(g, player, k, m);
                }
                row = found.0;
                col = found.1;
                if row < Board::SIZE && col < Board::SIZE {
                    let ghost m = scan_index(found);
                    proof {
                        assert(m / 8 == row && m % 8 == col);
                        assert(square(m) == found);
                        lemma_disks_bounds(new_board@, player);
                        lemma_best_upto_bounds(new_board@, player.other(), (depth - 1) as nat, 64);
                        lemma_best_upto_bounds(g, player, depth, m);
                    }
                    let board_score = if recursion_depth == 1 {
                        self.evaluate_board(&new_board, player)
                    } else {
                        let (_opponent_move, opponent_score) = self.find_best_move_recursive(
                            &new_board,
                            player.opponent(),
                            recursion_depth - 1,
                        );
                        opponent_score.negate()
                    };
                    assert(board_score@ == branch_value(g, player, found, depth));
                    let coin = if selection.is_tie(board_score) {
                        draw_one_in(&mut self.rng, selection.replacement_odds())
                    } else {
                        false
                    };
                    selection = selection.offer((row, col), board_score, coin);
                    assert(selection_covers(selection, g, player, depth, m + 1));
                }
                col += 1;
            }
            row += 1;
            col = 0;
        }
        proof {
            lemma_legal_upto_empty(g, player, 64);
        }
        (selection.best_move, selection.best_score)
    }

    /// The static evaluation of a position for `player`: the disks of `player`
    /// minus those of the opponent.
    pub fn evaluate_board(&mut self, board: &Board, player: Player) -> (score: Score)
        ensures
            score.wf(),
            score == Score::Finite(evaluation(board@, player) as i32),
            score@ == evaluation(board@, player),
            *final(self) == *old(self),
    {
        let (player_count, opponent_count) = Referee::count_disks(board, player);
        Score::Finite(player_count - opponent_count)
    }
}

} // verus!
