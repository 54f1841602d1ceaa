//! The course of a game: whose turn it is, how a move advances it, and how
//! the answers of a computer player are taken in.

use vstd::prelude::*;
use crate::agent::{AiType, MoveRequest, MoveResult};
use crate::board::{initial_grid, Board, Grid, Move, Player};
use crate::common::CellList;
use crate::ray_proofs::lemma_flip_cells_on_board;
use crate::referee::{Outcome, Referee};
use crate::rules::{after_move, is_legal, legal_moves, outcome_of};

verus! {

/// Where a game stands.
#[derive(Debug, Clone, Copy, PartialEq, Eq, Structural)]
pub enum Phase {
    Turn(Player),
    Win(Player),
    Tie,
}

/// What the players have switched on.
pub struct GameOptions {
    pub show_effects_of_moves: bool,
    pub show_valid_moves: bool,
    pub auto_restart: bool,
    pub pace_ai: bool,
    pub pause_at_win: bool,
    pub should_take_statistics: bool,
}

impl Default for GameOptions {
    fn default() -> (o: GameOptions)
        ensures
            !o.show_effects_of_moves,
            !o.show_valid_moves,
            !o.auto_restart,
            o.pace_ai,
            o.pause_at_win,
            o.should_take_statistics,
    {
        GameOptions {
            show_effects_of_moves: false,
            show_valid_moves: false,
            auto_restart: false,
            pace_ai: true,
            pause_at_win: true,
            should_take_statistics: true,
        }
    }
}

/// Whether one side is played by the computer, and how.
#[derive(Clone, Copy)]
pub struct PlayerOptions {
    pub ai_enabled: bool,
    pub ai_type: AiType,
    pub ai_recursion_depth: usize,
}

impl Default for PlayerOptions {
    fn default() -> (o: PlayerOptions)
        ensures
            !o.ai_enabled,
            o.ai_type == AiType::Random,
            o.ai_recursion_depth == 1,
    {
        PlayerOptions { ai_enabled: false, ai_type: AiType::Random, ai_recursion_depth: 1 }
    }
}

/// What an attempted move did to the game.
#[derive(Debug, Clone, Copy, PartialEq, Eq, Structural)]
pub enum MoveEffect {
    /// The move was not legal; nothing changed.
    Illegal,
    /// The move was played and the game goes on.
    Played,
    /// The move was played and ended the game. `record` says whether the
    /// result counts for the statistics.
    Finished { outcome: Outcome, record: bool },
}

/// The place of a side in the pair of player options.
pub open spec fn seat(player: Player) -> int {
    match player {
        Player::Black => 0,
        Player::White => 1,
    }
}

/// The phase after `mover` has played and the position is `g`: the opponent
/// is to move if able, else `mover` goes on in the phase that was, else the
/// game is over.
pub open spec fn phase_after(g: Grid, mover: Player, before: Phase) -> Phase {
    if legal_moves(g, mover.other()).len() > 0 {
        Phase::Turn(mover.other())
    } else if legal_moves(g, mover).len() > 0 {
        before
    } else {
        match outcome_of(g) {
            Outcome::Won(winner) => Phase::Win(winner),
            Outcome::Tie => Phase::Tie,
        }
    }
}

/// The game is over in position `g` once `mover` has played.
pub open spec fn ends_after(g: Grid, mover: Player) -> bool {
    legal_moves(g, mover.other()).len() == 0 && legal_moves(g, mover).len() == 0
}

/// One game: the board, whose turn it is, and the bookkeeping around it.
pub struct Game {
    pub board: Board,
    pub current_phase: Phase,
    pub options: GameOptions,
    pub player_options: [PlayerOptions; 2],
    pub awaiting_ai_move: bool,
    pub referee: Referee,
    pub valid_moves: CellList,
    pub flip_cells: CellList,
    pub is_board_untouched: bool,
    pub can_take_statistics: bool,
}

impl Default for Game {
    fn default() -> (game: Game)
        ensures
            game.board@ == initial_grid(),
            game.current_phase == Phase::Turn(Player::Black),
            game.valid_moves@ == legal_moves(initial_grid(), Player::Black),
            game.is_board_untouched,
            game.can_take_statistics,
            !game.awaiting_ai_move,
            game.options.pace_ai && game.options.pause_at_win
                && game.options.should_take_statistics,
            !game.options.show_effects_of_moves && !game.options.show_valid_moves
                && !game.options.auto_restart,
            forall|i: int|
                0 <= i < 2 ==> !(#[trigger] game.player_options[i]).ai_enabled
                    && game.player_options[i].ai_type == AiType::Random
                    && game.player_options[i].ai_recursion_depth == 1,
    {
        let mut game = Game {
            board: Board::default(),
            current_phase: Phase::Turn(Player::Black),
            options: GameOptions::default(),
            player_options: [PlayerOptions::default(); 2],
            awaiting_ai_move: false,
            referee: Referee::default(),
            valid_moves: CellList::default(),
            flip_cells: CellList::default(),
            is_board_untouched: false,
            can_take_statistics: false,
        };
        game.reset();
        game
    }
}

impl Game {
    /// Board, phase, list of legal moves and bookkeeping are those of `before`.
    pub open spec fn stands_as(&self, before: Game) -> bool {
        &&& self.board == before.board
        &&& self.current_phase == before.current_phase
        &&& self.valid_moves == before.valid_moves
        &&& self.is_board_untouched == before.is_board_untouched
        &&& self.can_take_statistics == before.can_take_statistics
    }

    /// This is the game that `before` becomes when `player` plays the legal
    /// move `mv`, and `effect` is what the move did.
    pub open spec fn follows(&self, before: Game, player: Player, mv: Move, effect: MoveEffect) -> bool {
        let g = after_move(before.board@, player, mv);
        &&& self.board@ == g
        &&& self.current_phase == phase_after(g, player, before.current_phase)
        &&& self.valid_moves.wf()
        &&& self.valid_moves@ == if legal_moves(g, player.other()).len() > 0 {
            legal_moves(g, player.other())
        } else {
            legal_moves(g, player)
        }
        &&& !self.is_board_untouched
        &&& effect == if ends_after(g, player) {
            MoveEffect::Finished { outcome: outcome_of(g), record: before.can_take_statistics }
        } else {
            MoveEffect::Played
        }
        &&& self.can_take_statistics == if before.is_board_untouched {
            true
        } else if ends_after(g, player) {
            false
        } else {
            before.can_take_statistics
        }
    }

    /// The index of a side in `player_options`.
    pub fn seat_of(player: Player) -> (i: usize)
        ensures
            i == seat(player),
    {
        match player {
            Player::Black => 0,
            Player::White => 1,
        }
    }

    /// Starts a new game: the opening position, Black to move.
    pub fn reset(&mut self)
        ensures
            final(self).board@ == initial_grid(),
            final(self).current_phase == Phase::Turn(Player::Black),
            final(self).valid_moves.wf(),
            final(self).valid_moves@ == legal_moves(initial_grid(), Player::Black),
            final(self).is_board_untouched,
            final(self).can_take_statistics,
            final(self).awaiting_ai_move == old(self).awaiting_ai_move,
            final(self).player_options == old(self).player_options,
            final(self).options == old(self).options,
    {
        self.board = Board::default();
        self.current_phase = Phase::Turn(Player::Black);
        self.referee.find_all_valid_moves(&self.board, Player::Black, &mut self.valid_moves);
        self.is_board_untouched = true;
        self.can_take_statistics = true;
    }

    /// A change of the computer players after the first move makes the game
    /// useless for the statistics.
    pub fn ai_setting_changed(&mut self)
        ensures
            final(self).can_take_statistics == (old(self).can_take_statistics && old(
                self,
            ).is_board_untouched),
            final(self).board == old(self).board,
            final(self).current_phase == old(self).current_phase,
            final(self).is_board_untouched == old(self).is_board_untouched,
            final(self).awaiting_ai_move == old(self).awaiting_ai_move,
            final(self).player_options == old(self).player_options,
            final(self).options == old(self).options,
            final(self).valid_moves == old(self).valid_moves,
    {
        if !self.is_board_untouched {
            self.can_take_statistics = false;
        }
    }

    /// Whether the result of the game that just ended is to be recorded; it is
    /// recorded at most once.
    pub fn take_statistics(&mut self) -> (record: bool)
        ensures
            record == old(self).can_take_statistics,
            !final(self).can_take_statistics,
            final(self).board == old(self).board,
            final(self).current_phase == old(self).current_phase,
            final(self).is_board_untouched == old(self).is_board_untouched,
            final(self).awaiting_ai_move == old(self).awaiting_ai_move,
            final(self).player_options == old(self).player_options,
            final(self).options == old(self).options,
            final(self).valid_moves == old(self).valid_moves,
    {
        if self.can_take_statistics {
            self.can_take_statistics = false;
            true
        } else {
            false
        }
    }

    /// Plays `next_move` for `player` if it is legal, and moves the game on: to
    /// the opponent if the opponent can move, else back to `player`, else to
    /// the end of the game.
    pub fn make_move(&mut self, next_move: Move, player: Player) -> (effect: MoveEffect)
        requires
            next_move.0 < 8,
            next_move.1 < 8,
        ensures
            effect == MoveEffect::Illegal <==> !is_legal(
                old(self).board@,
                player,
                next_move.0 as int,
                next_move.1 as int,
            ),
            effect == MoveEffect::Illegal ==> final(self).stands_as(*old(self)),
            effect != MoveEffect::Illegal ==> final(self).follows(
                *old(self),
                player,
                next_move,
                effect,
            ),
            final(self).awaiting_ai_move == old(self).awaiting_ai_move,
            final(self).player_options == old(self).player_options,
            final(self).options == old(self).options,
    {
        if self.referee.find_flip_cells_for_move(
            &self.board,
            player,
            next_move,
            &mut self.flip_cells,
        ) {
            proof {
                lemma_flip_cells_on_board(
                    self.board@,
                    player,
                    next_move.0 as int,
                    next_move.1 as int,
                );
            }
            Referee::apply_move(&mut self.board, player, next_move, &self.flip_cells);
            let opponent = player.opponent();
            let mut effect = MoveEffect::Played;
            if self.referee.find_all_valid_moves(&self.board, opponent, &mut self.valid_moves) {
                self.current_phase = Phase::Turn(opponent);
            } else if !self.referee.find_all_valid_moves(&self.board, player, &mut self.valid_moves) {
                let outcome = Referee::check_outcome(&self.board);
                self.current_phase = match outcome {
                    Outcome::Won(winner) => Phase::Win(winner),
                    Outcome::Tie => Phase::Tie,
                };
                let record = self.take_statistics();
                effect = MoveEffect::Finished { outcome, record };
            }
            if self.is_board_untouched {
                self.can_take_statistics = true;
                self.is_board_untouched = false;
            }
            effect
        } else {
            MoveEffect::Illegal
        }
    }

    /// The request to hand to the computer player for `player`; the game then
    /// waits for the answer.
    pub fn request_ai_move(&mut self, player: Player) -> (request: MoveRequest)
        ensures
            request.board == old(self).board,
            request.player == player,
            request.pace_response == old(self).options.pace_ai,
            request.algorithm_choice == old(self).player_options[seat(player)].ai_type,
            request.recursion_depth == old(self).player_options[seat(player)].ai_recursion_depth,
            final(self).awaiting_ai_move,
            final(self).board == old(self).board,
            final(self).current_phase == old(self).current_phase,
            final(self).player_options == old(self).player_options,
    {
        self.awaiting_ai_move = true;
        let seat = Self::seat_of(player);
        MoveRequest {
            board: self.board.clone(),
            player,
            pace_response: self.options.pace_ai,
            algorithm_choice: self.player_options[seat].ai_type,
            recursion_depth: self.player_options[seat].ai_recursion_depth,
        }
    }

    /// Takes in the answer of the computer player for `player`. A move on the
    /// board is played if the answer was made for the position and the side as
    /// they are now, and is dropped as stale otherwise. The answer `(8, 8)`,
    /// or any other off the board, switches the computer player off.
    pub fn receive_ai_move(&mut self, move_result: &MoveResult, player: Player) -> (effect:
        MoveEffect)
        ensures
            !final(self).awaiting_ai_move,
            ({
                let mv = move_result.next_move;
                let on = mv.0 < 8 && mv.1 < 8;
                let current = move_result.board@ == old(self).board@ && move_result.player
                    == player;
                let played = on && current && is_legal(
                    old(self).board@,
                    player,
                    mv.0 as int,
                    mv.1 as int,
                );
                &&& played ==> effect != MoveEffect::Illegal && final(self).follows(
                    *old(self),
                    player,
                    mv,
                    effect,
                )
                &&& !played ==> effect == MoveEffect::Illegal && final(self).stands_as(*old(self))
                &&& on ==> final(self).player_options == old(self).player_options
                &&& final(self).options == old(self).options
                &&& !on ==> final(self).player_options@ == old(self).player_options@.update(
                    seat(player),
                    PlayerOptions {
                        ai_enabled: false,
                        ai_type: old(self).player_options[seat(player)].ai_type,
                        ai_recursion_depth: old(self).player_options[seat(
                            player,
                        )].ai_recursion_depth,
                    },
                )
            }),
    {
        let (row, col) = move_result.next_move;
        let mut effect = MoveEffect::Illegal;
        if row < Board::SIZE && col < Board::SIZE {
            if move_result.board.same_as(&self.board) && move_result.player == player {
                effect = self.make_move(move_result.next_move, player);
            }
        } else {
            let seat = Self::seat_of(player);
            self.player_options[seat].ai_enabled = false;
        }
        self.awaiting_ai_move = false;
        effect
    }
}

} // verus!
