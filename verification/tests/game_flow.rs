use othello::agent::{AiType, MoveResult};
use othello::board::{Board, Cell, Player};
use othello::game::{Game, GameOptions, MoveEffect, Phase, PlayerOptions};
use othello::referee::Outcome;

fn board_with(black: &[(usize, usize)], white: &[(usize, usize)]) -> Board {
    let mut board = Board { grid: [[Cell::Empty; 8]; 8] };
    for &(r, c) in black {
        board.grid[r][c] = Cell::Taken(Player::Black);
    }
    for &(r, c) in white {
        board.grid[r][c] = Cell::Taken(Player::White);
    }
    board
}

#[test]
fn default_options_match_a_fresh_game() {
    let options = GameOptions::default();
    assert!(!options.show_effects_of_moves);
    assert!(!options.show_valid_moves);
    assert!(!options.auto_restart);
    assert!(options.pace_ai);
    assert!(options.pause_at_win);
    assert!(options.should_take_statistics);
    let player = PlayerOptions::default();
    assert!(!player.ai_enabled);
    assert_eq!(player.ai_type, AiType::Random);
    assert_eq!(player.ai_recursion_depth, 1);
}

#[test]
fn new_game_starts_with_black_on_the_opening_board() {
    let game = Game::default();
    assert!(game.board.same_as(&Board::default()));
    assert_eq!(game.current_phase, Phase::Turn(Player::Black));
    assert_eq!(game.valid_moves.iter(), vec![(2, 3), (3, 2), (4, 5), (5, 4)]);
    assert!(game.is_board_untouched);
    assert!(game.can_take_statistics);
    assert!(!game.awaiting_ai_move);
}

#[test]
fn seats_are_black_then_white() {
    assert_eq!(Game::seat_of(Player::Black), 0);
    assert_eq!(Game::seat_of(Player::White), 1);
}

#[test]
fn legal_move_hands_the_turn_to_the_opponent() {
    let mut game = Game::default();
    assert_eq!(game.make_move((2, 3), Player::Black), MoveEffect::Played);
    assert!(game.board.same_as(&board_with(&[(2, 3), (3, 3), (3, 4), (4, 3)], &[(4, 4)])));
    assert_eq!(game.current_phase, Phase::Turn(Player::White));
    assert_eq!(game.valid_moves.iter(), vec![(2, 2), (2, 4), (4, 2)]);
    assert!(!game.is_board_untouched);
    assert!(game.can_take_statistics);
}

#[test]
fn illegal_move_changes_nothing() {
    let mut game = Game::default();
    assert_eq!(game.make_move((0, 0), Player::Black), MoveEffect::Illegal);
    assert_eq!(game.make_move((3, 3), Player::Black), MoveEffect::Illegal);
    assert!(game.board.same_as(&Board::default()));
    assert_eq!(game.current_phase, Phase::Turn(Player::Black));
    assert_eq!(game.valid_moves.iter(), vec![(2, 3), (3, 2), (4, 5), (5, 4)]);
    assert!(game.is_board_untouched);
}

#[test]
fn mover_goes_on_when_the_opponent_cannot_move() {
    let mut game = Game::default();
    game.board = board_with(&[(0, 0)], &[(0, 1), (0, 3)]);
    assert_eq!(game.make_move((0, 2), Player::Black), MoveEffect::Played);
    assert_eq!(game.current_phase, Phase::Turn(Player::Black));
    assert_eq!(game.valid_moves.iter(), vec![(0, 4)]);
}

#[test]
fn last_move_ends_the_game_and_asks_for_a_record_once() {
    let mut game = Game::default();
    game.board = board_with(&[(0, 0)], &[(0, 1)]);
    game.is_board_untouched = false;
    let effect = game.make_move((0, 2), Player::Black);
    assert_eq!(
        effect,
        MoveEffect::Finished { outcome: Outcome::Won(Player::Black), record: true }
    );
    assert_eq!(game.current_phase, Phase::Win(Player::Black));
    assert_eq!(game.valid_moves.count, 0);
    assert!(!game.can_take_statistics);
    assert!(!game.take_statistics());
}

#[test]
fn game_that_ends_level_is_a_tie() {
    // White takes the last empty square, turns one disk over, and levels the
    // count at 32 each.
    let mut board = Board { grid: [[Cell::Taken(Player::Black); 8]; 8] };
    board.grid[0][0] = Cell::Empty;
    for &(r, c) in &[(0, 2), (1, 0), (1, 1), (4, 0), (4, 1), (4, 2)] {
        board.grid[r][c] = Cell::Taken(Player::White);
    }
    for r in 5..8 {
        for c in 0..8 {
            board.grid[r][c] = Cell::Taken(Player::White);
        }
    }
    assert_eq!(othello::referee::Referee::count_disks(&board, Player::White), (30, 33));
    let mut game = Game::default();
    game.board = board;
    game.is_board_untouched = false;
    game.can_take_statistics = false;
    let effect = game.make_move((0, 0), Player::White);
    assert_eq!(effect, MoveEffect::Finished { outcome: Outcome::Tie, record: false });
    assert_eq!(game.current_phase, Phase::Tie);
    assert_eq!(othello::referee::Referee::count_disks(&game.board, Player::White), (32, 32));
}

#[test]
fn changed_settings_spoil_the_statistics_only_after_the_first_move() {
    let mut game = Game::default();
    game.ai_setting_changed();
    assert!(game.can_take_statistics);
    assert_eq!(game.make_move((2, 3), Player::Black), MoveEffect::Played);
    game.ai_setting_changed();
    assert!(!game.can_take_statistics);
    assert!(!game.take_statistics());
    game.reset();
    assert!(game.can_take_statistics);
    assert!(game.is_board_untouched);
    assert!(game.board.same_as(&Board::default()));
    assert_eq!(game.current_phase, Phase::Turn(Player::Black));
}

#[test]
fn statistics_are_taken_once() {
    let mut game = Game::default();
    assert!(game.take_statistics());
    assert!(!game.take_statistics());
}

#[test]
fn request_carries_the_position_and_the_settings_of_the_side() {
    let mut game = Game::default();
    game.player_options[1].ai_type = AiType::Minimax;
    game.player_options[1].ai_recursion_depth = 4;
    game.options.pace_ai = false;
    let request = game.request_ai_move(Player::White);
    assert!(game.awaiting_ai_move);
    assert!(request.board.same_as(&game.board));
    assert_eq!(request.player, Player::White);
    assert!(!request.pace_response);
    assert_eq!(request.algorithm_choice, AiType::Minimax);
    assert_eq!(request.recursion_depth, 4);
    let request = game.request_ai_move(Player::Black);
    assert_eq!(request.algorithm_choice, AiType::Random);
    assert_eq!(request.recursion_depth, 1);
}

#[test]
fn current_answer_is_played() {
    let mut game = Game::default();
    game.player_options[0].ai_enabled = true;
    let request = game.request_ai_move(Player::Black);
    let answer = MoveResult { board: request.board, player: request.player, next_move: (2, 3) };
    assert_eq!(game.receive_ai_move(&answer, Player::Black), MoveEffect::Played);
    assert!(!game.awaiting_ai_move);
    assert_eq!(game.current_phase, Phase::Turn(Player::White));
    assert!(game.player_options[0].ai_enabled);
}

#[test]
fn stale_answer_is_dropped() {
    let mut game = Game::default();
    let request = game.request_ai_move(Player::Black);
    let answer = MoveResult { board: request.board, player: request.player, next_move: (2, 3) };
    assert_eq!(game.make_move((3, 2), Player::Black), MoveEffect::Played);
    let before = game.board.clone();
    assert_eq!(game.receive_ai_move(&answer, Player::White), MoveEffect::Illegal);
    assert!(game.board.same_as(&before));
    assert_eq!(game.current_phase, Phase::Turn(Player::White));
    assert!(!game.awaiting_ai_move);

    // The right board for the wrong side is stale too.
    let wrong_side = MoveResult { board: before.clone(), player: Player::Black, next_move: (2, 2) };
    assert_eq!(game.receive_ai_move(&wrong_side, Player::White), MoveEffect::Illegal);
    assert!(game.board.same_as(&before));
}

#[test]
fn sentinel_answer_switches_the_computer_player_off() {
    let mut game = Game::default();
    game.player_options[0].ai_enabled = true;
    game.player_options[1].ai_enabled = true;
    game.player_options[1].ai_type = AiType::Minimax;
    game.player_options[1].ai_recursion_depth = 3;
    let request = game.request_ai_move(Player::White);
    let answer = MoveResult { board: request.board, player: request.player, next_move: (8, 8) };
    assert_eq!(game.receive_ai_move(&answer, Player::White), MoveEffect::Illegal);
    assert!(!game.awaiting_ai_move);
    assert!(game.player_options[0].ai_enabled);
    assert!(!game.player_options[1].ai_enabled);
    assert_eq!(game.player_options[1].ai_type, AiType::Minimax);
    assert_eq!(game.player_options[1].ai_recursion_depth, 3);
    assert!(game.board.same_as(&Board::default()));
}

#[test]
fn whole_game_between_computer_players_ends() {
    let mut game = Game::default();
    let mut agent = othello::agent::Agent::new();
    game.player_options[0] =
        PlayerOptions { ai_enabled: true, ai_type: AiType::Minimax, ai_recursion_depth: 2 };
    game.player_options[1] =
        PlayerOptions { ai_enabled: true, ai_type: AiType::Random, ai_recursion_depth: 1 };
    let mut moves = 0;
    let mut finished = None;
    while let Phase::Turn(player) = game.current_phase {
        let request = game.request_ai_move(player);
        let answer = agent.respond(request);
        assert!(answer.next_move.0 < 8 && answer.next_move.1 < 8);
        match game.receive_ai_move(&answer, player) {
            MoveEffect::Illegal => panic!("the agent answered with an illegal move"),
            MoveEffect::Played => {}
            MoveEffect::Finished { outcome, record } => {
                assert!(record);
                finished = Some(outcome);
            }
        }
        moves += 1;
        assert!(moves <= 60);
    }
    let outcome = finished.expect("the game ended");
    assert_eq!(outcome, othello::referee::Referee::check_outcome(&game.board));
    match (outcome, game.current_phase) {
        (Outcome::Won(a), Phase::Win(b)) => assert_eq!(a, b),
        (Outcome::Tie, Phase::Tie) => {}
        other => panic!("phase and outcome disagree: {other:?}"),
    }
}
