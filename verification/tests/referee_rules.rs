use othello::board::{Board, Cell, Player};
use othello::common::CellList;
use othello::referee::{Outcome, Referee};

fn empty_board() -> Board {
    Board { grid: [[Cell::Empty; 8]; 8] }
}

fn board_with(black: &[(usize, usize)], white: &[(usize, usize)]) -> Board {
    let mut board = empty_board();
    for &(r, c) in black {
        board.grid[r][c] = Cell::Taken(Player::Black);
    }
    for &(r, c) in white {
        board.grid[r][c] = Cell::Taken(Player::White);
    }
    board
}

fn full_board(black_cells: usize) -> Board {
    let mut board = empty_board();
    for i in 0..64 {
        let owner = if i < black_cells { Player::Black } else { Player::White };
        board.grid[i / 8][i % 8] = Cell::Taken(owner);
    }
    board
}

#[test]
fn opponent_swaps_the_sides() {
    assert_eq!(Player::Black.opponent(), Player::White);
    assert_eq!(Player::White.opponent(), Player::Black);
    assert_eq!(Player::Black.opponent().opponent(), Player::Black);
}

#[test]
fn fresh_board_has_four_centre_disks() {
    let board = Board::default();
    for r in 0..8 {
        for c in 0..8 {
            let expected = match (r, c) {
                (3, 3) | (4, 4) => Cell::Taken(Player::White),
                (3, 4) | (4, 3) => Cell::Taken(Player::Black),
                _ => Cell::Empty,
            };
            assert_eq!(board.cell((r, c)), expected, "cell ({r}, {c})");
        }
    }
    assert_eq!(Referee::count_disks(&board, Player::Black), (2, 2));
    assert_eq!(Referee::count_disks(&board, Player::White), (2, 2));
}

#[test]
fn board_clone_and_same_as_agree() {
    let board = Board::default();
    let copy = board.clone();
    assert!(board.same_as(&copy));
    let mut other = board.clone();
    other.grid[0][0] = Cell::Taken(Player::Black);
    assert!(!board.same_as(&other));
    assert!(!other.same_as(&board));
}

#[test]
fn cell_list_keeps_insertion_order() {
    let mut list = CellList::default();
    assert_eq!(list.count, 0);
    assert_eq!(list.iter(), Vec::<(usize, usize)>::new());
    list.push_back((3, 4));
    list.push_back((0, 7));
    list.push_back((3, 4));
    assert_eq!(list.count, 3);
    assert_eq!(list.iter(), vec![(3, 4), (0, 7), (3, 4)]);
}

#[test]
fn cell_list_holds_sixty_four_cells() {
    let mut list = CellList::default();
    for i in 0..64 {
        list.push_back((i / 8, i % 8));
    }
    assert_eq!(list.count, 64);
    let cells = list.iter();
    assert_eq!(cells.len(), 64);
    assert_eq!(cells[0], (0, 0));
    assert_eq!(cells[63], (7, 7));
}

#[test]
fn black_captures_one_disk_on_the_opening_board() {
    let board = Board::default();
    let mut referee = Referee::default();
    let mut flips = CellList::default();
    assert!(referee.find_flip_cells_for_move(&board, Player::Black, (2, 3), &mut flips));
    assert_eq!(flips.iter(), vec![(3, 3)]);
    assert!(referee.validate_move(&board, Player::Black, (2, 3)));
}

#[test]
fn corner_of_the_centre_is_illegal_on_the_opening_board() {
    let board = Board::default();
    let mut referee = Referee::default();
    let mut flips = CellList::default();
    flips.push_back((1, 1));
    assert!(!referee.find_flip_cells_for_move(&board, Player::Black, (2, 2), &mut flips));
    assert_eq!(flips.count, 0);
    assert_eq!(flips.iter(), Vec::<(usize, usize)>::new());
    assert!(!referee.validate_move(&board, Player::Black, (2, 2)));
}

#[test]
fn taken_cell_is_never_legal() {
    let board = Board::default();
    let mut referee = Referee::default();
    let mut flips = CellList::default();
    flips.push_back((0, 0));
    for &cell in &[(3, 3), (3, 4), (4, 3), (4, 4)] {
        for &player in &[Player::Black, Player::White] {
            assert!(!referee.validate_move(&board, player, cell));
            assert!(!referee.find_flip_cells_for_move(&board, player, cell, &mut flips));
            assert_eq!(flips.count, 0);
        }
    }
}

#[test]
fn cell_without_neighbours_is_illegal_and_leaves_an_empty_list() {
    let board = Board::default();
    let mut referee = Referee::default();
    let mut flips = CellList::default();
    flips.push_back((5, 5));
    assert!(!referee.find_flip_cells_for_move(&board, Player::Black, (0, 0), &mut flips));
    assert_eq!(flips.count, 0);
}

#[test]
fn rays_are_gathered_in_scan_order_farthest_disk_first() {
    // East of (3, 3): two white disks closed by a black one. South: one white
    // disk closed by a black one. North-west: a white disk followed by an
    // empty square. West: white disks up to the edge.
    let board = board_with(
        &[(3, 6), (5, 3)],
        &[(3, 4), (3, 5), (4, 3), (2, 2), (3, 2), (3, 1), (3, 0)],
    );
    let mut referee = Referee::default();
    let mut flips = CellList::default();
    assert!(referee.find_flip_cells_for_move(&board, Player::Black, (3, 3), &mut flips));
    assert_eq!(flips.iter(), vec![(3, 5), (3, 4), (4, 3)]);
}

#[test]
fn ray_that_runs_off_the_edge_captures_nothing() {
    let board = board_with(&[], &[(0, 1), (0, 2), (0, 3), (0, 4), (0, 5), (0, 6), (0, 7)]);
    let mut referee = Referee::default();
    assert!(!referee.validate_move(&board, Player::Black, (0, 0)));
}

#[test]
fn longest_ray_captures_six_disks() {
    let board = board_with(&[(7, 7)], &[(1, 1), (2, 2), (3, 3), (4, 4), (5, 5), (6, 6)]);
    let mut referee = Referee::default();
    let mut flips = CellList::default();
    assert!(referee.find_flip_cells_for_move(&board, Player::Black, (0, 0), &mut flips));
    assert_eq!(flips.iter(), vec![(6, 6), (5, 5), (4, 4), (3, 3), (2, 2), (1, 1)]);
}

#[test]
fn move_on_the_border_sees_a_clipped_neighbourhood() {
    // A capture along the bottom edge, towards the west.
    let board = board_with(&[(7, 5)], &[(7, 6)]);
    let mut referee = Referee::default();
    let mut flips = CellList::default();
    assert!(referee.find_flip_cells_for_move(&board, Player::Black, (7, 7), &mut flips));
    assert_eq!(flips.iter(), vec![(7, 6)]);
    // Nothing wraps round from the other side of the board.
    let wrap = board_with(&[(6, 1)], &[(6, 0)]);
    assert!(!referee.validate_move(&wrap, Player::Black, (5, 7)));
    assert!(!referee.validate_move(&wrap, Player::Black, (6, 7)));
}

#[test]
fn own_neighbour_alone_does_not_make_a_move_legal() {
    let board = board_with(&[(3, 4)], &[]);
    let mut referee = Referee::default();
    assert!(!referee.validate_move(&board, Player::Black, (3, 3)));
}

#[test]
fn all_eight_directions_capture() {
    let board = board_with(
        &[(1, 1), (1, 3), (1, 5), (3, 1), (3, 5), (5, 1), (5, 3), (5, 5)],
        &[(2, 2), (2, 3), (2, 4), (3, 2), (3, 4), (4, 2), (4, 3), (4, 4)],
    );
    let mut referee = Referee::default();
    let mut flips = CellList::default();
    assert!(referee.find_flip_cells_for_move(&board, Player::Black, (3, 3), &mut flips));
    assert_eq!(
        flips.iter(),
        vec![(2, 2), (2, 3), (2, 4), (3, 2), (3, 4), (4, 2), (4, 3), (4, 4)]
    );
}

#[test]
fn opening_moves_are_listed_row_by_row() {
    let board = Board::default();
    let mut referee = Referee::default();
    let mut moves = CellList::default();
    assert!(referee.find_all_valid_moves(&board, Player::Black, &mut moves));
    assert_eq!(moves.iter(), vec![(2, 3), (3, 2), (4, 5), (5, 4)]);
    assert!(referee.find_all_valid_moves(&board, Player::White, &mut moves));
    assert_eq!(moves.iter(), vec![(2, 4), (3, 5), (4, 2), (5, 3)]);
}

#[test]
fn enumeration_twice_gives_the_same_list() {
    let board = Board::default();
    let mut referee = Referee::default();
    let mut first = CellList::default();
    let mut second = CellList::default();
    let found_first = referee.find_all_valid_moves(&board, Player::Black, &mut first);
    // An unrelated query in between must not change the answer.
    referee.validate_move(&board, Player::White, (2, 4));
    let found_second = referee.find_all_valid_moves(&board, Player::Black, &mut second);
    assert_eq!(found_first, found_second);
    assert_eq!(first.iter(), second.iter());
    let found_again = referee.find_all_valid_moves(&board, Player::Black, &mut first);
    assert!(found_again);
    assert_eq!(first.iter(), second.iter());
}

#[test]
fn enumeration_of_a_board_without_moves_is_empty() {
    let board = empty_board();
    let mut referee = Referee::default();
    let mut moves = CellList::default();
    moves.push_back((1, 1));
    assert!(!referee.find_all_valid_moves(&board, Player::Black, &mut moves));
    assert_eq!(moves.count, 0);
}

#[test]
fn count_disks_gives_the_mover_first() {
    let board = board_with(&[(0, 0), (0, 1), (7, 7)], &[(4, 4)]);
    assert_eq!(Referee::count_disks(&board, Player::Black), (3, 1));
    assert_eq!(Referee::count_disks(&board, Player::White), (1, 3));
    assert_eq!(Referee::count_disks(&empty_board(), Player::Black), (0, 0));
    assert_eq!(Referee::count_disks(&full_board(64), Player::Black), (64, 0));
}

#[test]
fn even_full_board_is_a_tie() {
    let board = full_board(32);
    let mut referee = Referee::default();
    let mut moves = CellList::default();
    assert!(!referee.find_all_valid_moves(&board, Player::Black, &mut moves));
    assert!(!referee.find_all_valid_moves(&board, Player::White, &mut moves));
    assert_eq!(Referee::count_disks(&board, Player::Black), (32, 32));
    assert_eq!(Referee::check_outcome(&board), Outcome::Tie);
}

#[test]
fn side_with_thirty_three_disks_wins() {
    let black_ahead = full_board(33);
    assert_eq!(Referee::count_disks(&black_ahead, Player::Black), (33, 31));
    assert_eq!(Referee::check_outcome(&black_ahead), Outcome::Won(Player::Black));
    let white_ahead = full_board(31);
    assert_eq!(Referee::count_disks(&white_ahead, Player::White), (33, 31));
    assert_eq!(Referee::check_outcome(&white_ahead), Outcome::Won(Player::White));
}

#[test]
fn outcome_of_an_unfinished_board_compares_counts() {
    assert_eq!(Referee::check_outcome(&Board::default()), Outcome::Tie);
    assert_eq!(Referee::check_outcome(&board_with(&[(0, 0)], &[])), Outcome::Won(Player::Black));
    assert_eq!(Referee::check_outcome(&board_with(&[], &[(0, 0)])), Outcome::Won(Player::White));
}

#[test]
fn apply_move_places_the_disk_and_flips_the_cells() {
    let mut board = Board::default();
    let mut referee = Referee::default();
    let mut flips = CellList::default();
    assert!(referee.find_flip_cells_for_move(&board, Player::Black, (2, 3), &mut flips));
    Referee::apply_move(&mut board, Player::Black, (2, 3), &flips);
    let expected = board_with(&[(2, 3), (3, 3), (3, 4), (4, 3)], &[(4, 4)]);
    assert!(board.same_as(&expected));
    assert_eq!(Referee::count_disks(&board, Player::Black), (4, 1));
}

#[test]
fn apply_move_with_an_empty_list_only_places_the_disk() {
    let mut board = empty_board();
    let flips = CellList::default();
    Referee::apply_move(&mut board, Player::White, (5, 6), &flips);
    assert!(board.same_as(&board_with(&[], &[(5, 6)])));
}

#[test]
fn replaying_a_move_is_illegal() {
    let mut board = Board::default();
    let mut referee = Referee::default();
    let mut flips = CellList::default();
    assert!(referee.find_flip_cells_for_move(&board, Player::Black, (2, 3), &mut flips));
    Referee::apply_move(&mut board, Player::Black, (2, 3), &flips);
    assert_ne!(board.cell((2, 3)), Cell::Empty);
    for &player in &[Player::Black, Player::White] {
        assert!(!referee.find_flip_cells_for_move(&board, player, (2, 3), &mut flips));
        assert_eq!(flips.count, 0);
        assert!(!referee.validate_move(&board, player, (2, 3)));
    }
}

#[test]
fn next_valid_move_is_found_and_applied() {
    let mut referee = Referee::default();
    let mut board = Board::default();
    assert_eq!(referee.find_and_apply_next_valid_move(&mut board, Player::Black, (0, 0)), (2, 3));
    assert!(board.same_as(&board_with(&[(2, 3), (3, 3), (3, 4), (4, 3)], &[(4, 4)])));

    let mut board = Board::default();
    assert_eq!(referee.find_and_apply_next_valid_move(&mut board, Player::Black, (2, 3)), (2, 3));

    let mut board = Board::default();
    assert_eq!(referee.find_and_apply_next_valid_move(&mut board, Player::Black, (2, 4)), (3, 2));
    assert!(board.same_as(&board_with(&[(3, 2), (3, 3), (3, 4), (4, 3)], &[(4, 4)])));
}

#[test]
fn next_valid_move_past_the_last_one_is_the_sentinel() {
    let mut referee = Referee::default();
    let mut board = Board::default();
    assert_eq!(referee.find_and_apply_next_valid_move(&mut board, Player::Black, (5, 5)), (8, 8));
    assert!(board.same_as(&Board::default()));
    assert_eq!(referee.find_and_apply_next_valid_move(&mut board, Player::Black, (8, 0)), (8, 8));
    assert_eq!(referee.find_and_apply_next_valid_move(&mut board, Player::Black, (9, 9)), (8, 8));
    assert!(board.same_as(&Board::default()));
}

#[test]
fn next_valid_move_from_beyond_a_row_starts_with_the_next_row() {
    let mut referee = Referee::default();
    let mut board = Board::default();
    assert_eq!(referee.find_and_apply_next_valid_move(&mut board, Player::Black, (2, 8)), (3, 2));
    let mut board = Board::default();
    assert_eq!(referee.find_and_apply_next_valid_move(&mut board, Player::Black, (4, 20)), (5, 4));
}
