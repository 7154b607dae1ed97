use tictactoe::Board;
use tictactoe::Cell;
use tictactoe::check_winner;
use tictactoe::equals_3;
use tictactoe::get_availables;
use tictactoe::max_value;
use tictactoe::min_value;
use tictactoe::minimax_search;

#[test]
fn equals_3_needs_three_identical_marks() {
    assert!(equals_3(Cell::X, Cell::X, Cell::X));
    assert!(equals_3(Cell::O, Cell::O, Cell::O));
    assert!(!equals_3(Cell::X, Cell::O, Cell::X));
    assert!(!equals_3(Cell::Empty, Cell::Empty, Cell::Empty));
}

#[test]
fn get_availables_lists_the_empty_cells_in_order() {
    let mut board = Board::new();
    board.play_move(0, Cell::X).unwrap();
    board.play_move(5, Cell::O).unwrap();
    assert_eq!(get_availables(&board), vec![1, 2, 3, 4, 6, 7, 8]);
}

#[test]
fn check_winner_scores_win_loss_and_draw() {
    let mut won = Board::new();
    won.play_move(0, Cell::X).unwrap();
    won.play_move(1, Cell::X).unwrap();
    won.play_move(2, Cell::X).unwrap();
    assert_eq!(check_winner(&won, Cell::X), Some(10));
    assert_eq!(check_winner(&won, Cell::O), Some(-10));

    // X O X / X O O / O X X is a draw.
    let mut drawn = Board::new();
    for (p, s) in [
        (0, Cell::X),
        (1, Cell::O),
        (2, Cell::X),
        (3, Cell::X),
        (4, Cell::O),
        (5, Cell::O),
        (6, Cell::O),
        (7, Cell::X),
        (8, Cell::X),
    ] {
        drawn.play_move(p, s).unwrap();
    }
    assert_eq!(check_winner(&drawn, Cell::X), Some(0));
    assert_eq!(check_winner(&drawn, Cell::O), Some(0));

    let open = Board::new();
    assert_eq!(check_winner(&open, Cell::X), None);
}

#[test]
fn terminal_boards_score_without_a_move() {
    let mut won = Board::new();
    won.play_move(0, Cell::X).unwrap();
    won.play_move(1, Cell::X).unwrap();
    won.play_move(2, Cell::X).unwrap();
    assert_eq!(max_value(&won, i32::MIN, i32::MAX, Cell::X), (10, None));
    assert_eq!(max_value(&won, i32::MIN, i32::MAX, Cell::O), (-10, None));
    assert_eq!(min_value(&won, i32::MIN, i32::MAX, Cell::X), (10, None));
}

#[test]
fn one_empty_cell_left_and_no_line_is_a_draw_for_both() {
    // X O X / X O O / O X _ with X to move: filling 8 completes no line.
    let mut board = Board::new();
    for (p, s) in [
        (0, Cell::X),
        (1, Cell::O),
        (2, Cell::X),
        (3, Cell::X),
        (4, Cell::O),
        (5, Cell::O),
        (6, Cell::O),
        (7, Cell::X),
    ] {
        board.play_move(p, s).unwrap();
    }
    assert_eq!(max_value(&board, i32::MIN, i32::MAX, Cell::X), (0, Some(8)));
    assert_eq!(min_value(&board, i32::MIN, i32::MAX, Cell::O), (0, Some(8)));
}

#[test]
fn minimax_completes_the_winning_row() {
    // Positions 0 and 1 hold X, position 2 is empty: X must play 2.
    let mut board = Board::new();
    board.play_move(0, Cell::X).unwrap();
    board.play_move(1, Cell::X).unwrap();
    assert_eq!(minimax_search(&board, Cell::X), 2);
}

#[test]
fn minimax_blocks_the_opposing_row() {
    // X threatens 0-1-2; O to move must block at 2.
    let mut board = Board::new();
    board.play_move(0, Cell::X).unwrap();
    board.play_move(4, Cell::O).unwrap();
    board.play_move(1, Cell::X).unwrap();
    assert_eq!(minimax_search(&board, Cell::O), 2);
}

#[test]
fn minimax_never_yields_an_occupied_position() {
    let mut board = Board::new();
    board.play_move(4, Cell::X).unwrap();
    board.play_move(0, Cell::O).unwrap();
    let p = minimax_search(&board, Cell::X);
    assert!(p < 9);
    assert_eq!(board.cell_at(p), Cell::Empty);
}

fn self_play_moves() -> (Vec<usize>, Option<Cell>) {
    let mut board = Board::new();
    let mut moves = Vec::new();
    loop {
        let (finished, winner) = board.get_winner();
        if finished {
            return (moves, winner);
        }
        let turn = board.get_turn();
        let p = minimax_search(&board, turn);
        moves.push(p);
        board.play_move(p, turn).unwrap();
    }
}

#[test]
fn minimax_against_itself_always_draws() {
    let (moves, winner) = self_play_moves();
    assert_eq!(winner, None);
    assert_eq!(moves.len(), 9);
}

#[test]
fn minimax_is_deterministic() {
    let first = self_play_moves();
    let second = self_play_moves();
    assert_eq!(first.0, second.0);
    assert_eq!(first.1, second.1);
}
