use tictactoe::Board;
use tictactoe::BoardError;
use tictactoe::Cell;

#[test]
fn new_board_is_empty_and_x_moves_first() {
    let board = Board::new();
    let available = board.get_available();
    assert_eq!(available, vec![0, 1, 2, 3, 4, 5, 6, 7, 8]);
    assert_eq!(board.get_turn(), Cell::X);
    let (finished, winner) = board.get_winner();
    assert!(!finished);
    assert!(winner.is_none());
}

#[test]
fn play_move_fills_the_cell() {
    let mut board = Board::new();
    assert!(board.play_move(4, Cell::X).is_ok());
    assert_eq!(board.cell_at(4), Cell::X);
    let available = board.get_available();
    assert_eq!(available, vec![0, 1, 2, 3, 5, 6, 7, 8]);
}

#[test]
fn play_move_refuses_an_occupied_cell() {
    let mut board = Board::new();
    assert!(board.play_move(4, Cell::X).is_ok());
    let refused = board.play_move(4, Cell::O);
    match refused {
        Ok(()) => panic!("an occupied cell must be refused"),
        Err(BoardError::PositionError(message)) => {
            assert_eq!(message, "Position 4 is occupied by X");
        }
    }
    assert_eq!(board.cell_at(4), Cell::X);
}

#[test]
fn turn_alternates_with_every_move() {
    let mut board = Board::new();
    assert_eq!(board.get_turn(), Cell::X);
    board.play_move(0, Cell::X).unwrap();
    assert_eq!(board.get_turn(), Cell::O);
    board.play_move(1, Cell::O).unwrap();
    assert_eq!(board.get_turn(), Cell::X);
    board.play_move(2, Cell::X).unwrap();
    assert_eq!(board.get_turn(), Cell::O);
}

#[test]
fn a_completed_row_wins() {
    let mut board = Board::new();
    board.play_move(0, Cell::X).unwrap();
    board.play_move(3, Cell::O).unwrap();
    board.play_move(1, Cell::X).unwrap();
    board.play_move(4, Cell::O).unwrap();
    board.play_move(2, Cell::X).unwrap();
    let (finished, winner) = board.get_winner();
    assert!(finished);
    assert_eq!(winner, Some(Cell::X));
}

#[test]
fn a_completed_column_wins() {
    let mut board = Board::new();
    board.play_move(0, Cell::X).unwrap();
    board.play_move(1, Cell::O).unwrap();
    board.play_move(3, Cell::X).unwrap();
    board.play_move(2, Cell::O).unwrap();
    board.play_move(6, Cell::X).unwrap();
    let (finished, winner) = board.get_winner();
    assert!(finished);
    assert_eq!(winner, Some(Cell::X));
}

#[test]
fn a_completed_diagonal_wins() {
    let mut board = Board::new();
    board.play_move(0, Cell::O).unwrap();
    board.play_move(4, Cell::O).unwrap();
    board.play_move(8, Cell::O).unwrap();
    let (finished, winner) = board.get_winner();
    assert!(finished);
    assert_eq!(winner, Some(Cell::O));
}

#[test]
fn a_full_board_without_a_line_is_a_draw() {
    // X O X / X O O / O X X: none of the 8 lines is completed.
    let mut board = Board::new();
    board.play_move(0, Cell::X).unwrap();
    board.play_move(1, Cell::O).unwrap();
    board.play_move(2, Cell::X).unwrap();
    board.play_move(3, Cell::X).unwrap();
    board.play_move(4, Cell::O).unwrap();
    board.play_move(5, Cell::O).unwrap();
    board.play_move(6, Cell::O).unwrap();
    board.play_move(7, Cell::X).unwrap();
    board.play_move(8, Cell::X).unwrap();
    let (finished, winner) = board.get_winner();
    assert!(finished);
    assert_eq!(winner, None);
}

#[test]
fn an_unfinished_game_is_not_terminal() {
    let mut board = Board::new();
    board.play_move(0, Cell::X).unwrap();
    board.play_move(4, Cell::O).unwrap();
    let (finished, winner) = board.get_winner();
    assert!(!finished);
    assert_eq!(winner, None);
}

#[test]
fn the_hash_encodes_the_cells_in_base_3() {
    let board = Board::new();
    assert_eq!(board.get_hash(), 0);

    let mut with_x = Board::new();
    with_x.play_move(0, Cell::X).unwrap();
    assert_eq!(with_x.get_hash(), 3u64.pow(8));

    let mut with_o = Board::new();
    with_o.play_move(8, Cell::O).unwrap();
    assert_eq!(with_o.get_hash(), 2);

    let mut two_moves = Board::new();
    two_moves.play_move(0, Cell::X).unwrap();
    two_moves.play_move(8, Cell::O).unwrap();
    assert_eq!(two_moves.get_hash(), 3u64.pow(8) + 2);
}

#[test]
fn the_hash_of_a_full_o_board_is_the_largest() {
    let mut board = Board::new();
    for p in 0..9 {
        board.play_move(p, Cell::O).unwrap();
    }
    assert_eq!(board.get_hash(), 19682);
}

#[test]
fn different_positions_hash_differently() {
    let mut a = Board::new();
    a.play_move(2, Cell::X).unwrap();
    let mut b = Board::new();
    b.play_move(2, Cell::O).unwrap();
    let mut c = Board::new();
    c.play_move(3, Cell::X).unwrap();
    assert_ne!(a.get_hash(), b.get_hash());
    assert_ne!(a.get_hash(), c.get_hash());
    assert_ne!(b.get_hash(), c.get_hash());
}

#[test]
fn with_move_leaves_the_source_board_untouched() {
    let board = Board::new();
    let next = board.with_move(4, Cell::X);
    assert_eq!(board.cell_at(4), Cell::Empty);
    assert_eq!(next.cell_at(4), Cell::X);
}

#[test]
fn count_symbol_counts_each_symbol() {
    let mut board = Board::new();
    board.play_move(0, Cell::X).unwrap();
    board.play_move(1, Cell::O).unwrap();
    board.play_move(2, Cell::X).unwrap();
    assert_eq!(board.count_symbol(Cell::X), 2);
    assert_eq!(board.count_symbol(Cell::O), 1);
    assert_eq!(board.count_symbol(Cell::Empty), 6);
}
