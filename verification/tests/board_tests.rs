use connect_four::board::{find_four, find_three, Board, Piece};

const E: Piece = Piece::Empty;
const X: Piece = Piece::X;
const O: Piece = Piece::O;

fn board_of(cols: [[Piece; 6]; 7], last_move: usize) -> Board {
    Board { cols, last_move, eval: 0 }
}

fn drop_all(board: &mut Board, moves: &[(usize, Piece)]) {
    for (col, piece) in moves {
        board.insert_piece(*col, *piece).unwrap();
    }
}

fn under_gravity(board: &Board) -> bool {
    for x in 0..7 {
        for y in 1..6 {
            if board.cols[x][y] != E && board.cols[x][y - 1] == E {
                return false;
            }
        }
    }
    true
}

#[test]
fn insert_piece_works() {
    let mut board = Board::new();

    board.insert_piece(0, Piece::O).unwrap();

    let board2 = Board {
        cols: [
            [Piece::O, Piece::Empty, Piece::Empty, Piece::Empty, Piece::Empty, Piece::Empty],
            [Piece::Empty, Piece::Empty, Piece::Empty, Piece::Empty, Piece::Empty, Piece::Empty],
            [Piece::Empty, Piece::Empty, Piece::Empty, Piece::Empty, Piece::Empty, Piece::Empty],
            [Piece::Empty, Piece::Empty, Piece::Empty, Piece::Empty, Piece::Empty, Piece::Empty],
            [Piece::Empty, Piece::Empty, Piece::Empty, Piece::Empty, Piece::Empty, Piece::Empty],
            [Piece::Empty, Piece::Empty, Piece::Empty, Piece::Empty, Piece::Empty, Piece::Empty],
            [Piece::Empty, Piece::Empty, Piece::Empty, Piece::Empty, Piece::Empty, Piece::Empty],
        ],
        last_move: 0,
        eval: 0,
    };

    assert_eq!(board.cols, board2.cols);
}

#[test]
fn diagonals_work() {
    let board = Board {
        cols: [
            [Piece::O, Piece::Empty, Piece::Empty, Piece::Empty, Piece::Empty, Piece::Empty],
            [Piece::Empty, Piece::O, Piece::Empty, Piece::Empty, Piece::Empty, Piece::Empty],
            [Piece::Empty, Piece::Empty, Piece::X, Piece::Empty, Piece::Empty, Piece::Empty],
            [Piece::Empty, Piece::Empty, Piece::Empty, Piece::Empty, Piece::Empty, Piece::Empty],
            [Piece::Empty, Piece::Empty, Piece::Empty, Piece::Empty, Piece::O, Piece::Empty],
            [Piece::Empty, Piece::Empty, Piece::Empty, Piece::Empty, Piece::Empty, Piece::Empty],
            [Piece::Empty, Piece::Empty, Piece::Empty, Piece::Empty, Piece::Empty, Piece::Empty],
        ],
        last_move: 0,
        eval: 0,
    };

    let diagonal1 = board.get_diagonals_of_last_piece(0, 0);

    assert_eq!(
        diagonal1,
        (
            vec![Piece::O, Piece::O, Piece::X, Piece::Empty, Piece::O, Piece::Empty],
            vec![Piece::O]
        )
    );
}

#[test]
fn win_detection() {
    let board = Board {
        cols: [
            [Piece::X, Piece::X, Piece::X, Piece::X, Piece::Empty, Piece::Empty],
            [Piece::Empty, Piece::O, Piece::Empty, Piece::Empty, Piece::Empty, Piece::Empty],
            [Piece::Empty, Piece::Empty, Piece::O, Piece::Empty, Piece::Empty, Piece::Empty],
            [Piece::Empty, Piece::Empty, Piece::Empty, Piece::O, Piece::Empty, Piece::Empty],
            [Piece::Empty, Piece::Empty, Piece::Empty, Piece::Empty, Piece::X, Piece::Empty],
            [Piece::Empty, Piece::Empty, Piece::Empty, Piece::Empty, Piece::Empty, Piece::Empty],
            [Piece::Empty, Piece::Empty, Piece::Empty, Piece::Empty, Piece::Empty, Piece::Empty],
        ],
        last_move: 0,
        eval: 0,
    };

    let win = board.check_win();
    assert_eq!(win, Some(Piece::X));
}

#[test]
fn opponent_swaps_the_sides_and_keeps_empty() {
    assert_eq!(X.opponent(), O);
    assert_eq!(O.opponent(), X);
    assert_eq!(E.opponent(), E);
}

#[test]
fn new_board_is_empty() {
    let board = Board::new();
    assert_eq!(board.cols, [[E; 6]; 7]);
    assert_eq!(board.last_move, 0);
    assert_eq!(board.eval, 0);
    assert!(!board.is_full());
    assert_eq!(board.is_terminal(), None);
}

#[test]
fn cells_are_the_grid() {
    let mut board = Board::new();
    drop_all(&mut board, &[(3, X), (3, O), (0, X)]);
    assert_eq!(*board.cells(), board.cols);
    assert_eq!(board.cells()[3][1], O);
}

#[test]
fn default_board_is_the_new_board() {
    let board = Board::default();
    assert_eq!(board.cols, Board::new().cols);
    assert_eq!(board.last_move, 0);
    assert_eq!(board.eval, 0);
}

#[test]
fn pieces_stack_from_the_bottom() {
    let mut board = Board::new();
    drop_all(&mut board, &[(3, X), (3, O), (3, X), (5, O)]);
    assert_eq!(board.cols[3], [X, O, X, E, E, E]);
    assert_eq!(board.cols[5], [O, E, E, E, E, E]);
    assert_eq!(board.last_move, 5);
    assert_eq!(board.eval, 0);
}

#[test]
fn gravity_holds_after_every_insert() {
    let mut board = Board::new();
    let moves = [
        (0, X), (0, O), (6, X), (3, O), (3, X), (3, O), (3, X), (3, O), (3, X), (1, O), (6, X),
        (2, O), (5, X), (5, O), (0, X), (4, O),
    ];
    for (col, piece) in moves {
        board.insert_piece(col, piece).unwrap();
        assert!(under_gravity(&board));
        assert!(board.is_settled());
    }
    assert_eq!(board.cols[3], [O, X, O, X, O, X]);
    assert_eq!(board.cols[0], [X, O, X, E, E, E]);
}

#[test]
fn a_gap_beneath_a_piece_breaks_gravity() {
    let mut board = Board::new();
    assert!(board.is_settled());
    board.cols[6] = [X, O, E, E, E, X];
    assert!(!board.is_settled());
    board.cols[6] = [E, X, E, E, E, E];
    assert!(!board.is_settled());
    board.cols[6] = [X, O, X, O, X, O];
    assert!(board.is_settled());
    board.undo_move(6);
    assert!(board.is_settled());
}

#[test]
fn a_piece_rests_on_the_highest_piece_of_a_column_with_a_gap() {
    let mut board = Board::new();
    board.cols[2] = [E, E, O, E, E, E];
    board.insert_piece(2, X).unwrap();
    assert_eq!(board.cols[2], [E, E, O, X, E, E]);
}

#[test]
fn full_column_refuses_the_piece() {
    let mut board = Board::new();
    drop_all(&mut board, &[(4, X), (4, O), (4, X), (4, O), (4, X), (4, O), (1, X)]);
    let before = board.cols;
    assert_eq!(board.insert_piece(4, X), Err("Column is full"));
    assert_eq!(board.cols, before);
    assert_eq!(board.cols[4], [X, O, X, O, X, O]);
    assert_eq!(board.last_move, 1);
}

#[test]
fn a_taken_top_cell_refuses_the_piece_even_above_a_gap() {
    let mut board = Board::new();
    board.cols[0] = [E, E, E, E, E, O];
    assert_eq!(board.insert_piece(0, X), Err("Column is full"));
    assert_eq!(board.cols[0], [E, E, E, E, E, O]);
}

#[test]
fn undo_takes_back_an_insert() {
    let mut board = Board::new();
    drop_all(&mut board, &[(2, X), (2, O), (4, X)]);
    for col in 0..7 {
        for piece in [X, O] {
            let before = board.cols;
            board.insert_piece(col, piece).unwrap();
            assert_ne!(board.cols, before);
            board.undo_move(col);
            assert_eq!(board.cols, before);
            assert_eq!(board.last_move, col);
            assert_eq!(board.eval, 0);
        }
    }
}

#[test]
fn undo_clears_only_the_highest_piece() {
    let mut board = Board::new();
    drop_all(&mut board, &[(2, X), (2, O), (2, X)]);
    board.undo_move(2);
    assert_eq!(board.cols[2], [X, O, E, E, E, E]);
    board.undo_move(2);
    board.undo_move(2);
    assert_eq!(board.cols[2], [E; 6]);
    board.undo_move(2);
    assert_eq!(board.cols, [[E; 6]; 7]);
}

#[test]
fn four_in_a_column_wins() {
    let mut board = Board::new();
    drop_all(&mut board, &[(5, O), (5, X), (5, X), (5, X)]);
    assert_eq!(board.check_win(), None);
    board.insert_piece(5, X).unwrap();
    assert_eq!(board.check_win(), Some(X));
    assert_eq!(board.is_terminal(), Some(X));
}

#[test]
fn four_in_a_row_wins_wherever_the_last_piece_stands_in_it() {
    for last in 2..6 {
        let mut board = Board::new();
        for col in 2..6 {
            if col != last {
                board.insert_piece(col, O).unwrap();
            }
        }
        assert_eq!(board.check_win(), None);
        board.insert_piece(last, O).unwrap();
        assert_eq!(board.check_win(), Some(O));
    }
}

#[test]
fn four_on_a_rising_diagonal_wins() {
    let mut board = Board::new();
    drop_all(
        &mut board,
        &[(1, X), (2, O), (2, X), (3, O), (3, O), (3, X), (4, O), (4, X), (4, O)],
    );
    assert_eq!(board.check_win(), None);
    board.insert_piece(4, X).unwrap();
    assert_eq!(board.check_win(), Some(X));
}

#[test]
fn four_on_a_falling_diagonal_wins() {
    let mut board = Board::new();
    drop_all(
        &mut board,
        &[(5, O), (4, X), (4, O), (3, X), (3, X), (3, O), (2, X), (2, O), (2, X)],
    );
    assert_eq!(board.check_win(), None);
    board.insert_piece(2, O).unwrap();
    assert_eq!(board.check_win(), Some(O));
}

#[test]
fn four_away_from_the_last_move_are_not_looked_for() {
    let mut cols = [[E; 6]; 7];
    for col in 0..4 {
        cols[col][0] = X;
    }
    cols[6][0] = O;
    let board = board_of(cols, 6);
    assert_eq!(board.check_win(), None);
    assert_eq!(board.is_terminal(), None);
    let board = board_of(cols, 0);
    assert_eq!(board.check_win(), Some(X));
}

#[test]
fn four_of_the_other_side_in_the_column_are_met_first() {
    let mut cols = [[E; 6]; 7];
    cols[0] = [X, X, X, X, O, E];
    for col in 1..4 {
        cols[col][4] = O;
    }
    assert_eq!(board_of(cols, 0).check_win(), Some(X));
}

#[test]
fn three_in_a_line_do_not_win() {
    let mut board = Board::new();
    drop_all(&mut board, &[(0, X), (1, X), (2, X), (3, O), (4, X), (5, X), (6, X)]);
    for last in 0..7 {
        board.last_move = last;
        assert_eq!(board.check_win(), None);
    }
}

fn drawn_board() -> Board {
    let mut board = Board::new();
    for col in 0..7 {
        for row in 0..6 {
            let even = if col == 3 { O } else { X };
            let piece = if row % 2 == 0 { even } else { even.opponent() };
            board.insert_piece(col, piece).unwrap();
        }
    }
    board
}

#[test]
fn full_board_without_four_is_a_draw() {
    let board = drawn_board();
    assert!(board.is_full());
    for last in 0..7 {
        let mut board = drawn_board();
        board.last_move = last;
        assert_eq!(board.check_win(), None);
        assert_eq!(board.is_terminal(), Some(E));
    }
    assert!(board.get_moves().is_empty());
}

#[test]
fn a_win_on_a_full_board_is_a_win() {
    let mut board = drawn_board();
    board.cols[6] = [X, O, O, O, O, X];
    board.last_move = 6;
    assert!(board.is_full());
    assert_eq!(board.is_terminal(), Some(O));
}

#[test]
fn one_empty_cell_keeps_the_game_open() {
    let mut board = drawn_board();
    board.undo_move(0);
    assert!(!board.is_full());
    assert_eq!(board.is_terminal(), None);
    assert_eq!(board.get_moves(), vec![0]);
}

#[test]
fn probe_sees_an_open_three_in_a_row() {
    let mut board = Board::new();
    drop_all(&mut board, &[(0, X), (1, X)]);
    assert!(board.creates_three_in_a_row(2, X));
    assert!(board.creates_three_in_a_row(3, X));
    assert!(!board.creates_three_in_a_row(4, X));
    assert!(!board.creates_three_in_a_row(2, O));
    assert!(!board.creates_three_in_a_row(0, X));
}

#[test]
fn probe_sees_an_open_three_in_a_column_and_on_a_diagonal() {
    let mut board = Board::new();
    drop_all(&mut board, &[(6, O), (6, O)]);
    assert!(board.creates_three_in_a_row(6, O));
    assert!(!board.creates_three_in_a_row(6, X));

    let mut board = Board::new();
    drop_all(&mut board, &[(0, X), (1, O), (1, X), (2, O), (2, O)]);
    assert!(board.creates_three_in_a_row(2, X));
}

#[test]
fn probe_does_not_count_a_blocked_three() {
    let mut board = Board::new();
    drop_all(&mut board, &[(0, O), (1, X), (2, X), (4, O)]);
    assert!(!board.creates_three_in_a_row(3, X));
}

#[test]
fn probe_leaves_the_board_as_it_was() {
    let mut board = Board::new();
    drop_all(
        &mut board,
        &[(0, X), (1, X), (3, O), (3, O), (5, X), (5, O), (5, X), (5, O), (5, X), (5, O)],
    );
    board.eval = 17;
    let cols = board.cols;
    for col in 0..7 {
        for piece in [X, O, E] {
            board.creates_three_in_a_row(col, piece);
            assert_eq!(board.cols, cols);
            assert_eq!(board.last_move, 5);
            assert_eq!(board.eval, 17);
        }
    }
}

#[test]
fn probe_of_a_full_column_or_of_no_piece_finds_nothing() {
    let mut board = Board::new();
    drop_all(&mut board, &[(5, X), (5, X), (5, X), (5, O), (5, X), (5, X)]);
    assert!(!board.creates_three_in_a_row(5, X));
    drop_all(&mut board, &[(0, X), (1, X)]);
    assert!(!board.creates_three_in_a_row(2, E));
}

#[test]
fn rows_and_cols_list_every_cell() {
    let mut board = Board::new();
    drop_all(&mut board, &[(0, X), (0, O), (6, O), (3, X)]);
    let cols = board.cols();
    assert_eq!(cols.len(), 7);
    for x in 0..7 {
        assert_eq!(cols[x], board.cols[x].to_vec());
    }
    let rows = board.rows();
    assert_eq!(rows.len(), 6);
    assert_eq!(rows[0], vec![X, E, E, X, E, E, O]);
    assert_eq!(rows[1], vec![O, E, E, E, E, E, E]);
    for y in 2..6 {
        assert_eq!(rows[y], vec![E; 7]);
    }
}

#[test]
fn diagonals_are_the_twelve_of_four_cells_or_more() {
    let mut cols = [[E; 6]; 7];
    cols[0][0] = X;
    cols[3][0] = O;
    cols[6][5] = X;
    cols[0][5] = O;
    cols[3][3] = X;
    let (up, down) = board_of(cols, 0).diagonals();
    let lengths: Vec<usize> = up.iter().map(|d| d.len()).collect();
    assert_eq!(lengths, vec![4, 5, 6, 6, 5, 4]);
    let lengths: Vec<usize> = down.iter().map(|d| d.len()).collect();
    assert_eq!(lengths, vec![4, 5, 6, 6, 5, 4]);
    assert_eq!(up[2], vec![X, E, E, X, E, E]);
    assert_eq!(up[3], vec![E, E, E, E, E, X]);
    assert_eq!(up[5], vec![O, E, E, E]);
    assert_eq!(down[0], vec![E, E, E, O]);
    assert_eq!(down[2], vec![O, E, E, E, E, E]);
    assert_eq!(down[3], vec![E, E, X, E, E, E]);
}

#[test]
fn diagonals_through_a_cell_run_from_edge_to_edge() {
    let mut cols = [[E; 6]; 7];
    cols[4][2] = X;
    cols[6][4] = O;
    cols[2][4] = O;
    cols[6][0] = X;
    let (rising, falling) = board_of(cols, 0).get_diagonals_of_last_piece(4, 2);
    assert_eq!(rising, vec![E, E, X, E, O]);
    assert_eq!(falling, vec![E, O, E, X, E, X]);
    let (rising, falling) = board_of(cols, 0).get_diagonals_of_last_piece(6, 5);
    assert_eq!(rising, vec![E; 6]);
    assert_eq!(falling, vec![E]);
}

#[test]
fn moves_are_the_columns_with_an_empty_cell_in_ascending_order() {
    let mut board = Board::new();
    assert_eq!(board.get_moves(), vec![0, 1, 2, 3, 4, 5, 6]);
    drop_all(&mut board, &[(1, X), (1, O), (1, X), (1, O), (1, X), (1, O)]);
    drop_all(&mut board, &[(6, X), (6, O), (6, X), (6, O), (6, X), (6, O), (0, X)]);
    assert_eq!(board.get_moves(), vec![0, 2, 3, 4, 5]);
}

#[test]
fn find_four_names_the_first_run() {
    assert_eq!(find_four(&[X, X, X, X, O, O, O]), Some(X));
    assert_eq!(find_four(&[E, O, O, O, O, X]), Some(O));
    assert_eq!(find_four(&[O, O, O, O, X, X, X, X]), Some(O));
    assert_eq!(find_four(&[E, E, E, E, E]), None);
    assert_eq!(find_four(&[X, X, X]), None);
    assert_eq!(find_four(&[X, X, O, X, X]), None);
}

#[test]
fn find_three_wants_three_and_a_free_cell() {
    assert!(find_three(&[X, X, E, X], X));
    assert!(find_three(&[O, E, X, X, X], X));
    assert!(!find_three(&[O, X, X, X], X));
    assert!(!find_three(&[X, X, X, X], X));
    assert!(!find_three(&[X, X, E], X));
    assert!(!find_three(&[E, E, E, X], E));
}
