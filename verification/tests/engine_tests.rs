use connect_four::board::{Board, Piece};
use connect_four::engine::{Engine, GameState, SEARCH_DEPTH};

const E: Piece = Piece::Empty;
const X: Piece = Piece::X;
const O: Piece = Piece::O;

const WIDEST: isize = isize::MAX;

fn drop_all(board: &mut Board, moves: &[(usize, Piece)]) {
    for (col, piece) in moves {
        board.insert_piece(*col, *piece).unwrap();
    }
}

fn three_in_the_bottom_row() -> Board {
    let mut board = Board::new();
    drop_all(&mut board, &[(0, X), (1, X), (2, X)]);
    board
}

fn midgame() -> Board {
    let mut board = Board::new();
    drop_all(
        &mut board,
        &[(3, O), (3, X), (2, O), (4, X), (2, O), (2, X), (4, O), (5, X), (1, O), (3, X)],
    );
    board
}

/// Negamax over the full tree, written out with no pruning.
fn search_all(board: &mut Board, piece: Piece, depth: u32) -> (isize, usize) {
    if let Some(end) = board.is_terminal() {
        let magnitude = 100_000_000 + depth as isize;
        let score = if end == E {
            0
        } else if end == piece {
            magnitude
        } else {
            -magnitude
        };
        return (score, 0);
    }
    if depth == 0 {
        return (Engine::eval(board, piece), 0);
    }
    let last_move = board.last_move;
    let mut best = (-isize::MAX, 0);
    for col in Engine::order_moves(board, piece) {
        if board.insert_piece(col, piece).is_err() {
            continue;
        }
        let (reply, _) = search_all(board, piece.opponent(), depth - 1);
        board.undo_move(col);
        board.last_move = last_move;
        if -reply > best.0 {
            best = (-reply, col);
        }
    }
    best
}

#[test]
fn game_state_starts_at_zero() {
    let state = GameState::new();
    assert_eq!(state.eval, 0);
    assert_eq!(state.best_move, 0);
}

#[test]
fn empty_board_is_worth_one_for_each_window() {
    let board = Board::new();
    assert_eq!(Engine::eval(&board, O), 69);
    assert_eq!(Engine::eval(&board, X), -69);
}

#[test]
fn a_piece_raises_its_windows_to_ten_and_closes_them_to_the_other_side() {
    let mut board = Board::new();
    board.insert_piece(3, O).unwrap();
    assert_eq!(Engine::eval(&board, O), 62 + 7 * 10);
    assert_eq!(Engine::eval(&board, X), -62);
}

#[test]
fn windows_count_ten_to_the_number_of_pieces() {
    let mut board = Board::new();
    drop_all(&mut board, &[(0, X), (1, X), (2, X)]);
    // Bottom row: 1000, 100, 10, 1. Columns 0 to 2: 10 and two of 1 each. Rising
    // diagonals from the three pieces: 10 each. Falling diagonals: none of four
    // cells ends in columns 0 to 2 of the bottom row. All other windows: 1.
    let rows = 1000 + 100 + 10 + 1 + 5 * 4;
    let cols = 3 * (10 + 2) + 4 * 3;
    let rising = 3 * 10 + 9;
    let falling = 12;
    assert_eq!(Engine::eval(&board, X), -(rows + cols + rising + falling));
    // For the other side the ten windows through the three pieces are closed.
    assert_eq!(Engine::eval(&board, O), 69 - 3 - 3 - 3);
}

#[test]
fn a_win_overrides_the_count() {
    let mut board = three_in_the_bottom_row();
    board.insert_piece(3, X).unwrap();
    assert_eq!(Engine::eval(&board, X), -100_000_000);
    assert_eq!(Engine::eval(&board, O), -100_000_000);
    let mut board = Board::new();
    drop_all(&mut board, &[(6, O), (6, O), (6, O), (6, O)]);
    assert_eq!(Engine::eval(&board, X), 100_000_000);
    assert_eq!(Engine::eval(&board, O), 100_000_000);
}

#[test]
fn moves_on_an_empty_board_go_from_the_centre_outwards() {
    let mut board = Board::new();
    assert_eq!(Engine::order_moves(&mut board, X), vec![3, 2, 4, 1, 5, 0, 6]);
    assert_eq!(Engine::order_moves(&mut board, O), vec![3, 2, 4, 1, 5, 0, 6]);
    assert_eq!(board.cols, [[E; 6]; 7]);
}

#[test]
fn moves_that_make_an_open_three_go_first() {
    let mut board = three_in_the_bottom_row();
    let cols = board.cols;
    assert_eq!(Engine::order_moves(&mut board, X), vec![3, 4, 2, 1, 5, 0, 6]);
    assert_eq!(Engine::order_moves(&mut board, O), vec![3, 2, 4, 1, 5, 0, 6]);
    assert_eq!(board.cols, cols);
    assert_eq!(board.last_move, 2);

    let mut board = Board::new();
    drop_all(&mut board, &[(6, O), (6, O)]);
    assert_eq!(Engine::order_moves(&mut board, O), vec![6, 3, 2, 4, 1, 5, 0]);
}

#[test]
fn full_columns_are_not_in_the_order() {
    let mut board = Board::new();
    drop_all(&mut board, &[(3, X), (3, O), (3, X), (3, O), (3, X), (3, O)]);
    assert_eq!(Engine::order_moves(&mut board, X), vec![2, 4, 1, 5, 0, 6]);
}

#[test]
fn search_completes_the_row_of_four() {
    for depth in 1..=5u32 {
        let mut board = three_in_the_bottom_row();
        let cols = board.cols;
        let found = Engine.minimax(&mut board, X, -WIDEST, WIDEST, depth);
        assert_eq!(found.best_move, 3);
        assert_eq!(found.eval, 100_000_000 + depth as isize - 1);
        assert_eq!(board.cols, cols);
        assert_eq!(board.last_move, 2);
    }
}

#[test]
fn choose_move_completes_the_row_of_four() {
    let board = three_in_the_bottom_row();
    let found = Engine.choose_move(&board, X);
    assert_eq!(found.best_move, 3);
    assert_eq!(found.eval, 100_000_000 + SEARCH_DEPTH as isize - 1);
    assert_eq!(board.cols[3], [E; 6]);
}

#[test]
fn search_blocks_the_row_of_four() {
    let mut board = three_in_the_bottom_row();
    board.insert_piece(6, O).unwrap();
    board.insert_piece(6, X).unwrap();
    let found = Engine.minimax(&mut board, O, -WIDEST, WIDEST, 2);
    assert_eq!(found.best_move, 3);
    assert!(found.eval > -100_000_000);
}

#[test]
fn a_sooner_win_scores_higher() {
    let mut board = three_in_the_bottom_row();
    let now = Engine.minimax(&mut board, X, -WIDEST, WIDEST, 3);
    let mut board = Board::new();
    drop_all(&mut board, &[(2, X), (3, X), (6, O), (6, O)]);
    let later = Engine.minimax(&mut board, X, -WIDEST, WIDEST, 3);
    assert_eq!(now.eval, 100_000_002);
    assert_eq!(later.eval, 100_000_000);
    assert!(now.eval > later.eval);
}

#[test]
fn a_finished_game_scores_at_once() {
    let mut won = three_in_the_bottom_row();
    won.insert_piece(3, X).unwrap();
    let found = Engine.minimax(&mut won, O, -WIDEST, WIDEST, 4);
    assert_eq!((found.eval, found.best_move), (-100_000_004, 0));
    let found = Engine.minimax(&mut won, X, -WIDEST, WIDEST, 4);
    assert_eq!((found.eval, found.best_move), (100_000_004, 0));
    let found = Engine.minimax(&mut won, O, -WIDEST, WIDEST, 0);
    assert_eq!((found.eval, found.best_move), (-100_000_000, 0));

    let mut drawn = Board::new();
    for col in 0..7 {
        for row in 0..6 {
            let even = if col == 3 { O } else { X };
            let piece = if row % 2 == 0 { even } else { even.opponent() };
            drawn.insert_piece(col, piece).unwrap();
        }
    }
    let found = Engine.minimax(&mut drawn, X, -WIDEST, WIDEST, 4);
    assert_eq!((found.eval, found.best_move), (0, 0));
}

#[test]
fn depth_zero_gives_the_static_score() {
    let mut board = Board::new();
    board.insert_piece(3, O).unwrap();
    let found = Engine.minimax(&mut board, O, -WIDEST, WIDEST, 0);
    assert_eq!((found.eval, found.best_move), (132, 0));
    let found = Engine.minimax(&mut board, X, -WIDEST, WIDEST, 0);
    assert_eq!((found.eval, found.best_move), (-62, 0));
}

#[test]
fn depth_one_takes_the_first_of_the_best_replies() {
    // One move deep, the score of a move is the negated static score of the reply
    // position for the other side. The static score counts upwards for O and
    // downwards for X whoever is to move, so the two sides are not served alike.
    // With X to move the reply is scored for O: the worth of the field to O,
    // negated. It is best where X closes most windows to O, in the centre.
    let mut board = Board::new();
    let found = Engine.minimax(&mut board, X, -WIDEST, WIDEST, 1);
    assert_eq!((found.eval, found.best_move), (-62, 3));
    // With O to move the reply is scored for X: the worth of the field to X,
    // negated twice. It is best where O closes fewest windows to X, in a corner.
    let found = Engine.minimax(&mut board, O, -WIDEST, WIDEST, 1);
    assert_eq!((found.eval, found.best_move), (66, 0));
}

#[test]
fn pruning_changes_no_result() {
    let positions = [Board::new(), three_in_the_bottom_row(), midgame()];
    for position in positions {
        for piece in [X, O] {
            for depth in 0..=4u32 {
                let mut board = position.clone();
                let pruned = Engine.minimax(&mut board, piece, -WIDEST, WIDEST, depth);
                assert_eq!(board.cols, position.cols);
                let full = search_all(&mut board, piece, depth);
                assert_eq!((pruned.eval, pruned.best_move), full);
            }
        }
    }
}

#[test]
fn choose_move_is_the_full_search_at_the_engines_depth() {
    let position = midgame();
    let mut board = position.clone();
    let full = search_all(&mut board, O, 5);
    let mut board = position.clone();
    let pruned = Engine.minimax(&mut board, O, -WIDEST, WIDEST, 5);
    assert_eq!((pruned.eval, pruned.best_move), full);
    let chosen = Engine.choose_move(&position, O);
    let mut board = position.clone();
    let direct = Engine.minimax(&mut board, O, -WIDEST, WIDEST, SEARCH_DEPTH);
    assert_eq!((chosen.eval, chosen.best_move), (direct.eval, direct.best_move));
}

#[test]
fn a_narrow_window_cuts_the_search_short() {
    // With the window closed at 0, the first move that reaches 0 ends the search.
    let mut board = three_in_the_bottom_row();
    let found = Engine.minimax(&mut board, X, -10, 0, 2);
    assert_eq!(found.best_move, 3);
    assert_eq!(found.eval, 100_000_001);
    assert_eq!(board.cols, three_in_the_bottom_row().cols);
}

#[test]
fn a_column_without_room_is_passed_over() {
    // Column 3 has a gap under a taken top cell: it is among the moves, but no
    // piece can be dropped into it.
    let mut board = Board::new();
    board.cols[3] = [E, E, E, E, E, O];
    board.last_move = 0;
    let cols = board.cols;
    assert_eq!(Engine::order_moves(&mut board, X)[0], 3);
    let found = Engine.minimax(&mut board, X, -WIDEST, WIDEST, 2);
    assert_ne!(found.best_move, 3);
    assert_eq!(board.cols, cols);
    let mut copy = board.clone();
    assert_eq!((found.eval, found.best_move), search_all(&mut copy, X, 2));
}

#[test]
fn make_move_plays_the_chosen_column_and_keeps_the_score() {
    let mut board = three_in_the_bottom_row();
    Engine.make_move(&mut board, X);
    assert_eq!(board.cols[3], [X, E, E, E, E, E]);
    assert_eq!(board.last_move, 3);
    assert_eq!(board.eval, 100_000_000 + SEARCH_DEPTH as isize - 1);
    assert_eq!(board.is_terminal(), Some(X));
}
