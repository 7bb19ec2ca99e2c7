use tetris_core::board::BlockType;
use tetris_core::game::TetrisGame;
use tetris_core::piece::Tetromino;

fn empty_board() -> Vec<Vec<BlockType>> {
    let mut b: Vec<Vec<BlockType>> = Vec::new();
    for _ in 0..20 {
        b.push(vec![BlockType::Empty; 10]);
    }
    b
}

fn o_piece(x: i32, y: i32) -> Tetromino {
    Tetromino { blocks: vec![vec![true, true], vec![true, true]], x, y }
}

fn game_with_score(board: Vec<Vec<BlockType>>, score: u32) -> TetrisGame {
    TetrisGame { board, current_piece: o_piece(4, 0), game_over: false, score }
}

#[test]
fn test_clear_lines_without_full_rows_changes_nothing() {
    let mut board = empty_board();
    board[19][0] = BlockType::Filled;
    board[19][3] = BlockType::Filled;
    board[12][7] = BlockType::Filled;
    let mut g = game_with_score(board.clone(), 300);
    g.clear_lines();
    assert_eq!(g.board, board);
    assert_eq!(g.score, 300);
}

#[test]
fn test_clear_full_bottom_row() {
    let mut board = empty_board();
    for c in 0..10 {
        board[19][c] = BlockType::Filled;
    }
    let mut g = game_with_score(board, 0);
    g.clear_lines();
    assert_eq!(g.board, empty_board());
    assert_eq!(g.score, 100);
}

#[test]
fn test_clear_two_full_rows() {
    let mut board = empty_board();
    for c in 0..10 {
        board[18][c] = BlockType::Filled;
        board[19][c] = BlockType::Filled;
    }
    let mut g = game_with_score(board, 50);
    g.clear_lines();
    assert_eq!(g.board, empty_board());
    assert_eq!(g.score, 250);
}

#[test]
fn test_clear_shifts_partial_row_down() {
    let mut board = empty_board();
    for c in 0..10 {
        board[17][c] = BlockType::Filled;
        board[19][c] = BlockType::Filled;
    }
    board[18][2] = BlockType::Filled;
    let mut g = game_with_score(board, 0);
    g.clear_lines();
    let mut want = empty_board();
    want[19][2] = BlockType::Filled;
    assert_eq!(g.board, want);
    assert_eq!(g.score, 200);
}

#[test]
fn test_full_top_row_alone_survives() {
    let mut board = empty_board();
    for c in 0..10 {
        board[0][c] = BlockType::Filled;
    }
    let mut g = game_with_score(board.clone(), 0);
    g.clear_lines();
    assert_eq!(g.board, board, "with nothing cleared below it, row 0 is never examined");
    assert_eq!(g.score, 0);
}

#[test]
fn test_full_top_row_cleared_when_shifted_down() {
    let mut board = empty_board();
    for c in 0..10 {
        board[0][c] = BlockType::Filled;
        board[19][c] = BlockType::Filled;
    }
    let mut g = game_with_score(board, 0);
    g.clear_lines();
    assert_eq!(g.board, empty_board(), "the removal below shifts row 0 into the scan's path");
    assert_eq!(g.score, 200);
}

#[test]
fn test_full_adjacent_top_rows_both_cleared() {
    let mut board = empty_board();
    for c in 0..10 {
        board[0][c] = BlockType::Filled;
        board[1][c] = BlockType::Filled;
    }
    let mut g = game_with_score(board, 0);
    g.clear_lines();
    assert_eq!(g.board, empty_board());
    assert_eq!(g.score, 200);
}

#[test]
fn test_all_rows_full_clears_everything() {
    let mut board = empty_board();
    for r in 0..20 {
        for c in 0..10 {
            board[r][c] = BlockType::Filled;
        }
    }
    let mut g = game_with_score(board, 0);
    g.clear_lines();
    assert_eq!(g.board, empty_board());
    assert_eq!(g.score, 2000);
}

#[test]
fn test_score_saturates_at_u32_max() {
    let mut board = empty_board();
    for c in 0..10 {
        board[19][c] = BlockType::Filled;
    }
    let mut g = game_with_score(board, u32::MAX - 50);
    g.clear_lines();
    assert_eq!(g.score, u32::MAX);
}

#[test]
fn test_merge_piece_fills_covered_cells() {
    let mut g = TetrisGame {
        board: empty_board(),
        current_piece: o_piece(2, 10),
        game_over: false,
        score: 0,
    };
    g.merge_piece();
    let mut want = empty_board();
    want[10][2] = BlockType::Filled;
    want[10][3] = BlockType::Filled;
    want[11][2] = BlockType::Filled;
    want[11][3] = BlockType::Filled;
    assert_eq!(g.board, want);
    assert_eq!(g.score, 0);
    assert!(!g.game_over);
}

#[test]
fn test_merge_piece_drops_cells_above_the_board() {
    let mut g = TetrisGame {
        board: empty_board(),
        current_piece: o_piece(4, -1),
        game_over: false,
        score: 0,
    };
    g.merge_piece();
    let mut want = empty_board();
    want[0][4] = BlockType::Filled;
    want[0][5] = BlockType::Filled;
    assert_eq!(g.board, want);
}
