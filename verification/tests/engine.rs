use tetris_core::board::BlockType;
use tetris_core::game::TetrisGame;
use tetris_core::piece::Tetromino;

fn empty_board() -> Vec<Vec<BlockType>> {
    let mut b: Vec<Vec<BlockType>> = Vec::new();
    for _ in 0..20 {
        b.push(vec![BlockType::Empty; 10]);
    }
    b
}

fn o_piece(x: i32, y: i32) -> Tetromino {
    Tetromino { blocks: vec![vec![true, true], vec![true, true]], x, y }
}

fn game_with(board: Vec<Vec<BlockType>>, piece: Tetromino) -> TetrisGame {
    TetrisGame { board, current_piece: piece, game_over: false, score: 0 }
}

#[test]
fn test_update_moves_piece_down_one_row() {
    let mut g = game_with(empty_board(), o_piece(4, 0));
    g.update();
    assert_eq!(g.current_piece.y, 1);
    assert_eq!(g.current_piece.x, 4);
    assert_eq!(g.board, empty_board());
    assert_eq!(g.score, 0);
    assert!(!g.game_over);
}

#[test]
fn test_can_move_rejects_out_of_bounds() {
    let g = game_with(empty_board(), o_piece(0, 5));
    assert!(!g.can_move(-1, 0));
    assert!(g.can_move(1, 0));

    let g = game_with(empty_board(), o_piece(8, 5));
    assert!(!g.can_move(1, 0));
    assert!(g.can_move(-1, 0));

    let g = game_with(empty_board(), o_piece(4, 18));
    assert!(!g.can_move(0, 1));
    assert!(g.can_move(0, 0));
}

#[test]
fn test_can_move_rejects_collision() {
    let mut board = empty_board();
    board[10][4] = BlockType::Filled;
    let g = game_with(board, o_piece(4, 8));
    assert!(g.can_move(0, 0));
    assert!(!g.can_move(0, 1));
    assert!(g.can_move(1, 1));
}

#[test]
fn test_is_valid_position() {
    let mut board = empty_board();
    board[5][5] = BlockType::Filled;
    let g = game_with(board, o_piece(0, 0));
    let overlapping = o_piece(5, 4);
    let free = o_piece(7, 4);
    assert!(!g.is_valid_position(&overlapping));
    assert!(g.is_valid_position(&free));
}

#[test]
fn test_move_piece_and_walls() {
    let mut g = game_with(empty_board(), o_piece(4, 5));
    g.move_piece(-1);
    assert_eq!(g.current_piece.x, 3);
    g.move_piece(1);
    assert_eq!(g.current_piece.x, 4);
    for _ in 0..20 {
        g.move_piece(-1);
    }
    assert_eq!(g.current_piece.x, 0);
    for _ in 0..20 {
        g.move_piece(1);
    }
    assert_eq!(g.current_piece.x, 8);
    assert_eq!(g.board, empty_board());
}

#[test]
fn test_rotate_piece_in_open_space() {
    let t = Tetromino { blocks: vec![vec![false, true, false], vec![true, true, true]], x: 4, y: 5 };
    let mut g = game_with(empty_board(), t);
    g.rotate_piece();
    assert_eq!(g.current_piece.blocks, vec![vec![true, false], vec![true, true], vec![true, false]]);
    assert_eq!(g.current_piece.x, 4);
    assert_eq!(g.current_piece.y, 5);
}

#[test]
fn test_rotate_piece_rejected_near_floor() {
    let i = Tetromino {
        blocks: vec![vec![true, true, true, true], vec![false, false, false, false]],
        x: 3,
        y: 17,
    };
    let mut g = game_with(empty_board(), i);
    let before = (g.current_piece.blocks.clone(), g.current_piece.x, g.current_piece.y);
    g.rotate_piece();
    assert_eq!(g.current_piece.blocks, before.0);
    assert_eq!(g.current_piece.x, before.1);
    assert_eq!(g.current_piece.y, before.2);
}

#[test]
fn test_hard_drop_lands_on_floor() {
    let mut g = game_with(empty_board(), o_piece(4, 0));
    g.hard_drop();
    assert_eq!(g.board[18][4], BlockType::Filled);
    assert_eq!(g.board[18][5], BlockType::Filled);
    assert_eq!(g.board[19][4], BlockType::Filled);
    assert_eq!(g.board[19][5], BlockType::Filled);
    for r in 0..18 {
        assert_eq!(g.board[r], vec![BlockType::Empty; 10]);
    }
    assert_eq!(g.score, 0);
    assert!(!g.game_over);
    assert_eq!(g.current_piece.y, 0);
}

#[test]
fn test_hard_drop_t_piece_bottom_row_at_floor() {
    let t = Tetromino { blocks: vec![vec![false, true, false], vec![true, true, true]], x: 3, y: 0 };
    let mut g = game_with(empty_board(), t);
    g.hard_drop();
    assert_eq!(g.board[18], vec![
        BlockType::Empty,
        BlockType::Empty,
        BlockType::Empty,
        BlockType::Empty,
        BlockType::Filled,
        BlockType::Empty,
        BlockType::Empty,
        BlockType::Empty,
        BlockType::Empty,
        BlockType::Empty,
    ]);
    assert_eq!(g.board[19], vec![
        BlockType::Empty,
        BlockType::Empty,
        BlockType::Empty,
        BlockType::Filled,
        BlockType::Filled,
        BlockType::Filled,
        BlockType::Empty,
        BlockType::Empty,
        BlockType::Empty,
        BlockType::Empty,
    ]);
}

#[test]
fn test_tick_sequence_merges_o_in_bottom_rows() {
    let mut g = game_with(empty_board(), o_piece(4, 0));
    for step in 1..=18 {
        g.update();
        assert_eq!(g.current_piece.y, step);
        assert_eq!(g.board, empty_board());
    }
    g.update();
    assert_eq!(g.board[18][4], BlockType::Filled);
    assert_eq!(g.board[18][5], BlockType::Filled);
    assert_eq!(g.board[19][4], BlockType::Filled);
    assert_eq!(g.board[19][5], BlockType::Filled);
    for r in 0..18 {
        assert_eq!(g.board[r], vec![BlockType::Empty; 10]);
    }
    assert_eq!(g.current_piece.y, 0);
    assert!(g.current_piece.x >= 3 && g.current_piece.x <= 4);
    assert!(!g.game_over);
    assert_eq!(g.score, 0);
}

#[test]
fn test_terminal_condition_and_commands_are_noops() {
    let mut board = empty_board();
    for c in 1..10 {
        board[0][c] = BlockType::Filled;
        board[1][c] = BlockType::Filled;
    }
    let mut g = game_with(board, o_piece(4, 17));
    g.hard_drop();
    assert!(g.game_over, "spawning into filled rows must end the game");

    let board_before = g.board.clone();
    let blocks_before = g.current_piece.blocks.clone();
    let (x_before, y_before) = (g.current_piece.x, g.current_piece.y);
    let score_before = g.score;

    g.update();
    g.move_piece(-1);
    g.move_piece(1);
    g.rotate_piece();
    g.hard_drop();

    assert_eq!(g.board, board_before);
    assert_eq!(g.current_piece.blocks, blocks_before);
    assert_eq!(g.current_piece.x, x_before);
    assert_eq!(g.current_piece.y, y_before);
    assert_eq!(g.score, score_before);
    assert!(g.game_over);
}

#[test]
fn test_default_game_is_fresh() {
    let g = TetrisGame::default();
    assert_eq!(g.board, empty_board());
    assert_eq!(g.score, 0);
    assert!(!g.game_over);
    assert_eq!(g.current_piece.y, 0);
    assert!(g.current_piece.x >= 3 && g.current_piece.x <= 4);
}
