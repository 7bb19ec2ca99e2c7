//! The game engine: board plus falling piece, gravity ticks, player
//! commands, scoring and the terminal flag.

use vstd::prelude::*;

use crate::board::{
    any_full_below, board_empty, board_wf, can_place, cell_ok, cleared_board, copy_row,
    covers_cell, is_row_full, kept_rows, kept_tail, lemma_can_place_in_bounds,
    lemma_cleared_board_wf, lemma_kept_tail_shape, lemma_merged_board_wf, lemma_place_bounds,
    lines_cleared, make_empty_row, mask_in_bounds, merged_board, placement_ok, rest_y, row_empty,
    row_full, scored, BlockType,
};
use crate::grid_view;
use crate::piece::{
    fresh_spawn, lemma_rotate_keeps_occupied, lemma_rotate_mask_props, mask_rect, mask_wf,
    rotate_mask, rotated_blocks, Tetromino,
};

verus! {

/// The engine state: settled blocks, the falling piece, the terminal
/// flag and the score. Gravity timing lives with the caller, which
/// invokes `update` once per elapsed tick interval.
pub struct TetrisGame {
    pub board: Vec<Vec<BlockType>>,
    pub current_piece: Tetromino,
    pub game_over: bool,
    pub score: u32,
}

/// The state change of locking a piece in with its anchor at row
/// `py`: the mask is merged into the board, full rows are cleared and
/// scored, a fresh piece is spawned, and the game ends exactly if the
/// spawned piece's position is already invalid.
pub open spec fn lock_step(pre: TetrisGame, py: int, post: TetrisGame) -> bool {
    let merged = merged_board(
        pre.board_view(),
        pre.piece_mask(),
        pre.current_piece.x as int,
        py,
    );
    let after = cleared_board(merged);
    &&& post.board_view() == after
    &&& post.score as int == scored(pre.score as int, lines_cleared(merged))
    &&& fresh_spawn(post.current_piece)
    &&& post.game_over == !can_place(
        after,
        grid_view(post.current_piece.blocks@),
        post.current_piece.x as int,
        0,
    )
}

impl TetrisGame {
    /// The board as a grid of cells.
    pub open spec fn board_view(self) -> Seq<Seq<BlockType>> {
        grid_view(self.board@)
    }

    /// The falling piece's occupancy mask.
    pub open spec fn piece_mask(self) -> Seq<Seq<bool>> {
        grid_view(self.current_piece.blocks@)
    }

    /// Board and mask have their required shapes.
    pub open spec fn grids_wf(self) -> bool {
        board_wf(self.board_view()) && mask_wf(self.piece_mask())
    }

    /// The falling piece sits at a position that passes the placement
    /// test.
    pub open spec fn piece_placed_ok(self) -> bool {
        can_place(
            self.board_view(),
            self.piece_mask(),
            self.current_piece.x as int,
            self.current_piece.y as int,
        )
    }

    /// Engine invariant: well-shaped grids and, until the game ends,
    /// a validly placed piece.
    pub open spec fn wf(self) -> bool {
        self.grids_wf() && (!self.game_over ==> self.piece_placed_ok())
    }

    /// Placement test for the falling piece translated by `(dx, dy)`.
    pub fn can_move(&self, dx: i32, dy: i32) -> (r: bool)
        requires
            self.grids_wf(),
        ensures
            r == can_place(
                self.board_view(),
                self.piece_mask(),
                self.current_piece.x + dx,
                self.current_piece.y + dy,
            ),
    {
        placement_ok(
            &self.board,
            &self.current_piece.blocks,
            self.current_piece.x as i64 + dx as i64,
            self.current_piece.y as i64 + dy as i64,
        )
    }

    /// Placement test for an arbitrary piece at its own anchor.
    pub fn is_valid_position(&self, piece: &Tetromino) -> (r: bool)
        requires
            board_wf(self.board_view()),
            mask_rect(grid_view(piece.blocks@)),
        ensures
            r == can_place(
                self.board_view(),
                grid_view(piece.blocks@),
                piece.x as int,
                piece.y as int,
            ),
    {
        placement_ok(&self.board, &piece.blocks, piece.x as i64, piece.y as i64)
    }

    /// Merge the falling piece into the board: every board cell under
    /// an occupied mask cell becomes `Filled`, cells of the piece
    /// still above the board are dropped, and piece, score and flag
    /// are untouched.
    pub fn merge_piece(&mut self)
        requires
            board_wf(old(self).board_view()),
            mask_rect(old(self).piece_mask()),
            mask_in_bounds(
                old(self).piece_mask(),
                old(self).current_piece.x as int,
                old(self).current_piece.y as int,
            ),
        ensures
            final(self).board_view() == merged_board(
                old(self).board_view(),
                old(self).piece_mask(),
                old(self).current_piece.x as int,
                old(self).current_piece.y as int,
            ),
            board_wf(final(self).board_view()),
            final(self).current_piece == old(self).current_piece,
            final(self).score == old(self).score,
            final(self).game_over == old(self).game_over,
    {
        let ghost bd0 = self.board_view();
        let ghost m0 = self.piece_mask();
        let ghost px = self.current_piece.x as int;
        let ghost py = self.current_piece.y as int;
        proof {
            lemma_merged_board_wf(bd0, m0, px, py);
        }
        let mut nb: Vec<Vec<BlockType>> = Vec::new();
        let mut r: usize = 0;
        while r < 20
            invariant
                board_wf(bd0),
                mask_rect(m0),
                bd0 == grid_view(self.board@),
                m0 == grid_view(self.current_piece.blocks@),
                px == self.current_piece.x as int,
                py == self.current_piece.y as int,
                r <= 20,
                nb@.len() == r,
                forall|a: int|
                    0 <= a < r ==> (#[trigger] nb@[a])@ == merged_board(bd0, m0, px, py)[a],
            decreases 20 - r,
        {
            let mut row: Vec<BlockType> = Vec::new();
            let mut c: usize = 0;
            while c < 10
                invariant
                    board_wf(bd0),
                    mask_rect(m0),
                    bd0 == grid_view(self.board@),
                    m0 == grid_view(self.current_piece.blocks@),
                    px == self.current_piece.x as int,
                    py == self.current_piece.y as int,
                    r < 20,
                    c <= 10,
                    row@.len() == c,
                    forall|b2: int|
                        0 <= b2 < c ==> #[trigger] row@[b2] == merged_board(bd0, m0, px, py)[r as int][b2],
                decreases 10 - c,
            {
                let hit: bool = covers_cell(
                    &self.current_piece.blocks,
                    self.current_piece.x,
                    self.current_piece.y,
                    r,
                    c,
                );
                proof {
                    assert(bd0[r as int] == self.board@[r as int]@);
                    assert(bd0[r as int].len() == 10);
                }
                let v: BlockType = if hit {
                    BlockType::Filled
                } else {
                    self.board[r][c]
                };
                row.push(v);
                c += 1;
            }
            proof {
                assert(row@ =~= merged_board(bd0, m0, px, py)[r as int]);
            }
            nb.push(row);
            r += 1;
        }
        proof {
            assert(grid_view(nb@) =~~= merged_board(bd0, m0, px, py));
        }
        self.board = nb;
    }

    /// Clear full rows as the bottom-up scan does: a full row is
    /// removed and a fresh empty row inserted on top, and the row
    /// sitting at index 0 when the scan ends is never examined. So
    /// every not-full row among rows 1 to 19 survives, and row 0
    /// survives too unless it is full and a removal below shifted it
    /// down into the scan's path. 100 points per removed row are
    /// credited, saturating at the largest `u32` value.
    pub fn clear_lines(&mut self)
        requires
            board_wf(old(self).board_view()),
        ensures
            final(self).board_view() == cleared_board(old(self).board_view()),
            board_wf(final(self).board_view()),
            final(self).score as int == scored(
                old(self).score as int,
                lines_cleared(old(self).board_view()),
            ),
            final(self).current_piece == old(self).current_piece,
            final(self).game_over == old(self).game_over,
    {
        let ghost bd0 = self.board_view();
        let mut tail: Vec<Vec<BlockType>> = Vec::new();
        let mut y: usize = 1;
        while y < 20
            invariant
                board_wf(bd0),
                bd0 == grid_view(self.board@),
                1 <= y <= 20,
                grid_view(tail@) == kept_tail(bd0, y as int),
            decreases 20 - y,
        {
            proof {
                assert(bd0[y as int] == self.board@[y as int]@);
            }
            if !is_row_full(&self.board[y]) {
                tail.push(copy_row(&self.board[y]));
                proof {
                    assert(grid_view(tail@) =~~= kept_tail(bd0, y as int + 1));
                }
            } else {
                proof {
                    assert(grid_view(tail@) =~~= kept_tail(bd0, y as int + 1));
                }
            }
            y += 1;
        }
        proof {
            lemma_kept_tail_shape(bd0, 20);
            lemma_cleared_board_wf(bd0);
            assert(tail@.len() == kept_tail(bd0, 20).len());
            assert(bd0[0] == self.board@[0]@);
            assert(bd0[0].len() == 10);
        }
        let row0_full: bool = is_row_full(&self.board[0]);
        let keep_top: bool = !row0_full || tail.len() == 19;
        proof {
            assert(keep_top == !(row_full(bd0[0]) && any_full_below(bd0)));
            if keep_top {
                assert(kept_rows(bd0) == seq![bd0[0]] + kept_tail(bd0, 20));
            } else {
                assert(kept_rows(bd0) == kept_tail(bd0, 20));
            }
        }
        let kept_len: usize = if keep_top {
            tail.len() + 1
        } else {
            tail.len()
        };
        let cleared: usize = 20 - kept_len;
        proof {
            assert(kept_rows(bd0).len() == kept_len);
            assert(lines_cleared(bd0) == cleared);
        }
        let mut nb: Vec<Vec<BlockType>> = Vec::new();
        let mut k: usize = 0;
        while k < cleared
            invariant
                board_wf(bd0),
                bd0 == grid_view(self.board@),
                grid_view(tail@) == kept_tail(bd0, 20),
                tail@.len() <= 19,
                keep_top ==> kept_len == tail@.len() + 1,
                !keep_top ==> kept_len == tail@.len(),
                keep_top == !(row_full(bd0[0]) && any_full_below(bd0)),
                cleared == 20 - kept_len,
                kept_len <= 20,
                k <= cleared,
                nb@.len() == k,
                forall|a: int| 0 <= a < k ==> (#[trigger] nb@[a])@ == crate::board::empty_row_spec(),
            decreases cleared - k,
        {
            nb.push(make_empty_row());
            k += 1;
        }
        if keep_top {
            nb.push(copy_row(&self.board[0]));
        }
        let ghost start = 20 - tail@.len();
        let mut t: usize = 0;
        while t < tail.len()
            invariant
                board_wf(bd0),
                bd0 == grid_view(self.board@),
                grid_view(tail@) == kept_tail(bd0, 20),
                tail@.len() <= 19,
                keep_top ==> kept_len == tail@.len() + 1,
                !keep_top ==> kept_len == tail@.len(),
                keep_top == !(row_full(bd0[0]) && any_full_below(bd0)),
                cleared == 20 - kept_len,
                kept_len <= 20,
                start == 20 - tail@.len(),
                t <= tail@.len(),
                nb@.len() == start + t,
                forall|a: int|
                    0 <= a < cleared ==> (#[trigger] nb@[a])@ == crate::board::empty_row_spec(),
                keep_top ==> (nb@[cleared as int])@ == bd0[0],
                forall|a: int| start <= a < start + t ==> (#[trigger] nb@[a])@ == tail@[a - start]@,
            decreases tail@.len() - t,
        {
            nb.push(copy_row(&tail[t]));
            t += 1;
        }
        proof {
            assert forall|a: int| 0 <= a < 20 implies grid_view(nb@)[a] == cleared_board(bd0)[a] by {
                if a < cleared {
                    assert(nb@[a]@ == crate::board::empty_row_spec());
                } else if keep_top && a == cleared {
                    assert(nb@[a]@ == bd0[0]);
                    assert(cleared_board(bd0)[a] == kept_rows(bd0)[0]);
                } else {
                    assert(nb@[a]@ == tail@[a - start]@);
                    assert(grid_view(tail@)[a - start] == tail@[a - start]@);
                    if keep_top {
                        assert(cleared_board(bd0)[a] == kept_rows(bd0)[a - cleared]);
                        assert(kept_rows(bd0)[a - cleared] == kept_tail(bd0, 20)[a - cleared - 1]);
                    } else {
                        assert(cleared_board(bd0)[a] == kept_tail(bd0, 20)[a - cleared]);
                    }
                }
            }
            assert(grid_view(nb@) =~= cleared_board(bd0));
        }
        self.board = nb;
        let total: u64 = self.score as u64 + (cleared as u64) * 100;
        self.score = if total > 0xffff_ffffu64 {
            0xffff_ffffu32
        } else {
            total as u32
        };
    }

    /// Move the piece one column sideways if the shifted position
    /// passes the placement test; otherwise do nothing. Once the game
    /// has ended the command is ignored.
    pub fn move_piece(&mut self, dx: i32)
        requires
            old(self).wf(),
        ensures
            final(self).wf(),
            old(self).game_over ==> *final(self) == *old(self),
            !old(self).game_over ==> final(self).board == old(self).board
                && final(self).score == old(self).score && final(self).game_over == old(
                self,
            ).game_over && final(self).current_piece.blocks == old(self).current_piece.blocks
                && final(self).current_piece.y == old(self).current_piece.y,
            !old(self).game_over && can_place(
                old(self).board_view(),
                old(self).piece_mask(),
                old(self).current_piece.x + dx,
                old(self).current_piece.y as int,
            ) ==> final(self).current_piece.x == old(self).current_piece.x + dx,
            !old(self).game_over && !can_place(
                old(self).board_view(),
                old(self).piece_mask(),
                old(self).current_piece.x + dx,
                old(self).current_piece.y as int,
            ) ==> *final(self) == *old(self),
    {
        if self.game_over {
            return ;
        }
        if self.can_move(dx, 0) {
            proof {
                lemma_place_bounds(
                    self.board_view(),
                    self.piece_mask(),
                    self.current_piece.x + dx,
                    self.current_piece.y as int,
                );
            }
            self.current_piece.x = self.current_piece.x + dx;
        }
    }

    /// Rotate the piece clockwise, trying the column offsets 0, -1,
    /// +1 in that order with the row kept; the first anchor that
    /// passes the placement test is taken, and if none does the piece
    /// is unchanged. Once the game has ended the command is ignored.
    pub fn rotate_piece(&mut self)
        requires
            old(self).wf(),
        ensures
            final(self).wf(),
            old(self).game_over ==> *final(self) == *old(self),
            !old(self).game_over ==> ({
                let bd = old(self).board_view();
                let rm = rotate_mask(old(self).piece_mask());
                let x = old(self).current_piece.x as int;
                let y = old(self).current_piece.y as int;
                let ok0 = can_place(bd, rm, x, y);
                let okl = can_place(bd, rm, x - 1, y);
                let okr = can_place(bd, rm, x + 1, y);
                let np = final(self).current_piece;
                &&& final(self).board == old(self).board
                &&& final(self).score == old(self).score
                &&& final(self).game_over == old(self).game_over
                &&& np.y == old(self).current_piece.y
                &&& ok0 ==> grid_view(np.blocks@) == rm && np.x == x
                &&& !ok0 && okl ==> grid_view(np.blocks@) == rm && np.x == x - 1
                &&& !ok0 && !okl && okr ==> grid_view(np.blocks@) == rm && np.x == x + 1
                &&& !ok0 && !okl && !okr ==> *final(self) == *old(self)
            }),
    {
        if self.game_over {
            return ;
        }
        proof {
            lemma_place_bounds(
                self.board_view(),
                self.piece_mask(),
                self.current_piece.x as int,
                self.current_piece.y as int,
            );
            lemma_rotate_mask_props(self.piece_mask());
            lemma_rotate_keeps_occupied(self.piece_mask());
        }
        let rot: Vec<Vec<bool>> = rotated_blocks(&self.current_piece.blocks);
        let x0: i32 = self.current_piece.x;
        let y0: i32 = self.current_piece.y;
        if placement_ok(&self.board, &rot, x0 as i64, y0 as i64) {
            self.current_piece = Tetromino { blocks: rot, x: x0, y: y0 };
        } else if placement_ok(&self.board, &rot, x0 as i64 - 1, y0 as i64) {
            self.current_piece = Tetromino { blocks: rot, x: x0 - 1, y: y0 };
        } else if placement_ok(&self.board, &rot, x0 as i64 + 1, y0 as i64) {
            self.current_piece = Tetromino { blocks: rot, x: x0 + 1, y: y0 };
        }
    }

    /// One gravity step. Once the game has ended the command is
    /// ignored. While the piece can fall it falls one row; otherwise
    /// it is locked in: merged into the board, full rows cleared and
    /// scored, a fresh piece spawned, and the game ends exactly if
    /// the spawn position is already invalid.
    pub fn update(&mut self)
        requires
            old(self).wf(),
        ensures
            final(self).wf(),
            old(self).game_over ==> *final(self) == *old(self),
            !old(self).game_over && can_place(
                old(self).board_view(),
                old(self).piece_mask(),
                old(self).current_piece.x as int,
                old(self).current_piece.y + 1,
            ) ==> final(self).board == old(self).board && final(self).score == old(self).score
                && final(self).game_over == false && final(self).current_piece.blocks == old(
                self,
            ).current_piece.blocks && final(self).current_piece.x == old(self).current_piece.x
                && final(self).current_piece.y == old(self).current_piece.y + 1,
            !old(self).game_over && !can_place(
                old(self).board_view(),
                old(self).piece_mask(),
                old(self).current_piece.x as int,
                old(self).current_piece.y + 1,
            ) ==> lock_step(*old(self), old(self).current_piece.y as int, *final(self)),
    {
        if self.game_over {
            return ;
        }
        if !self.can_move(0, 1) {
            proof {
                lemma_can_place_in_bounds(
                    self.board_view(),
                    self.piece_mask(),
                    self.current_piece.x as int,
                    self.current_piece.y as int,
                );
            }
            self.merge_piece();
            self.clear_lines();
            self.current_piece = Tetromino::new();
            if !self.can_move(0, 0) {
                self.game_over = true;
            }
            return ;
        }
        proof {
            lemma_place_bounds(
                self.board_view(),
                self.piece_mask(),
                self.current_piece.x as int,
                self.current_piece.y + 1,
            );
        }
        self.current_piece.y = self.current_piece.y + 1;
    }

    /// Drop the piece straight down to its resting row and lock it in
    /// at once. Once the game has ended the command is ignored.
    pub fn hard_drop(&mut self)
        requires
            old(self).wf(),
        ensures
            final(self).wf(),
            old(self).game_over ==> *final(self) == *old(self),
            !old(self).game_over ==> lock_step(
                *old(self),
                rest_y(
                    old(self).board_view(),
                    old(self).piece_mask(),
                    old(self).current_piece.x as int,
                    old(self).current_piece.y as int,
                ),
                *final(self),
            ),
    {
        if self.game_over {
            return ;
        }
        let ghost bd0 = self.board_view();
        let ghost m0 = self.piece_mask();
        let ghost px = self.current_piece.x as int;
        let ghost y0 = self.current_piece.y as int;
        while self.can_move(0, 1)
            invariant
                self.grids_wf(),
                !self.game_over,
                self.board == old(self).board,
                self.score == old(self).score,
                self.current_piece.blocks == old(self).current_piece.blocks,
                self.current_piece.x == old(self).current_piece.x,
                bd0 == self.board_view(),
                m0 == self.piece_mask(),
                px == self.current_piece.x as int,
                can_place(bd0, m0, px, self.current_piece.y as int),
                rest_y(bd0, m0, px, self.current_piece.y as int) == rest_y(bd0, m0, px, y0),
            decreases 20 - self.current_piece.y,
        {
            proof {
                lemma_place_bounds(bd0, m0, px, self.current_piece.y as int);
                lemma_place_bounds(bd0, m0, px, self.current_piece.y + 1);
            }
            self.current_piece.y = self.current_piece.y + 1;
        }
        proof {
            lemma_place_bounds(bd0, m0, px, self.current_piece.y as int);
            assert(rest_y(bd0, m0, px, self.current_piece.y as int) == self.current_piece.y as int);
        }
        let ghost y_lock = self.current_piece.y as int;
        self.update();
        proof {
            assert(lock_step(*old(self), rest_y(bd0, m0, px, y0), *self));
        }
    }
}

impl Default for TetrisGame {
    /// A fresh game: an all-empty board, a randomly chosen freshly
    /// spawned piece, no score, game running.
    fn default() -> (g: TetrisGame)
        ensures
            g.wf(),
            board_empty(g.board_view()),
            g.score == 0,
            !g.game_over,
            fresh_spawn(g.current_piece),
    {
        let mut board: Vec<Vec<BlockType>> = Vec::new();
        let mut r: usize = 0;
        while r < 20
            invariant
                r <= 20,
                board@.len() == r,
                forall|a: int|
                    0 <= a < r ==> (#[trigger] board@[a])@ == crate::board::empty_row_spec(),
            decreases 20 - r,
        {
            board.push(make_empty_row());
            r += 1;
        }
        let piece = Tetromino::new();
        let g = TetrisGame { board, current_piece: piece, game_over: false, score: 0 };
        proof {
            assert(board_wf(g.board_view()));
            assert(board_empty(g.board_view()));
            let bd = g.board_view();
            let m = g.piece_mask();
            assert forall|i: int, j: int|
                0 <= i < m.len() && 0 <= j < m[0].len() && #[trigger] m[i][j] implies cell_ok(
                bd,
                g.current_piece.x + j,
                g.current_piece.y + i,
            ) by {
                assert(row_empty(bd[g.current_piece.y + i]));
            }
        }
        g
    }
}

/// The application shell around one game instance. Rendering, input
/// polling and the gravity timer live outside the library and drive
/// `game` through its commands.
pub struct TetrisApp {
    pub game: TetrisGame,
}

impl Default for TetrisApp {
    /// A shell holding a fresh game.
    fn default() -> (a: TetrisApp)
        ensures
            a.game.wf(),
            board_empty(a.game.board_view()),
            a.game.score == 0,
            !a.game.game_over,
            fresh_spawn(a.game.current_piece),
    {
        TetrisApp { game: TetrisGame::default() }
    }
}

} // verus!
