//! Board cells and the specifications that describe collision tests,
//! merged boards, line clearing and scoring.

use vstd::prelude::*;

use crate::grid_view;
use crate::piece::{bottom_row, lemma_bottom_row_props, mask_rect, mask_wf, row_occupied};

verus! {

/// State of one board cell. A merged block keeps no record of the
/// shape it came from.
#[derive(Clone, Copy, PartialEq, Eq, Structural, Debug)]
pub enum BlockType {
    Empty,
    Filled,
}

/// A well-formed board: 20 rows of 10 cells each, row 0 at the top.
pub open spec fn board_wf(b: Seq<Seq<BlockType>>) -> bool {
    &&& b.len() == 20
    &&& forall|r: int| 0 <= r < 20 ==> (#[trigger] b[r]).len() == 10
}

/// Every cell of the row is `Filled`.
pub open spec fn row_full(row: Seq<BlockType>) -> bool {
    forall|c: int| 0 <= c < row.len() ==> #[trigger] row[c] == BlockType::Filled
}

/// Every cell of the row is `Empty`.
pub open spec fn row_empty(row: Seq<BlockType>) -> bool {
    forall|c: int| 0 <= c < row.len() ==> #[trigger] row[c] == BlockType::Empty
}

/// Every cell of the board is `Empty`.
pub open spec fn board_empty(b: Seq<Seq<BlockType>>) -> bool {
    forall|r: int| 0 <= r < b.len() ==> row_empty(#[trigger] b[r])
}

/// A single all-`Empty` row of board width.
pub open spec fn empty_row_spec() -> Seq<BlockType> {
    Seq::new(10, |c: int| BlockType::Empty)
}

/// Board coordinates inside the side walls and above the floor. Cells
/// above the top of the board (`by < 0`) count as in bounds.
pub open spec fn cell_in_bounds(bx: int, by: int) -> bool {
    0 <= bx < 10 && by < 20
}

/// An occupied piece cell at board coordinates `(bx, by)` passes the
/// placement test: in bounds and, once it is on the visible board
/// (`by >= 0`), not on a filled cell. Cells still above the board are
/// exempt from the collision test.
pub open spec fn cell_ok(b: Seq<Seq<BlockType>>, bx: int, by: int) -> bool {
    &&& cell_in_bounds(bx, by)
    &&& by >= 0 ==> b[by][bx] != BlockType::Filled
}

/// The whole mask, anchored at `(px, py)`, passes the placement test.
pub open spec fn can_place(b: Seq<Seq<BlockType>>, m: Seq<Seq<bool>>, px: int, py: int) -> bool {
    forall|i: int, j: int|
        0 <= i < m.len() && 0 <= j < m[0].len() && #[trigger] m[i][j] ==> cell_ok(b, px + j, py + i)
}

/// Every occupied cell of the mask, anchored at `(px, py)`, is in
/// bounds (collisions are not considered).
pub open spec fn mask_in_bounds(m: Seq<Seq<bool>>, px: int, py: int) -> bool {
    forall|i: int, j: int|
        0 <= i < m.len() && 0 <= j < m[0].len() && #[trigger] m[i][j] ==> cell_in_bounds(
            px + j,
            py + i,
        )
}

/// Board cell `(r, c)` is covered by an occupied cell of the mask
/// anchored at `(px, py)`.
pub open spec fn covered(m: Seq<Seq<bool>>, px: int, py: int, r: int, c: int) -> bool {
    exists|i: int, j: int|
        0 <= i < m.len() && 0 <= j < m[0].len() && #[trigger] m[i][j] && py + i == r && px + j == c
}

/// The board after the mask, anchored at `(px, py)`, is merged into
/// it: covered cells become `Filled`, the rest keep their state.
/// Occupied cells above the board cover no board cell and are
/// dropped.
pub open spec fn merged_board(
    b: Seq<Seq<BlockType>>,
    m: Seq<Seq<bool>>,
    px: int,
    py: int,
) -> Seq<Seq<BlockType>> {
    Seq::new(
        b.len(),
        |r: int|
            Seq::new(
                b[r].len(),
                |c: int|
                    if covered(m, px, py, r, c) {
                        BlockType::Filled
                    } else {
                        b[r][c]
                    },
            ),
    )
}

/// The rows among rows 1 to `n - 1` that a line-clearing pass keeps:
/// exactly the rows that are not full, in order.
pub open spec fn kept_tail(b: Seq<Seq<BlockType>>, n: int) -> Seq<Seq<BlockType>>
    decreases n,
{
    if n <= 1 {
        Seq::empty()
    } else if row_full(b[n - 1]) {
        kept_tail(b, n - 1)
    } else {
        kept_tail(b, n - 1).push(b[n - 1])
    }
}

/// Some row below the top is entirely `Filled`.
pub open spec fn any_full_below(b: Seq<Seq<BlockType>>) -> bool {
    exists|r: int| 1 <= r < 20 && row_full(#[trigger] b[r])
}

/// The rows a line-clearing pass keeps, in order: the not-full rows
/// among rows 1 to 19, preceded by row 0 unless row 0 is full and
/// some row below is also full. The scan examines a row only while
/// its index is above 0, so the top row is looked at exactly when a
/// removal below it has shifted it down into the scan's path; a full
/// top row with nothing cleared beneath it is never examined and
/// survives.
pub open spec fn kept_rows(b: Seq<Seq<BlockType>>) -> Seq<Seq<BlockType>> {
    if row_full(b[0]) && any_full_below(b) {
        kept_tail(b, 20)
    } else {
        seq![b[0]] + kept_tail(b, 20)
    }
}

/// How many rows a line-clearing pass removes.
pub open spec fn lines_cleared(b: Seq<Seq<BlockType>>) -> int {
    20 - kept_rows(b).len()
}

/// The board after a line-clearing pass: one fresh empty row on top
/// for each removed row, then the kept rows in order.
pub open spec fn cleared_board(b: Seq<Seq<BlockType>>) -> Seq<Seq<BlockType>> {
    Seq::new(lines_cleared(b) as nat, |r: int| empty_row_spec()) + kept_rows(b)
}

/// The score after `k` cleared rows are credited to `s`, 100 points
/// each; it saturates at the largest `u32` value instead of wrapping.
pub open spec fn scored(s: int, k: int) -> int {
    if s + 100 * k > 0xffff_ffff {
        0xffff_ffff
    } else {
        s + 100 * k
    }
}

/// The row at which a piece anchored at `(px, py)` comes to rest:
/// the anchor is moved down one row at a time while the next row
/// still passes the placement test.
pub open spec fn rest_y(b: Seq<Seq<BlockType>>, m: Seq<Seq<bool>>, px: int, py: int) -> int
    decreases 20 - py,
{
    if py >= 20 {
        py
    } else if can_place(b, m, px, py + 1) {
        rest_y(b, m, px, py + 1)
    } else {
        py
    }
}

/// A placement test fails as soon as one occupied cell, translated by
/// `(dx, dy)`, leaves the side walls or passes the floor.
pub proof fn lemma_can_place_out_of_bounds(
    b: Seq<Seq<BlockType>>,
    m: Seq<Seq<bool>>,
    x: int,
    y: int,
    dx: int,
    dy: int,
    i: int,
    j: int,
)
    requires
        0 <= i < m.len(),
        0 <= j < m[0].len(),
        m[i][j],
        x + dx + j < 0 || x + dx + j >= 10 || y + dy + i >= 20,
    ensures
        !can_place(b, m, x + dx, y + dy),
{
    assert(!cell_ok(b, x + dx + j, y + dy + i));
}

/// A placeable well-formed mask pins its anchor into a narrow band.
pub proof fn lemma_place_bounds(b: Seq<Seq<BlockType>>, m: Seq<Seq<bool>>, px: int, py: int)
    requires
        mask_wf(m),
        can_place(b, m, px, py),
    ensures
        -4 < px < 10,
        py < 20,
{
    let (i, j): (int, int) = choose|i: int, j: int|
        0 <= i < m.len() && 0 <= j < m[0].len() && #[trigger] m[i][j];
    assert(cell_ok(b, px + j, py + i));
}

/// A successful placement test keeps every occupied cell in bounds.
pub proof fn lemma_can_place_in_bounds(b: Seq<Seq<BlockType>>, m: Seq<Seq<bool>>, px: int, py: int)
    requires
        can_place(b, m, px, py),
    ensures
        mask_in_bounds(m, px, py),
{
    assert forall|i: int, j: int|
        0 <= i < m.len() && 0 <= j < m[0].len() && #[trigger] m[i][j] implies cell_in_bounds(
        px + j,
        py + i,
    ) by {
        assert(cell_ok(b, px + j, py + i));
    }
}

/// Merging keeps the board's dimensions.
pub proof fn lemma_merged_board_wf(b: Seq<Seq<BlockType>>, m: Seq<Seq<bool>>, px: int, py: int)
    requires
        board_wf(b),
    ensures
        board_wf(merged_board(b, m, px, py)),
{
}

/// Shape of the kept tail: at most the scanned rows, each of board
/// width and not full; all scanned rows are kept exactly when none of
/// them is full.
pub proof fn lemma_kept_tail_shape(b: Seq<Seq<BlockType>>, n: int)
    requires
        board_wf(b),
        1 <= n <= 20,
    ensures
        kept_tail(b, n).len() <= n - 1,
        kept_tail(b, n).len() == n - 1 <==> (forall|r: int|
            1 <= r < n ==> !row_full(#[trigger] b[r])),
        forall|i: int|
            0 <= i < kept_tail(b, n).len() ==> (#[trigger] kept_tail(b, n)[i]).len() == 10,
        forall|i: int| 0 <= i < kept_tail(b, n).len() ==> !row_full(#[trigger] kept_tail(b, n)[i]),
    decreases n,
{
    if n > 1 {
        lemma_kept_tail_shape(b, n - 1);
    }
}

/// A line-clearing pass keeps the board's dimensions, and removes
/// between 0 and 20 rows.
pub proof fn lemma_cleared_board_wf(b: Seq<Seq<BlockType>>)
    requires
        board_wf(b),
    ensures
        board_wf(cleared_board(b)),
        0 <= lines_cleared(b) <= 20,
        cleared_board(b).len() == 20,
{
    lemma_kept_tail_shape(b, 20);
}

/// When no row below the top is full, the kept tail is exactly rows 1
/// to `n - 1`.
proof fn lemma_kept_tail_no_full(b: Seq<Seq<BlockType>>, n: int)
    requires
        b.len() == 20,
        1 <= n <= 20,
        forall|r: int| 1 <= r < n ==> !row_full(#[trigger] b[r]),
    ensures
        kept_tail(b, n) == b.subrange(1, n),
    decreases n,
{
    if n == 1 {
        assert(kept_tail(b, n) =~= b.subrange(1, 1));
    } else {
        lemma_kept_tail_no_full(b, n - 1);
        assert(kept_tail(b, n) =~= b.subrange(1, n));
    }
}

/// A line-clearing pass over a board with no full row among rows 1 to
/// 19 removes nothing and leaves the board unchanged, whatever the
/// top row holds: with nothing cleared beneath it, row 0 is never
/// examined.
pub proof fn lemma_clear_no_full_rows(b: Seq<Seq<BlockType>>)
    requires
        board_wf(b),
        forall|r: int| 1 <= r < 20 ==> !row_full(#[trigger] b[r]),
    ensures
        lines_cleared(b) == 0,
        cleared_board(b) == b,
{
    lemma_kept_tail_no_full(b, 20);
    assert(!any_full_below(b));
    assert(kept_rows(b) =~= b);
    assert(cleared_board(b) =~= b);
}

/// After a line-clearing pass no row below the top is entirely
/// filled: only the row at index 0 can still be full.
pub proof fn lemma_cleared_no_full_below_top(b: Seq<Seq<BlockType>>)
    requires
        board_wf(b),
    ensures
        forall|r: int| 1 <= r < 20 ==> !row_full(#[trigger] cleared_board(b)[r]),
{
    lemma_kept_tail_shape(b, 20);
    let k = lines_cleared(b);
    assert forall|r: int| 1 <= r < 20 implies !row_full(cleared_board(b)[r]) by {
        if r < k {
            assert(cleared_board(b)[r] == empty_row_spec());
            assert(empty_row_spec()[0] == BlockType::Empty);
        } else if row_full(b[0]) && any_full_below(b) {
            assert(cleared_board(b)[r] == kept_tail(b, 20)[r - k]);
        } else if r == k {
            assert(cleared_board(b)[r] == b[0]);
            assert(kept_tail(b, 20).len() == 19 - k);
            assert(kept_tail(b, 20).len() < 19);
            assert(any_full_below(b));
            assert(!row_full(b[0]));
        } else {
            assert(cleared_board(b)[r] == kept_tail(b, 20)[r - k - 1]);
        }
    }
}

/// Dropped onto an empty board, a piece comes to rest with its
/// lowest occupied row on the bottom row of the board, and the merge
/// at the resting anchor fills a cell of that bottom row.
pub proof fn lemma_rest_on_floor(b: Seq<Seq<BlockType>>, m: Seq<Seq<bool>>, px: int, py: int)
    requires
        board_wf(b),
        board_empty(b),
        mask_wf(m),
        can_place(b, m, px, py),
    ensures
        rest_y(b, m, px, py) == 19 - bottom_row(m),
        exists|c: int|
            0 <= c < 10 && merged_board(b, m, px, rest_y(b, m, px, py))[19][c]
                == BlockType::Filled,
    decreases 20 - py,
{
    lemma_bottom_row_props(m);
    let bot = bottom_row(m);
    let j = choose|j: int| 0 <= j < m[0].len() && #[trigger] m[bot][j];
    assert(cell_ok(b, px + j, py + bot));
    if py == 19 - bot {
        assert(!cell_ok(b, px + j, py + 1 + bot));
        assert(!can_place(b, m, px, py + 1));
        assert(rest_y(b, m, px, py) == py);
        assert(covered(m, px, py, 19, px + j));
        assert(merged_board(b, m, px, py)[19][px + j] == BlockType::Filled);
    } else {
        assert(py < 19 - bot);
        assert forall|i2: int, j2: int|
            0 <= i2 < m.len() && 0 <= j2 < m[0].len() && #[trigger] m[i2][j2] implies cell_ok(
            b,
            px + j2,
            py + 1 + i2,
        ) by {
            assert(cell_ok(b, px + j2, py + i2));
            assert(row_occupied(m, i2));
            assert(i2 <= bot);
            if py + 1 + i2 >= 0 {
                assert(row_empty(b[py + 1 + i2]));
            }
        }
        assert(can_place(b, m, px, py + 1));
        lemma_rest_on_floor(b, m, px, py + 1);
    }
}

/// Decide `row_full` for one row.
pub fn is_row_full(row: &Vec<BlockType>) -> (r: bool)
    ensures
        r == row_full(row@),
{
    let mut c: usize = 0;
    while c < row.len()
        invariant
            c <= row@.len(),
            forall|k: int| 0 <= k < c ==> #[trigger] row@[k] == BlockType::Filled,
        decreases row@.len() - c,
    {
        if row[c] != BlockType::Filled {
            return false;
        }
        c += 1;
    }
    true
}

/// Build one all-`Empty` row of board width.
pub fn make_empty_row() -> (r: Vec<BlockType>)
    ensures
        r@ == empty_row_spec(),
{
    let mut row: Vec<BlockType> = Vec::new();
    let mut c: usize = 0;
    while c < 10
        invariant
            c <= 10,
            row@.len() == c,
            forall|k: int| 0 <= k < c ==> #[trigger] row@[k] == BlockType::Empty,
        decreases 10 - c,
    {
        row.push(BlockType::Empty);
        c += 1;
    }
    proof {
        assert(row@ =~= empty_row_spec());
    }
    row
}

/// Copy one row of cells.
pub(crate) fn copy_row(src: &Vec<BlockType>) -> (r: Vec<BlockType>)
    ensures
        r@ == src@,
{
    let mut row: Vec<BlockType> = Vec::new();
    let mut c: usize = 0;
    while c < src.len()
        invariant
            c <= src@.len(),
            row@ == src@.subrange(0, c as int),
        decreases src@.len() - c,
    {
        row.push(src[c]);
        proof {
            assert(row@ =~= src@.subrange(0, c + 1));
        }
        c += 1;
    }
    proof {
        assert(src@.subrange(0, src@.len() as int) =~= src@);
    }
    row
}

/// Run the placement test of a mask against a board, the mask
/// anchored at `(px, py)`.
pub(crate) fn placement_ok(
    board: &Vec<Vec<BlockType>>,
    blocks: &Vec<Vec<bool>>,
    px: i64,
    py: i64,
) -> (r: bool)
    requires
        board_wf(grid_view(board@)),
        mask_rect(grid_view(blocks@)),
        -0x1_0000_0000 <= px <= 0x1_0000_0000,
        -0x1_0000_0000 <= py <= 0x1_0000_0000,
    ensures
        r == can_place(grid_view(board@), grid_view(blocks@), px as int, py as int),
{
    let ghost bd = grid_view(board@);
    let ghost m = grid_view(blocks@);
    let rows: usize = blocks.len();
    let cols: usize = blocks[0].len();
    let mut i: usize = 0;
    while i < rows
        invariant
            board_wf(bd),
            mask_rect(m),
            bd == grid_view(board@),
            m == grid_view(blocks@),
            rows == m.len(),
            cols == m[0].len(),
            -0x1_0000_0000 <= px <= 0x1_0000_0000,
            -0x1_0000_0000 <= py <= 0x1_0000_0000,
            i <= rows,
            forall|a: int, b2: int|
                0 <= a < i && 0 <= b2 < cols && #[trigger] m[a][b2] ==> cell_ok(
                    bd,
                    px + b2,
                    py + a,
                ),
        decreases rows - i,
    {
        let mut j: usize = 0;
        while j < cols
            invariant
                board_wf(bd),
                mask_rect(m),
                bd == grid_view(board@),
                m == grid_view(blocks@),
                rows == m.len(),
                cols == m[0].len(),
                -0x1_0000_0000 <= px <= 0x1_0000_0000,
                -0x1_0000_0000 <= py <= 0x1_0000_0000,
                i < rows,
                j <= cols,
                forall|a: int, b2: int|
                    0 <= a < i && 0 <= b2 < cols && #[trigger] m[a][b2] ==> cell_ok(
                        bd,
                        px + b2,
                        py + a,
                    ),
                forall|b2: int|
                    0 <= b2 < j && #[trigger] m[i as int][b2] ==> cell_ok(bd, px + b2, py + i),
            decreases cols - j,
        {
            proof {
                assert(m[i as int] == blocks@[i as int]@);
                assert(m[i as int].len() == cols);
            }
            if blocks[i][j] {
                let bx: i64 = px + j as i64;
                let by: i64 = py + i as i64;
                if bx < 0 || bx >= 10 || by >= 20 {
                    proof {
                        assert(m[i as int][j as int]);
                        assert(!cell_ok(bd, px + j, py + i));
                    }
                    return false;
                }
                if by >= 0 {
                    proof {
                        assert(bd[by as int] == board@[by as int]@);
                        assert(bd[by as int].len() == 10);
                    }
                    if board[by as usize][bx as usize] == BlockType::Filled {
                        proof {
                            assert(m[i as int][j as int]);
                            assert(!cell_ok(bd, px + j, py + i));
                        }
                        return false;
                    }
                }
                proof {
                    assert(cell_ok(bd, px + j, py + i));
                }
            }
            j += 1;
        }
        i += 1;
    }
    true
}

/// Decide whether board cell `(r, c)` is covered by an occupied cell
/// of the mask anchored at `(px, py)`.
pub(crate) fn covers_cell(blocks: &Vec<Vec<bool>>, px: i32, py: i32, r: usize, c: usize) -> (res:
    bool)
    requires
        mask_rect(grid_view(blocks@)),
        r < 20,
        c < 10,
    ensures
        res == covered(grid_view(blocks@), px as int, py as int, r as int, c as int),
{
    let ghost m = grid_view(blocks@);
    let rows: usize = blocks.len();
    let cols: usize = blocks[0].len();
    let mut i: usize = 0;
    while i < rows
        invariant
            mask_rect(m),
            m == grid_view(blocks@),
            rows == m.len(),
            cols == m[0].len(),
            r < 20,
            c < 10,
            i <= rows,
            forall|a: int, b2: int|
                0 <= a < i && 0 <= b2 < cols && #[trigger] m[a][b2] ==> !(py + a == r && px + b2
                    == c),
        decreases rows - i,
    {
        let mut j: usize = 0;
        while j < cols
            invariant
                mask_rect(m),
                m == grid_view(blocks@),
                rows == m.len(),
                cols == m[0].len(),
                r < 20,
                c < 10,
                i < rows,
                j <= cols,
                forall|a: int, b2: int|
                    0 <= a < i && 0 <= b2 < cols && #[trigger] m[a][b2] ==> !(py + a == r && px + b2
                        == c),
                forall|b2: int|
                    0 <= b2 < j && #[trigger] m[i as int][b2] ==> !(py + i == r && px + b2 == c),
            decreases cols - j,
        {
            proof {
                assert(m[i as int] == blocks@[i as int]@);
                assert(m[i as int].len() == cols);
            }
            if blocks[i][j] {
                let bx: i64 = px as i64 + j as i64;
                let by: i64 = py as i64 + i as i64;
                if bx == c as i64 && by == r as i64 {
                    proof {
                        assert(m[i as int][j as int] && py + i == r && px + j == c);
                    }
                    return true;
                }
            }
            j += 1;
        }
        i += 1;
    }
    false
}

} // verus!
