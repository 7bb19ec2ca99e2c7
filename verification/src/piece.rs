//! Falling pieces: the shape catalog, spawning, and rotation.

use vstd::prelude::*;
use rand::Rng;

use crate::grid_view;

verus! {

/// A falling piece: an occupancy mask `blocks[row][col]` plus the
/// board column `x` and board row `y` of the mask's top-left corner.
pub struct Tetromino {
    pub blocks: Vec<Vec<bool>>,
    pub x: i32,
    pub y: i32,
}

/// The mask is a non-empty rectangle, at most four cells on a side.
pub open spec fn mask_rect(m: Seq<Seq<bool>>) -> bool {
    &&& 1 <= m.len() <= 4
    &&& 1 <= m[0].len() <= 4
    &&& forall|i: int| 0 <= i < m.len() ==> (#[trigger] m[i]).len() == m[0].len()
}

/// At least one cell of the mask is occupied.
pub open spec fn mask_occupied(m: Seq<Seq<bool>>) -> bool {
    exists|i: int, j: int| 0 <= i < m.len() && 0 <= j < m[0].len() && #[trigger] m[i][j]
}

/// A well-formed piece mask: rectangular, bounded, and not blank.
pub open spec fn mask_wf(m: Seq<Seq<bool>>) -> bool {
    mask_rect(m) && mask_occupied(m)
}

/// The catalog of the seven shapes (I, O, T, L, J, S, Z), each in its
/// spawn orientation.
pub open spec fn shape_mask(k: int) -> Seq<Seq<bool>> {
    if k == 0 {
        seq![seq![true, true, true, true], seq![false, false, false, false]]
    } else if k == 1 {
        seq![seq![true, true], seq![true, true]]
    } else if k == 2 {
        seq![seq![false, true, false], seq![true, true, true]]
    } else if k == 3 {
        seq![seq![true, false, false], seq![true, true, true]]
    } else if k == 4 {
        seq![seq![false, false, true], seq![true, true, true]]
    } else if k == 5 {
        seq![seq![false, true, true], seq![true, true, false]]
    } else {
        seq![seq![true, true, false], seq![false, true, true]]
    }
}

/// Spawn column of a mask: centred on the board, rounding down.
pub open spec fn spawn_col(m: Seq<Seq<bool>>) -> int {
    (10 - m[0].len() as int) / 2
}

/// The piece is one of the seven catalog shapes, freshly spawned:
/// catalog mask, centred column, top row.
pub open spec fn fresh_spawn(p: Tetromino) -> bool {
    exists|k: int|
        0 <= k < 7 && #[trigger] shape_mask(k) == grid_view(p.blocks@) && p.x as int
            == spawn_col(shape_mask(k)) && p.y == 0
}

/// 90-degree clockwise rotation of a mask: an R x C rectangle becomes
/// C x R, with `result[j][R - 1 - i] == source[i][j]`.
pub open spec fn rotate_mask(m: Seq<Seq<bool>>) -> Seq<Seq<bool>> {
    Seq::new(m[0].len() as nat, |j: int| Seq::new(m.len(), |c: int| m[m.len() - 1 - c][j]))
}

/// Row `i` of the mask has at least one occupied cell.
pub open spec fn row_occupied(m: Seq<Seq<bool>>, i: int) -> bool {
    exists|j: int| 0 <= j < m[0].len() && #[trigger] m[i][j]
}

/// The lowest occupied row at or above row `i`, or -1 if there is
/// none.
pub open spec fn bottom_row_from(m: Seq<Seq<bool>>, i: int) -> int
    decreases i + 1,
{
    if i < 0 {
        -1
    } else if row_occupied(m, i) {
        i
    } else {
        bottom_row_from(m, i - 1)
    }
}

/// The lowest occupied row of the mask.
pub open spec fn bottom_row(m: Seq<Seq<bool>>) -> int {
    bottom_row_from(m, m.len() - 1)
}

proof fn lemma_bottom_row_from_props(m: Seq<Seq<bool>>, i: int)
    requires
        -1 <= i < m.len(),
    ensures
        -1 <= bottom_row_from(m, i) <= i,
        bottom_row_from(m, i) >= 0 ==> row_occupied(m, bottom_row_from(m, i)),
        forall|t: int| bottom_row_from(m, i) < t <= i ==> !row_occupied(m, t),
    decreases i + 1,
{
    if i >= 0 && !row_occupied(m, i) {
        lemma_bottom_row_from_props(m, i - 1);
    }
}

/// A well-formed mask has a lowest occupied row, and no occupied row
/// below it.
pub proof fn lemma_bottom_row_props(m: Seq<Seq<bool>>)
    requires
        mask_wf(m),
    ensures
        0 <= bottom_row(m) < m.len(),
        row_occupied(m, bottom_row(m)),
        forall|i: int| bottom_row(m) < i < m.len() ==> !row_occupied(m, i),
{
    lemma_bottom_row_from_props(m, m.len() - 1);
    let (i, j): (int, int) = choose|i: int, j: int|
        0 <= i < m.len() && 0 <= j < m[0].len() && #[trigger] m[i][j];
    assert(row_occupied(m, i));
}

/// Every catalog shape is a well-formed mask of two rows.
pub proof fn lemma_shape_mask_wf(k: int)
    requires
        0 <= k < 7,
    ensures
        mask_wf(shape_mask(k)),
        shape_mask(k).len() == 2,
        2 <= shape_mask(k)[0].len() <= 4,
{
    if k == 0 {
        assert(shape_mask(k)[0][0]);
    } else if k == 1 {
        assert(shape_mask(k)[0][0]);
    } else if k == 2 {
        assert(shape_mask(k)[0][1]);
    } else if k == 3 {
        assert(shape_mask(k)[0][0]);
    } else if k == 4 {
        assert(shape_mask(k)[0][2]);
    } else if k == 5 {
        assert(shape_mask(k)[0][1]);
    } else {
        assert(shape_mask(k)[0][0]);
    }
}

/// Shape, length and cells of a rotated mask, and that rotation
/// preserves rectangularity.
pub proof fn lemma_rotate_mask_props(m: Seq<Seq<bool>>)
    requires
        mask_rect(m),
    ensures
        rotate_mask(m).len() == m[0].len(),
        forall|a: int| 0 <= a < m[0].len() ==> (#[trigger] rotate_mask(m)[a]).len() == m.len(),
        forall|a: int, b: int|
            0 <= a < m[0].len() && 0 <= b < m.len() ==> #[trigger] rotate_mask(m)[a][b] == m[m.len()
                - 1 - b][a],
        mask_rect(rotate_mask(m)),
{
}

/// Rotation keeps at least one cell occupied.
pub proof fn lemma_rotate_keeps_occupied(m: Seq<Seq<bool>>)
    requires
        mask_rect(m),
        mask_occupied(m),
    ensures
        mask_occupied(rotate_mask(m)),
{
    let (i, j): (int, int) = choose|i: int, j: int|
        0 <= i < m.len() && 0 <= j < m[0].len() && #[trigger] m[i][j];
    lemma_rotate_mask_props(m);
    assert(rotate_mask(m)[j][m.len() - 1 - i]);
}

/// Rotating a mask four times gives back the original mask.
pub proof fn lemma_rotate_four_identity(m: Seq<Seq<bool>>)
    requires
        mask_rect(m),
    ensures
        rotate_mask(rotate_mask(rotate_mask(rotate_mask(m)))) == m,
{
    let r1 = rotate_mask(m);
    let r2 = rotate_mask(r1);
    let r3 = rotate_mask(r2);
    let r4 = rotate_mask(r3);
    lemma_rotate_mask_props(m);
    lemma_rotate_mask_props(r1);
    lemma_rotate_mask_props(r2);
    lemma_rotate_mask_props(r3);
    assert forall|g: int, h: int| 0 <= g < m.len() && 0 <= h < m[0].len() implies #[trigger] r4[g][h]
        == m[g][h] by {
        assert(r4[g][h] == r3[r3.len() - 1 - h][g]);
        assert(r3[r3.len() - 1 - h][g] == m[g][h]);
    }
    assert(r4 =~~= m);
}

/// Relies on rand's `Rng::gen_range` over the range `0..7`: it
/// returns a value of that range, drawn from the thread's generator.
/// Nothing more is assumed of the draw.
#[verifier::external_body]
fn random_shape_index() -> (k: usize)
    ensures
        k < 7,
{
    let mut rng = rand::thread_rng();
    rng.gen_range(0..7)
}

/// Compute the clockwise rotation of a rectangular mask.
pub(crate) fn rotated_blocks(src: &Vec<Vec<bool>>) -> (r: Vec<Vec<bool>>)
    requires
        mask_rect(grid_view(src@)),
    ensures
        grid_view(r@) == rotate_mask(grid_view(src@)),
{
    let ghost m = grid_view(src@);
    let rows: usize = src.len();
    let cols: usize = src[0].len();
    let mut out: Vec<Vec<bool>> = Vec::new();
    let mut j: usize = 0;
    while j < cols
        invariant
            mask_rect(m),
            m == grid_view(src@),
            rows == m.len(),
            cols == m[0].len(),
            j <= cols,
            out@.len() == j,
            forall|a: int| 0 <= a < j ==> (#[trigger] out@[a])@ == rotate_mask(m)[a],
        decreases cols - j,
    {
        let mut row: Vec<bool> = Vec::new();
        let mut c: usize = 0;
        while c < rows
            invariant
                mask_rect(m),
                m == grid_view(src@),
                rows == m.len(),
                cols == m[0].len(),
                j < cols,
                c <= rows,
                row@.len() == c,
                forall|b: int| 0 <= b < c ==> #[trigger] row@[b] == m[rows - 1 - b][j as int],
            decreases rows - c,
        {
            proof {
                assert(m[rows - 1 - c] == src@[rows - 1 - c]@);
                assert(m[rows - 1 - c].len() == cols);
            }
            row.push(src[rows - 1 - c][j]);
            c += 1;
        }
        proof {
            lemma_rotate_mask_props(m);
            assert(row@ =~= rotate_mask(m)[j as int]);
        }
        out.push(row);
        j += 1;
    }
    proof {
        lemma_rotate_mask_props(m);
        assert(grid_view(out@) =~~= rotate_mask(m));
    }
    out
}

impl Tetromino {
    /// Build the catalog shape of the given index at its spawn
    /// position: centred column, top row.
    pub fn from_index(k: usize) -> (p: Tetromino)
        requires
            k < 7,
        ensures
            grid_view(p.blocks@) == shape_mask(k as int),
            mask_wf(grid_view(p.blocks@)),
            p.x as int == spawn_col(shape_mask(k as int)),
            p.y == 0,
            3 <= p.x <= 4,
    {
        let blocks: Vec<Vec<bool>> = if k == 0 {
            vec![vec![true, true, true, true], vec![false, false, false, false]]
        } else if k == 1 {
            vec![vec![true, true], vec![true, true]]
        } else if k == 2 {
            vec![vec![false, true, false], vec![true, true, true]]
        } else if k == 3 {
            vec![vec![true, false, false], vec![true, true, true]]
        } else if k == 4 {
            vec![vec![false, false, true], vec![true, true, true]]
        } else if k == 5 {
            vec![vec![false, true, true], vec![true, true, false]]
        } else {
            vec![vec![true, true, false], vec![false, true, true]]
        };
        proof {
            assert(grid_view(blocks@) =~~= shape_mask(k as int));
            lemma_shape_mask_wf(k as int);
        }
        let w: usize = blocks[0].len();
        let x: i32 = ((10 - w) / 2) as i32;
        Tetromino { blocks, x, y: 0 }
    }

    /// Spawn a new piece: one of the seven shapes, chosen at random,
    /// at its spawn position.
    pub fn new() -> (p: Tetromino)
        ensures
            fresh_spawn(p),
            mask_wf(grid_view(p.blocks@)),
            p.y == 0,
            3 <= p.x <= 4,
    {
        let k: usize = random_shape_index();
        let p = Tetromino::from_index(k);
        proof {
            lemma_shape_mask_wf(k as int);
            assert(fresh_spawn(p)) by {
                assert(shape_mask(k as int) == grid_view(p.blocks@));
            }
        }
        p
    }

    /// Replace the mask by its clockwise rotation; the anchor is
    /// unchanged. The rotated mask is a fresh value, so a caller that
    /// rejects it can keep the original.
    pub fn rotate(&mut self)
        requires
            mask_rect(grid_view(old(self).blocks@)),
        ensures
            grid_view(final(self).blocks@) == rotate_mask(grid_view(old(self).blocks@)),
            final(self).x == old(self).x,
            final(self).y == old(self).y,
    {
        let r = rotated_blocks(&self.blocks);
        self.blocks = r;
    }
}

} // verus!
