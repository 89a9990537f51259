//! Grids of grey levels: their shape, and their layout as one run of bytes.

use vstd::prelude::*;
use crate::error::RenderError;

verus! {

/// A picture: one vector of grey levels for each row, top row first.
pub type Rendering = Vec<Vec<u8>>;

/// The grey levels of a picture as a sequence of rows.
pub open spec fn grid_of(rendering: Rendering) -> Seq<Seq<u8>> {
    Seq::new(rendering@.len(), |row: int| rendering@[row]@)
}

/// `grid` has `height` rows of `width` grey levels each.
pub open spec fn has_shape(grid: Seq<Seq<u8>>, width: nat, height: nat) -> bool {
    &&& grid.len() == height
    &&& forall|row: int| 0 <= row < grid.len() ==> (#[trigger] grid[row]).len() == width
}

/// The length of the first row of `grid`, and 0 for a grid without rows.
pub open spec fn width_of(grid: Seq<Seq<u8>>) -> nat {
    if grid.len() == 0 {
        0
    } else {
        grid[0].len()
    }
}

/// All rows of `grid` have one length.
pub open spec fn is_rectangular(grid: Seq<Seq<u8>>) -> bool {
    has_shape(grid, width_of(grid), grid.len())
}

/// In a grid of `height` rows of `width` grey levels, the rows laid end to end
/// hold `width * height` grey levels, and the one in row `row` and column `col`
/// stands at index `row * width + col`.
pub proof fn lemma_flatten_row_major(grid: Seq<Seq<u8>>, width: nat, row: int, col: int)
    requires
        has_shape(grid, width, grid.len()),
        0 <= row < grid.len(),
        0 <= col < width,
    ensures
        grid.flatten().len() == width * grid.len(),
        0 <= row * width + col < grid.flatten().len(),
        grid.flatten()[row * width + col] == grid[row][col],
    decreases grid.len(),
{
    let above = grid.drop_last();
    lemma_flatten_len(grid, width);
    lemma_flatten_len(above, width);
    assert(grid =~= above.push(grid.last()));
    above.lemma_flatten_push(grid.last());
    if row < above.len() {
        lemma_flatten_row_major(above, width, row, col);
    } else {
        assert(row * width == width * above.len()) by (nonlinear_arith)
            requires
                row == above.len(),
        ;
    }
}

/// A grid of `height` rows of `width` grey levels holds `width * height` of them.
pub proof fn lemma_flatten_len(grid: Seq<Seq<u8>>, width: nat)
    requires
        has_shape(grid, width, grid.len()),
    ensures
        grid.flatten().len() == width * grid.len(),
    decreases grid.len(),
{
    if grid.len() == 0 {
        assert(width * 0 == 0) by (nonlinear_arith);
    } else {
        let above = grid.drop_last();
        let rows = above.len() as int;
        assert(grid =~= above.push(grid.last()));
        above.lemma_flatten_push(grid.last());
        lemma_flatten_len(above, width);
        assert(width * grid.len() == width * rows + width) by (nonlinear_arith)
            requires
                grid.len() == rows + 1,
        ;
    }
}

/// Tells whether all rows of a picture have one length.
pub fn has_uniform_rows(rendering: &Rendering) -> (uniform: bool)
    ensures
        uniform == is_rectangular(grid_of(*rendering)),
{
    if rendering.len() == 0 {
        return true;
    }
    let width: usize = rendering[0].len();
    let mut row: usize = 1;
    while row < rendering.len()
        invariant
            1 <= row <= rendering.len(),
            width == rendering@[0]@.len(),
            forall|r: int| 0 <= r < row ==> (#[trigger] rendering@[r])@.len() == width,
        decreases rendering.len() - row,
    {
        if rendering[row].len() != width {
            assert(grid_of(*rendering)[row as int].len() != width_of(grid_of(*rendering)));
            return false;
        }
        row += 1;
    }
    assert forall|r: int| 0 <= r < grid_of(*rendering).len() implies (#[trigger] grid_of(
        *rendering,
    )[r]).len() == width by {
        assert(rendering@[r]@.len() == width);
    }
    true
}

/// Lays the rows of a picture end to end, top row first.
///
/// The result holds `width * height` bytes, and the grey level of row `row` and
/// column `col` is the byte at index `row * width + col`.
pub fn rendering_to_pixels(rendering: &Rendering) -> (pixels: Vec<u8>)
    requires
        is_rectangular(grid_of(*rendering)),
    ensures
        pixels@ == grid_of(*rendering).flatten(),
        pixels@.len() == width_of(grid_of(*rendering)) * rendering@.len(),
{
    let ghost grid = grid_of(*rendering);
    let mut pixels: Vec<u8> = Vec::new();
    let mut row: usize = 0;
    while row < rendering.len()
        invariant
            row <= rendering.len(),
            grid == grid_of(*rendering),
            pixels@ == grid.take(row as int).flatten(),
        decreases rendering.len() - row,
    {
        let line = &rendering[row];
        let mut col: usize = 0;
        while col < line.len()
            invariant
                col <= line.len(),
                row < rendering.len(),
                grid == grid_of(*rendering),
                line@ == grid[row as int],
                pixels@ == grid.take(row as int).flatten() + line@.take(col as int),
            decreases line.len() - col,
        {
            pixels.push(line[col]);
            col += 1;
        }
        proof {
            grid.take(row as int).lemma_flatten_push(line@);
            assert(grid.take(row + 1) =~= grid.take(row as int).push(line@));
        }
        row += 1;
    }
    proof {
        assert(grid.take(row as int) =~= grid);
        lemma_flatten_len(grid, width_of(grid));
    }
    pixels
}

/// Lays the rows of a picture end to end after making sure that they have one
/// length; a ragged picture is refused.
pub fn try_rendering_to_pixels(rendering: &Rendering) -> (result: Result<Vec<u8>, RenderError>)
    ensures
        result is Ok <==> is_rectangular(grid_of(*rendering)),
        result matches Ok(pixels) ==> pixels@ == grid_of(*rendering).flatten(),
        result matches Ok(pixels) ==> pixels@.len() == width_of(grid_of(*rendering))
            * rendering@.len(),
        result matches Err(e) ==> e == RenderError::ShapeMismatch,
{
    if has_uniform_rows(rendering) {
        Ok(rendering_to_pixels(rendering))
    } else {
        Err(RenderError::ShapeMismatch)
    }
}

} // verus!
