//! The renderer: one grey level for every pixel of a grid.

use vstd::prelude::*;
use crate::error::RenderError;
use crate::escape::{
    can_iterate, escape_time, escapes_in, intensity, intensity_of, is_deterministic_step,
    lemma_escape_time_unique,
};
use crate::grid::{grid_of, has_shape, Rendering};

verus! {

/// The number of rounds after which an orbit counts as bounded.
pub const ESCAPE_LIMIT: u32 = 255;

/// `level` is a possible grey level of the pixel in column `col` and row `row`
/// of a picture of the rectangle between `upper_left` and `lower_right`: the
/// grey level of an escape time, under the cap [`ESCAPE_LIMIT`], of a point that
/// `point_at` maps the pixel to.
pub open spec fn is_level_of<
    C,
    M: Fn((usize, usize), (usize, usize), C, C) -> C,
    S: Fn(C, C) -> (C, bool),
>(
    bounds: (usize, usize),
    upper_left: C,
    lower_right: C,
    point_at: M,
    start: C,
    step: S,
    col: usize,
    row: usize,
    level: u8,
) -> bool {
    exists|c: C, time: Option<u32>|
        {
            &&& point_at.ensures((bounds, (col, row), upper_left, lower_right), c)
            &&& #[trigger] escapes_in(step, c, start, ESCAPE_LIMIT, time)
            &&& level == intensity_of(time)
        }
}

/// `grid` is a picture of `bounds.0` columns and `bounds.1` rows in which every
/// pixel has a grey level of its own point.
pub open spec fn is_rendering<
    C,
    M: Fn((usize, usize), (usize, usize), C, C) -> C,
    S: Fn(C, C) -> (C, bool),
>(
    bounds: (usize, usize),
    upper_left: C,
    lower_right: C,
    point_at: M,
    start: C,
    step: S,
    grid: Seq<Seq<u8>>,
) -> bool {
    &&& has_shape(grid, bounds.0 as nat, bounds.1 as nat)
    &&& forall|row: usize, col: usize|
        row < bounds.1 && col < bounds.0 ==> is_level_of(
            bounds,
            upper_left,
            lower_right,
            point_at,
            start,
            step,
            col,
            row,
            #[trigger] grid[row as int][col as int],
        )
}

/// Every pixel of the grid can be rendered: `point_at` accepts it, and `step`
/// can follow the orbit of each point that `point_at` returns for it.
pub open spec fn can_render<
    C,
    M: Fn((usize, usize), (usize, usize), C, C) -> C,
    S: Fn(C, C) -> (C, bool),
>(bounds: (usize, usize), upper_left: C, lower_right: C, point_at: M, start: C, step: S) -> bool {
    &&& forall|col: usize, row: usize|
        col < bounds.0 && row < bounds.1 ==> #[trigger] point_at.requires(
            (bounds, (col, row), upper_left, lower_right),
        )
    &&& forall|col: usize, row: usize, c: C|
        col < bounds.0 && row < bounds.1 && #[trigger] point_at.ensures(
            (bounds, (col, row), upper_left, lower_right),
            c,
        ) ==> can_iterate(step, c, start)
}

/// Fills a grid of `bounds.0` columns and `bounds.1` rows, pixel by pixel and
/// row by row, for a rectangle that has been accepted.
pub(crate) fn fill<
    C: Copy,
    M: Fn((usize, usize), (usize, usize), C, C) -> C,
    S: Fn(C, C) -> (C, bool),
>(
    bounds: (usize, usize),
    upper_left: C,
    lower_right: C,
    point_at: &M,
    start: C,
    step: &S,
) -> (pixels: Rendering)
    requires
        can_render(bounds, upper_left, lower_right, *point_at, start, *step),
    ensures
        is_rendering(bounds, upper_left, lower_right, *point_at, start, *step, grid_of(pixels)),
{
    let (width, height) = bounds;
    let mut pixels: Vec<Vec<u8>> = Vec::new();
    let mut row: usize = 0;
    while row < height
        invariant
            row <= height,
            bounds == (width, height),
            can_render(bounds, upper_left, lower_right, *point_at, start, *step),
            pixels@.len() == row,
            forall|r: int| 0 <= r < row ==> (#[trigger] pixels@[r])@.len() == width,
            forall|r: usize, c: usize|
                r < row && c < width ==> is_level_of(
                    bounds,
                    upper_left,
                    lower_right,
                    *point_at,
                    start,
                    *step,
                    c,
                    r,
                    #[trigger] pixels@[r as int]@[c as int],
                ),
        decreases height - row,
    {
        let mut line: Vec<u8> = Vec::new();
        let mut col: usize = 0;
        while col < width
            invariant
                col <= width,
                row < height,
                bounds == (width, height),
                can_render(bounds, upper_left, lower_right, *point_at, start, *step),
                line@.len() == col,
                forall|c: usize|
                    c < col ==> is_level_of(
                        bounds,
                        upper_left,
                        lower_right,
                        *point_at,
                        start,
                        *step,
                        c,
                        row,
                        #[trigger] line@[c as int],
                    ),
            decreases width - col,
        {
            let point = point_at(bounds, (col, row), upper_left, lower_right);
            let time = escape_time(point, ESCAPE_LIMIT, start, step);
            let level = intensity(time);
            line.push(level);
            col += 1;
        }
        pixels.push(line);
        row += 1;
    }
    proof {
        let grid = grid_of(pixels);
        assert forall|r: usize, c: usize| r < bounds.1 && c < bounds.0 implies is_level_of(
            bounds,
            upper_left,
            lower_right,
            *point_at,
            start,
            *step,
            c,
            r,
            #[trigger] grid[r as int][c as int],
        ) by {
            assert(grid[r as int][c as int] == pixels@[r as int]@[c as int]);
        }
    }
    pixels
}

/// Renders the rectangle between `upper_left` and `lower_right` on a grid of
/// `bounds.0` columns and `bounds.1` rows.
///
/// A grid without columns or without rows is refused. So is a rectangle of
/// which `is_oriented(upper_left, lower_right)` returns `false`: the caller's
/// test that the upper left corner lies to the left of and above the lower
/// right one. Nothing is mapped or iterated for a call that is refused.
///
/// For the pixel in column `col` and row `row`,
/// `point_at(bounds, (col, row), upper_left, lower_right)` gives the point of
/// the plane that it shows. The orbit of that point is followed with `step` from
/// `start` for at most [`ESCAPE_LIMIT`] rounds, and the grey level of the escape
/// time is stored at `[row][col]`.
pub fn render<
    C: Copy,
    V: Fn(C, C) -> bool,
    M: Fn((usize, usize), (usize, usize), C, C) -> C,
    S: Fn(C, C) -> (C, bool),
>(
    bounds: (usize, usize),
    upper_left: C,
    lower_right: C,
    is_oriented: &V,
    point_at: &M,
    start: C,
    step: &S,
) -> (result: Result<Rendering, RenderError>)
    requires
        bounds.0 > 0 && bounds.1 > 0 ==> is_oriented.requires((upper_left, lower_right)),
        is_oriented.ensures((upper_left, lower_right), true) ==> can_render(
            bounds,
            upper_left,
            lower_right,
            *point_at,
            start,
            *step,
        ),
    ensures
        result is Ok ==> bounds.0 > 0 && bounds.1 > 0 && is_oriented.ensures(
            (upper_left, lower_right),
            true,
        ),
        result is Err ==> bounds.0 == 0 || bounds.1 == 0 || is_oriented.ensures(
            (upper_left, lower_right),
            false,
        ),
        result matches Ok(rendering) ==> is_rendering(
            bounds,
            upper_left,
            lower_right,
            *point_at,
            start,
            *step,
            grid_of(rendering),
        ),
        result matches Err(e) ==> e == RenderError::InvalidParameter,
{
    if bounds.0 == 0 || bounds.1 == 0 {
        return Err(RenderError::InvalidParameter);
    }
    if !is_oriented(upper_left, lower_right) {
        return Err(RenderError::InvalidParameter);
    }
    Ok(fill(bounds, upper_left, lower_right, point_at, start, step))
}

/// `point_at` returns one point for each pixel of each rectangle.
pub open spec fn is_deterministic_map<C, M: Fn((usize, usize), (usize, usize), C, C) -> C>(
    point_at: M,
) -> bool {
    forall|bounds: (usize, usize), pixel: (usize, usize), upper_left: C, lower_right: C, first: C, second: C|
        #[trigger] point_at.ensures((bounds, pixel, upper_left, lower_right), first)
            && #[trigger] point_at.ensures((bounds, pixel, upper_left, lower_right), second)
            ==> first == second
}

/// Rendering is a function of its arguments: with a deterministic `point_at` and
/// a deterministic `step`, two calls of [`render`] on the same grid and the same
/// rectangle return the same picture, grey level for grey level.
pub proof fn lemma_render_deterministic<
    C,
    M: Fn((usize, usize), (usize, usize), C, C) -> C,
    S: Fn(C, C) -> (C, bool),
>(
    bounds: (usize, usize),
    upper_left: C,
    lower_right: C,
    point_at: M,
    start: C,
    step: S,
    first: Seq<Seq<u8>>,
    second: Seq<Seq<u8>>,
)
    requires
        is_deterministic_map(point_at),
        is_deterministic_step(step),
        is_rendering(bounds, upper_left, lower_right, point_at, start, step, first),
        is_rendering(bounds, upper_left, lower_right, point_at, start, step, second),
    ensures
        first == second,
{
    assert forall|r: int| 0 <= r < first.len() implies first[r] == second[r] by {
        assert forall|k: int| 0 <= k < first[r].len() implies first[r][k] == second[r][k] by {
            let row = r as usize;
            let col = k as usize;
            assert(is_level_of(
                bounds,
                upper_left,
                lower_right,
                point_at,
                start,
                step,
                col,
                row,
                first[row as int][col as int],
            ));
            assert(is_level_of(
                bounds,
                upper_left,
                lower_right,
                point_at,
                start,
                step,
                col,
                row,
                second[row as int][col as int],
            ));
            let (c1, t1) = choose|c: C, time: Option<u32>|
                {
                    &&& point_at.ensures((bounds, (col, row), upper_left, lower_right), c)
                    &&& #[trigger] escapes_in(step, c, start, ESCAPE_LIMIT, time)
                    &&& first[r][k] == intensity_of(time)
                };
            let (c2, t2) = choose|c: C, time: Option<u32>|
                {
                    &&& point_at.ensures((bounds, (col, row), upper_left, lower_right), c)
                    &&& #[trigger] escapes_in(step, c, start, ESCAPE_LIMIT, time)
                    &&& second[r][k] == intensity_of(time)
                };
            lemma_escape_time_unique(step, c1, start, ESCAPE_LIMIT, t1, t2);
        }
        assert(first[r] =~= second[r]);
    }
    assert(first =~= second);
}

} // verus!
