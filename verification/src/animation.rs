//! Zoom animations: the rectangles of the frames, and the pictures of them.

use vstd::prelude::*;
use crate::error::RenderError;
use crate::escape::is_deterministic_step;
use crate::grid::{grid_of, Rendering};
use crate::render::{
    can_render, fill, is_deterministic_map, is_rendering, lemma_render_deterministic,
};

verus! {

/// `shrink` may be called on the first rectangle, and on every rectangle that it
/// returns.
pub open spec fn can_zoom<C, R, F: Fn((usize, usize), usize, R, C, C) -> (C, C)>(
    bounds: (usize, usize),
    num_frames: usize,
    scale: R,
    upper_left: C,
    lower_right: C,
    shrink: F,
) -> bool {
    &&& shrink.requires((bounds, num_frames, scale, upper_left, lower_right))
    &&& forall|a: C, b: C, next: (C, C)|
        shrink.requires((bounds, num_frames, scale, a, b)) && #[trigger] shrink.ensures(
            (bounds, num_frames, scale, a, b),
            next,
        ) ==> shrink.requires((bounds, num_frames, scale, next.0, next.1))
}

/// Frame `k` of `frames` is what `shrink` makes of the frame before it.
pub open spec fn is_next_frame<C, R, F: Fn((usize, usize), usize, R, C, C) -> (C, C)>(
    bounds: (usize, usize),
    num_frames: usize,
    scale: R,
    shrink: F,
    frames: Seq<(C, C)>,
    k: int,
) -> bool {
    shrink.ensures((bounds, num_frames, scale, frames[k - 1].0, frames[k - 1].1), frames[k])
}

/// `frames` is a zoom of `num_frames` frames that begins with the rectangle
/// between `upper_left` and `lower_right`: that rectangle is its first frame, and
/// every later frame is what `shrink` makes of the frame before it.
pub open spec fn is_zoom<C, R, F: Fn((usize, usize), usize, R, C, C) -> (C, C)>(
    bounds: (usize, usize),
    num_frames: usize,
    scale: R,
    upper_left: C,
    lower_right: C,
    shrink: F,
    frames: Seq<(C, C)>,
) -> bool {
    &&& frames.len() == num_frames
    &&& frames.len() > 0
    &&& frames[0] == (upper_left, lower_right)
    &&& forall|k: int|
        1 <= k < frames.len() ==> #[trigger] is_next_frame(
            bounds,
            num_frames,
            scale,
            shrink,
            frames,
            k,
        )
}

/// Unfolds a zoom of `num_frames` rectangles, each given by its upper left and
/// its lower right corner, for pictures of `width` columns and `height` rows.
///
/// Refused are a picture without columns or without rows, an animation without
/// frames, a scale of which `is_usable(scale)` returns `false` (the caller's
/// test that it is not zero), and a first rectangle of which
/// `is_oriented(init_upper_left, init_lower_right)` returns `false`. Nothing is
/// shrunk for a call that is refused.
///
/// The first frame is the rectangle between `init_upper_left` and
/// `init_lower_right`, unchanged. Each further frame is the result of
/// `shrink((width, height), num_frames, scale, upper_left, lower_right)` on the
/// corners of the frame before it, so the changes add up from frame to frame.
pub fn zoom_bounds<
    C: Copy,
    R: Copy,
    V: Fn(C, C) -> bool,
    U: Fn(R) -> bool,
    F: Fn((usize, usize), usize, R, C, C) -> (C, C),
>(
    width: usize,
    height: usize,
    init_upper_left: C,
    init_lower_right: C,
    scale: R,
    num_frames: usize,
    is_oriented: &V,
    is_usable: &U,
    shrink: &F,
) -> (result: Result<Vec<(C, C)>, RenderError>)
    requires
        width > 0 && height > 0 && num_frames > 0 ==> is_usable.requires((scale,)),
        width > 0 && height > 0 && num_frames > 0 ==> is_oriented.requires(
            (init_upper_left, init_lower_right),
        ),
        num_frames > 1 && is_usable.ensures((scale,), true) && is_oriented.ensures(
            (init_upper_left, init_lower_right),
            true,
        ) ==> can_zoom(
            (width, height),
            num_frames,
            scale,
            init_upper_left,
            init_lower_right,
            *shrink,
        ),
    ensures
        result is Ok ==> width > 0 && height > 0 && num_frames > 0,
        result is Ok ==> is_usable.ensures((scale,), true),
        result is Ok ==> is_oriented.ensures((init_upper_left, init_lower_right), true),
        result is Err ==> width == 0 || height == 0 || num_frames == 0 || is_usable.ensures(
            (scale,),
            false,
        ) || is_oriented.ensures((init_upper_left, init_lower_right), false),
        result matches Ok(frames) ==> is_zoom(
            (width, height),
            num_frames,
            scale,
            init_upper_left,
            init_lower_right,
            *shrink,
            frames@,
        ),
        result matches Ok(frames) ==> (num_frames == 1 ==> frames@ == seq![
            (init_upper_left, init_lower_right),
        ]),
        result matches Err(e) ==> e == RenderError::InvalidParameter,
{
    if width == 0 || height == 0 || num_frames == 0 {
        return Err(RenderError::InvalidParameter);
    }
    if !is_usable(scale) {
        return Err(RenderError::InvalidParameter);
    }
    if !is_oriented(init_upper_left, init_lower_right) {
        return Err(RenderError::InvalidParameter);
    }
    let bounds = (width, height);
    let mut frames: Vec<(C, C)> = Vec::new();
    let mut frame = (init_upper_left, init_lower_right);
    frames.push(frame);
    let mut made: usize = 1;
    while made < num_frames
        invariant
            1 <= made <= num_frames,
            bounds == (width, height),
            frames@.len() == made,
            frames@[made - 1] == frame,
            frames@[0] == (init_upper_left, init_lower_right),
            forall|k: int|
                1 <= k < frames@.len() ==> #[trigger] is_next_frame(
                    bounds,
                    num_frames,
                    scale,
                    *shrink,
                    frames@,
                    k,
                ),
            num_frames > 1 ==> can_zoom(
                bounds,
                num_frames,
                scale,
                init_upper_left,
                init_lower_right,
                *shrink,
            ),
            made < num_frames ==> shrink.requires((bounds, num_frames, scale, frame.0, frame.1)),
        decreases num_frames - made,
    {
        let ghost before = frames@;
        frame = shrink(bounds, num_frames, scale, frame.0, frame.1);
        frames.push(frame);
        made += 1;
        assert forall|k: int| 1 <= k < frames@.len() implies #[trigger] is_next_frame(
            bounds,
            num_frames,
            scale,
            *shrink,
            frames@,
            k,
        ) by {
            if k < before.len() {
                assert(is_next_frame(bounds, num_frames, scale, *shrink, before, k));
            }
        }
    }
    Ok(frames)
}

/// The pictures of an animation, each as a sequence of rows.
pub open spec fn pictures_of(renderings: Vec<Rendering>) -> Seq<Seq<Seq<u8>>> {
    Seq::new(renderings@.len(), |k: int| grid_of(renderings@[k]))
}

/// `is_oriented` accepts frame `k` of `frames`.
pub open spec fn is_accepted<C, V: Fn(C, C) -> bool>(
    is_oriented: V,
    frames: Seq<(C, C)>,
    k: int,
) -> bool {
    is_oriented.ensures((frames[k].0, frames[k].1), true)
}

/// `is_oriented` turns frame `k` of `frames` down.
pub open spec fn is_refused<C, V: Fn(C, C) -> bool>(
    is_oriented: V,
    frames: Seq<(C, C)>,
    k: int,
) -> bool {
    is_oriented.ensures((frames[k].0, frames[k].1), false)
}

/// `is_oriented` accepts every frame of `frames`.
pub open spec fn all_accepted<C, V: Fn(C, C) -> bool>(is_oriented: V, frames: Seq<(C, C)>) -> bool {
    forall|k: int| 0 <= k < frames.len() ==> #[trigger] is_accepted(is_oriented, frames, k)
}

/// `is_oriented` turns a frame of `frames` down.
pub open spec fn some_refused<C, V: Fn(C, C) -> bool>(is_oriented: V, frames: Seq<(C, C)>) -> bool {
    exists|k: int| 0 <= k < frames.len() && #[trigger] is_refused(is_oriented, frames, k)
}

/// Picture `k` of `pictures` shows frame `k` of `frames`.
pub open spec fn is_picture_of_frame<
    C,
    M: Fn((usize, usize), (usize, usize), C, C) -> C,
    S: Fn(C, C) -> (C, bool),
>(
    bounds: (usize, usize),
    frames: Seq<(C, C)>,
    point_at: M,
    start: C,
    step: S,
    pictures: Seq<Seq<Seq<u8>>>,
    k: int,
) -> bool {
    is_rendering(bounds, frames[k].0, frames[k].1, point_at, start, step, pictures[k])
}

/// `pictures` holds one picture for each frame of `frames`, in their order.
pub open spec fn is_animation<
    C,
    M: Fn((usize, usize), (usize, usize), C, C) -> C,
    S: Fn(C, C) -> (C, bool),
>(
    bounds: (usize, usize),
    frames: Seq<(C, C)>,
    point_at: M,
    start: C,
    step: S,
    pictures: Seq<Seq<Seq<u8>>>,
) -> bool {
    &&& pictures.len() == frames.len()
    &&& forall|k: int|
        0 <= k < frames.len() ==> #[trigger] is_picture_of_frame(
            bounds,
            frames,
            point_at,
            start,
            step,
            pictures,
            k,
        )
}

/// Renders one picture for each frame of an animation, in the order of the
/// frames, all on a grid of `bounds.0` columns and `bounds.1` rows.
///
/// Refused are a grid without columns or without rows, an animation without
/// frames, and an animation with a frame of which `is_oriented` returns
/// `false`. Every frame is tested before the first is rendered.
pub fn render_animation<
    C: Copy,
    V: Fn(C, C) -> bool,
    M: Fn((usize, usize), (usize, usize), C, C) -> C,
    S: Fn(C, C) -> (C, bool),
>(
    bounds: (usize, usize),
    frames: &Vec<(C, C)>,
    is_oriented: &V,
    point_at: &M,
    start: C,
    step: &S,
) -> (result: Result<Vec<Rendering>, RenderError>)
    requires
        bounds.0 > 0 && bounds.1 > 0 ==> forall|k: int|
            0 <= k < frames@.len() ==> is_oriented.requires(
                ((#[trigger] frames@[k]).0, frames@[k].1),
            ),
        forall|k: int|
            0 <= k < frames@.len() && #[trigger] is_accepted(*is_oriented, frames@, k)
                ==> can_render(bounds, frames@[k].0, frames@[k].1, *point_at, start, *step),
    ensures
        result is Ok ==> bounds.0 > 0 && bounds.1 > 0 && frames@.len() > 0,
        result is Ok ==> all_accepted(*is_oriented, frames@),
        result is Err ==> bounds.0 == 0 || bounds.1 == 0 || frames@.len() == 0 || some_refused(
            *is_oriented,
            frames@,
        ),
        result matches Ok(renderings) ==> is_animation(
            bounds,
            frames@,
            *point_at,
            start,
            *step,
            pictures_of(renderings),
        ),
        result matches Err(e) ==> e == RenderError::InvalidParameter,
{
    if bounds.0 == 0 || bounds.1 == 0 || frames.len() == 0 {
        return Err(RenderError::InvalidParameter);
    }
    let mut checked: usize = 0;
    while checked < frames.len()
        invariant
            checked <= frames.len(),
            forall|k: int|
                0 <= k < frames@.len() ==> is_oriented.requires(
                    ((#[trigger] frames@[k]).0, frames@[k].1),
                ),
            forall|k: int| 0 <= k < checked ==> #[trigger] is_accepted(*is_oriented, frames@, k),
        decreases frames.len() - checked,
    {
        let frame = frames[checked];
        if !is_oriented(frame.0, frame.1) {
            assert(is_refused(*is_oriented, frames@, checked as int));
            return Err(RenderError::InvalidParameter);
        }
        assert(is_accepted(*is_oriented, frames@, checked as int));
        checked += 1;
    }
    let mut renderings: Vec<Rendering> = Vec::new();
    let mut done: usize = 0;
    while done < frames.len()
        invariant
            done <= frames.len(),
            renderings@.len() == done,
            forall|k: int| 0 <= k < frames@.len() ==> #[trigger] is_accepted(*is_oriented, frames@, k),
            forall|k: int|
                0 <= k < frames@.len() && #[trigger] is_accepted(*is_oriented, frames@, k)
                    ==> can_render(bounds, frames@[k].0, frames@[k].1, *point_at, start, *step),
            forall|k: int|
                0 <= k < done ==> is_rendering(
                    bounds,
                    frames@[k].0,
                    frames@[k].1,
                    *point_at,
                    start,
                    *step,
                    grid_of(#[trigger] renderings@[k]),
                ),
        decreases frames.len() - done,
    {
        let frame = frames[done];
        assert(is_accepted(*is_oriented, frames@, done as int));
        renderings.push(fill(bounds, frame.0, frame.1, point_at, start, step));
        done += 1;
    }
    proof {
        let pictures = pictures_of(renderings);
        assert forall|k: int| 0 <= k < frames@.len() implies #[trigger] is_picture_of_frame(
            bounds,
            frames@,
            *point_at,
            start,
            *step,
            pictures,
            k,
        ) by {
            assert(pictures[k] == grid_of(renderings@[k]));
        }
    }
    Ok(renderings)
}

/// An animation of one frame is the still picture: its zoom holds the first
/// rectangle and nothing else, and, with a deterministic `point_at` and a
/// deterministic `step`, its one picture is the rendering of that rectangle.
pub proof fn lemma_single_frame_animation<
    C,
    R,
    F: Fn((usize, usize), usize, R, C, C) -> (C, C),
    M: Fn((usize, usize), (usize, usize), C, C) -> C,
    S: Fn(C, C) -> (C, bool),
>(
    bounds: (usize, usize),
    scale: R,
    upper_left: C,
    lower_right: C,
    shrink: F,
    point_at: M,
    start: C,
    step: S,
    frames: Seq<(C, C)>,
    pictures: Seq<Seq<Seq<u8>>>,
    still: Seq<Seq<u8>>,
)
    requires
        is_deterministic_map(point_at),
        is_deterministic_step(step),
        is_zoom(bounds, 1, scale, upper_left, lower_right, shrink, frames),
        is_animation(bounds, frames, point_at, start, step, pictures),
        is_rendering(bounds, upper_left, lower_right, point_at, start, step, still),
    ensures
        frames == seq![(upper_left, lower_right)],
        pictures == seq![still],
{
    assert(is_picture_of_frame(bounds, frames, point_at, start, step, pictures, 0));
    lemma_render_deterministic(
        bounds,
        upper_left,
        lower_right,
        point_at,
        start,
        step,
        pictures[0],
        still,
    );
}

} // verus!
