use mandelbrot::{render, rendering_to_pixels, RenderError, Rendering, ESCAPE_LIMIT};
use num::Complex;
use std::cell::{Cell, RefCell};

fn origin() -> Complex<f64> {
    Complex::new(0.0, 0.0)
}

fn quadratic(c: Complex<f64>, z: Complex<f64>) -> (Complex<f64>, bool) {
    let next = z * z + c;
    (next, next.norm_sqr() > 4.0)
}

fn pixel_to_point(
    bounds: (usize, usize),
    pixel: (usize, usize),
    upper_left: Complex<f64>,
    lower_right: Complex<f64>,
) -> Complex<f64> {
    let width = lower_right.re - upper_left.re;
    let height = upper_left.im - lower_right.im;
    Complex::new(
        upper_left.re + pixel.0 as f64 * width / bounds.0 as f64,
        upper_left.im - pixel.1 as f64 * height / bounds.1 as f64,
    )
}

fn is_oriented(upper_left: Complex<f64>, lower_right: Complex<f64>) -> bool {
    upper_left.re < lower_right.re && upper_left.im > lower_right.im
}

fn mandelbrot(bounds: (usize, usize), upper_left: (f64, f64), lower_right: (f64, f64)) -> Result<Rendering, RenderError> {
    render(
        bounds,
        Complex::new(upper_left.0, upper_left.1),
        Complex::new(lower_right.0, lower_right.1),
        &is_oriented,
        &pixel_to_point,
        origin(),
        &quadratic,
    )
}

// On the integer kernel every pair of corners counts as a rectangle.
fn any_corners(_upper_left: u32, _lower_right: u32) -> bool {
    true
}

// A kernel on integers: the point of a pixel is a number, and its orbit
// escapes in the round of that number.
fn counting(c: u32, z: u32) -> (u32, bool) {
    (z + 1, z + 1 > c)
}

#[test]
fn cap_is_two_hundred_and_fifty_five_rounds() {
    assert_eq!(ESCAPE_LIMIT, 255);
}

#[test]
fn renders_the_square_around_the_origin() {
    let picture: Rendering = mandelbrot((4, 4), (-1.0, 1.0), (1.0, -1.0)).unwrap();
    let expected: Rendering = vec![
        vec![253, 252, 0, 254],
        vec![251, 0, 0, 251],
        vec![0, 0, 0, 251],
        vec![251, 0, 0, 251],
    ];
    assert_eq!(picture, expected);
}

#[test]
fn square_around_the_origin_mirrors_at_the_real_axis() {
    let picture: Rendering = mandelbrot((4, 4), (-1.0, 1.0), (1.0, -1.0)).unwrap();
    // Row 2 lies on the real axis; rows 1 and 3 lie half a unit above and below it.
    assert_eq!(picture[1], picture[3]);
    // The sampled points are not symmetric about the origin, and neither is the picture.
    let mut rotated: Rendering = picture.clone();
    rotated.reverse();
    for line in rotated.iter_mut() {
        line.reverse();
    }
    assert_ne!(picture, rotated);
    assert_eq!(picture[0][0], 253);
    assert_eq!(picture[3][3], 251);
}

#[test]
fn renders_a_detail_of_the_boundary() {
    let picture: Rendering = mandelbrot((8, 6), (-1.2, 0.35), (-1.0, 0.20)).unwrap();
    let expected: Rendering = vec![
        vec![247, 247, 247, 248, 248, 247, 244, 242],
        vec![241, 245, 241, 246, 247, 246, 244, 236],
        vec![240, 229, 236, 238, 244, 245, 243, 239],
        vec![243, 236, 32, 224, 240, 222, 239, 228],
        vec![241, 222, 0, 0, 232, 215, 0, 0],
        vec![241, 199, 0, 0, 0, 0, 0, 0],
    ];
    assert_eq!(picture, expected);
}

#[test]
fn rendering_twice_gives_identical_bytes() {
    let first: Rendering = mandelbrot((16, 12), (-1.2, 0.35), (-1.0, 0.20)).unwrap();
    let second: Rendering = mandelbrot((16, 12), (-1.2, 0.35), (-1.0, 0.20)).unwrap();
    assert_eq!(first, second);
    assert_eq!(rendering_to_pixels(&first), rendering_to_pixels(&second));
}

#[test]
fn rendering_has_height_rows_of_width_columns() {
    let picture: Rendering = mandelbrot((7, 3), (-2.0, 1.0), (1.0, -1.0)).unwrap();
    assert_eq!(picture.len(), 3);
    for line in picture.iter() {
        assert_eq!(line.len(), 7);
    }
    assert_eq!(rendering_to_pixels(&picture).len(), 21);
}

#[test]
fn single_pixel_shows_the_upper_left_corner() {
    let inside: Rendering = mandelbrot((1, 1), (0.0, 0.0), (1.0, -1.0)).unwrap();
    assert_eq!(inside, vec![vec![0]]);
    let outside: Rendering = mandelbrot((1, 1), (3.0, 0.0), (4.0, -1.0)).unwrap();
    assert_eq!(outside, vec![vec![255]]);
}

#[test]
fn grid_without_columns_or_rows_is_refused() {
    assert_eq!(mandelbrot((0, 4), (-1.0, 1.0), (1.0, -1.0)), Err(RenderError::InvalidParameter));
    assert_eq!(mandelbrot((4, 0), (-1.0, 1.0), (1.0, -1.0)), Err(RenderError::InvalidParameter));
    assert_eq!(mandelbrot((0, 0), (-1.0, 1.0), (1.0, -1.0)), Err(RenderError::InvalidParameter));
}

#[test]
fn refused_grid_maps_no_pixel() {
    let calls: Cell<u32> = Cell::new(0);
    let point_at = |_bounds: (usize, usize), _pixel: (usize, usize), _ul: u32, _lr: u32| {
        calls.set(calls.get() + 1);
        0u32
    };
    assert_eq!(render((0, 9), 0u32, 0u32, &any_corners, &point_at, 0u32, &counting), Err(RenderError::InvalidParameter));
    assert_eq!(render((9, 0), 0u32, 0u32, &any_corners, &point_at, 0u32, &counting), Err(RenderError::InvalidParameter));
    assert_eq!(calls.get(), 0);
}

#[test]
fn pixel_is_stored_at_row_then_column() {
    let point_at = |_bounds: (usize, usize), pixel: (usize, usize), _ul: u32, _lr: u32| {
        (pixel.0 + 10 * pixel.1) as u32
    };
    let picture: Rendering = render((4, 3), 0u32, 0u32, &any_corners, &point_at, 0u32, &counting).unwrap();
    let expected: Rendering = vec![
        vec![255, 254, 253, 252],
        vec![245, 244, 243, 242],
        vec![235, 234, 233, 232],
    ];
    assert_eq!(picture, expected);
}

#[test]
fn mapper_receives_bounds_pixel_and_corners() {
    let seen: RefCell<Vec<((usize, usize), (usize, usize), u32, u32)>> = RefCell::new(Vec::new());
    let point_at = |bounds: (usize, usize), pixel: (usize, usize), ul: u32, lr: u32| {
        seen.borrow_mut().push((bounds, pixel, ul, lr));
        0u32
    };
    render((2, 2), 11u32, 22u32, &any_corners, &point_at, 0u32, &counting).unwrap();
    let expected: Vec<((usize, usize), (usize, usize), u32, u32)> = vec![
        ((2, 2), (0, 0), 11, 22),
        ((2, 2), (1, 0), 11, 22),
        ((2, 2), (0, 1), 11, 22),
        ((2, 2), (1, 1), 11, 22),
    ];
    assert_eq!(*seen.borrow(), expected);
}

#[test]
fn every_orbit_begins_in_the_start_state() {
    // The state counts up from the start, so a later start escapes earlier.
    let point_at = |_bounds: (usize, usize), _pixel: (usize, usize), _ul: u32, _lr: u32| 10u32;
    let from_zero: Rendering = render((3, 1), 0u32, 0u32, &any_corners, &point_at, 0u32, &counting).unwrap();
    assert_eq!(from_zero, vec![vec![245, 245, 245]]);
    let from_four: Rendering = render((3, 1), 0u32, 0u32, &any_corners, &point_at, 4u32, &counting).unwrap();
    assert_eq!(from_four, vec![vec![249, 249, 249]]);
}

#[test]
fn orbit_is_given_up_after_the_cap() {
    let point_at = |_bounds: (usize, usize), pixel: (usize, usize), _ul: u32, _lr: u32| {
        (253 + pixel.0) as u32
    };
    // Escapes in rounds 253 and 254 are seen; one in round 255 would lie beyond the cap.
    let picture: Rendering = render((4, 1), 0u32, 0u32, &any_corners, &point_at, 0u32, &counting).unwrap();
    assert_eq!(picture, vec![vec![2, 1, 0, 0]]);
}

#[test]
fn bounded_orbit_is_black_and_instant_escape_is_white() {
    let point_at = |_bounds: (usize, usize), pixel: (usize, usize), _ul: u32, _lr: u32| pixel.0 as u32;
    let never = |_c: u32, z: u32| (z, false);
    let at_once = |_c: u32, z: u32| (z, true);
    assert_eq!(render((2, 2), 0u32, 0u32, &any_corners, &point_at, 0u32, &never), Ok(vec![vec![0, 0], vec![0, 0]]));
    assert_eq!(
        render((2, 2), 0u32, 0u32, &any_corners, &point_at, 0u32, &at_once),
        Ok(vec![vec![255, 255], vec![255, 255]])
    );
}

// The same picture by the plain double loop, for comparison.
fn plain_picture(bounds: (usize, usize), upper_left: Complex<f64>, lower_right: Complex<f64>) -> Rendering {
    let mut pixels: Rendering = vec![vec![0; bounds.0]; bounds.1];
    for row in 0..bounds.1 {
        for col in 0..bounds.0 {
            let c = pixel_to_point(bounds, (col, row), upper_left, lower_right);
            let mut z = Complex::new(0.0, 0.0);
            let mut level: u8 = 0;
            for i in 0..255u8 {
                z = z * z + c;
                if z.norm_sqr() > 4.0 {
                    level = 255 - i;
                    break;
                }
            }
            pixels[row][col] = level;
        }
    }
    pixels
}

#[test]
fn agrees_with_the_plain_double_loop() {
    let regions: [((f64, f64), (f64, f64)); 4] = [
        ((-2.0, 1.0), (1.0, -1.0)),
        ((-1.2, 0.35), (-1.0, 0.20)),
        ((-0.75, 0.1), (-0.74, 0.09)),
        ((0.25, 0.01), (0.26, 0.0)),
    ];
    let sizes: [(usize, usize); 3] = [(1, 1), (9, 5), (20, 13)];
    for (upper_left, lower_right) in regions {
        for bounds in sizes {
            let ul = Complex::new(upper_left.0, upper_left.1);
            let lr = Complex::new(lower_right.0, lower_right.1);
            assert_eq!(mandelbrot(bounds, upper_left, lower_right), Ok(plain_picture(bounds, ul, lr)));
        }
    }
}

#[test]
fn degenerate_rectangle_is_refused() {
    assert_eq!(mandelbrot((4, 4), (0.5, 0.5), (0.5, 0.5)), Err(RenderError::InvalidParameter));
    assert_eq!(mandelbrot((1, 1), (5.0, 5.0), (5.0, 5.0)), Err(RenderError::InvalidParameter));
    // No width, and no height.
    assert_eq!(mandelbrot((4, 4), (-1.0, 1.0), (-1.0, -1.0)), Err(RenderError::InvalidParameter));
    assert_eq!(mandelbrot((4, 4), (-1.0, 1.0), (1.0, 1.0)), Err(RenderError::InvalidParameter));
}

#[test]
fn flipped_rectangle_is_refused() {
    assert_eq!(mandelbrot((4, 4), (1.0, -1.0), (-1.0, 1.0)), Err(RenderError::InvalidParameter));
    // Left and right exchanged, and top and bottom exchanged.
    assert_eq!(mandelbrot((4, 4), (1.0, 1.0), (-1.0, -1.0)), Err(RenderError::InvalidParameter));
    assert_eq!(mandelbrot((4, 4), (-1.0, -1.0), (1.0, 1.0)), Err(RenderError::InvalidParameter));
}

#[test]
fn infinite_flipped_corners_are_refused() {
    assert_eq!(
        mandelbrot((2, 2), (f64::INFINITY, f64::NEG_INFINITY), (f64::NEG_INFINITY, f64::INFINITY)),
        Err(RenderError::InvalidParameter)
    );
}

#[test]
fn corners_that_are_no_numbers_are_refused() {
    assert_eq!(mandelbrot((2, 2), (f64::NAN, 1.0), (1.0, -1.0)), Err(RenderError::InvalidParameter));
    assert_eq!(mandelbrot((2, 2), (-1.0, 1.0), (1.0, f64::NAN)), Err(RenderError::InvalidParameter));
}

#[test]
fn refused_rectangle_maps_no_pixel() {
    let calls: Cell<u32> = Cell::new(0);
    let point_at = |_bounds: (usize, usize), _pixel: (usize, usize), _ul: u32, _lr: u32| {
        calls.set(calls.get() + 1);
        0u32
    };
    let left_of = |upper_left: u32, lower_right: u32| upper_left < lower_right;
    assert_eq!(render((3, 3), 7u32, 7u32, &left_of, &point_at, 0u32, &counting), Err(RenderError::InvalidParameter));
    assert_eq!(render((3, 3), 9u32, 2u32, &left_of, &point_at, 0u32, &counting), Err(RenderError::InvalidParameter));
    assert_eq!(calls.get(), 0);
    assert!(render((3, 3), 2u32, 9u32, &left_of, &point_at, 0u32, &counting).is_ok());
    assert_eq!(calls.get(), 9);
}

#[test]
fn corners_are_tested_once_and_as_given() {
    let seen: RefCell<Vec<(u32, u32)>> = RefCell::new(Vec::new());
    let remember = |upper_left: u32, lower_right: u32| {
        seen.borrow_mut().push((upper_left, lower_right));
        true
    };
    let point_at = |_bounds: (usize, usize), _pixel: (usize, usize), _ul: u32, _lr: u32| 0u32;
    render((2, 2), 11u32, 22u32, &remember, &point_at, 0u32, &counting).unwrap();
    assert_eq!(*seen.borrow(), vec![(11, 22)]);
}

#[test]
fn corners_of_an_empty_grid_are_not_tested() {
    let calls: Cell<u32> = Cell::new(0);
    let count = |_upper_left: u32, _lower_right: u32| {
        calls.set(calls.get() + 1);
        true
    };
    let point_at = |_bounds: (usize, usize), _pixel: (usize, usize), _ul: u32, _lr: u32| 0u32;
    assert_eq!(render((0, 2), 1u32, 2u32, &count, &point_at, 0u32, &counting), Err(RenderError::InvalidParameter));
    assert_eq!(calls.get(), 0);
}
