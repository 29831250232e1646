use showcase::fractal::{escape_color, render_tile_with, RenderError, RenderedTile};

/// A rectangular region of the complex plane, as the worker receives it.
#[derive(Clone, Copy)]
struct Region {
    min_re: f64,
    max_re: f64,
    min_im: f64,
    max_im: f64,
}

/// Escape-time iteration of the point `c`, in `f64`.
fn escape_iteration(c_re: f64, c_im: f64, max_iterations: u32) -> Option<u32> {
    let (mut z_re, mut z_im) = (0.0_f64, 0.0_f64);
    for iteration in 1..=max_iterations {
        let next_re = z_re * z_re - z_im * z_im + c_re;
        z_im = 2.0 * z_re * z_im + c_im;
        z_re = next_re;
        if z_re * z_re + z_im * z_im > 4.0 {
            return Some(iteration);
        }
    }
    None
}

/// Render a tile of `region`, sampling the centre of each pixel.
fn render(region: Region, width: u32, height: u32, max_iterations: u32) -> Result<RenderedTile, RenderError> {
    let region_is_valid = [region.min_re, region.max_re, region.min_im, region.max_im]
        .into_iter()
        .all(f64::is_finite)
        && region.min_re <= region.max_re
        && region.min_im <= region.max_im;
    render_tile_with(width, height, max_iterations, region_is_valid, |x, y| {
        let im = region.max_im - (y as f64 + 0.5) / height as f64 * (region.max_im - region.min_im);
        let re = region.min_re + (x as f64 + 0.5) / width as f64 * (region.max_re - region.min_re);
        escape_iteration(re, im, max_iterations)
    })
}

fn full_view() -> Region {
    Region { min_re: -2.0, max_re: 1.0, min_im: -1.0, max_im: 1.0 }
}

fn point(re: f64, im: f64) -> Region {
    Region { min_re: re, max_re: re, min_im: im, max_im: im }
}

#[test]
fn rendered_tile_has_rgb8_dimensions_and_pixel_count() {
    let tile = render(full_view(), 3, 2, 64).unwrap();

    assert_eq!((tile.width, tile.height), (3, 2));
    assert_eq!(tile.pixels.len(), 3 * 2 * 3);
}

#[test]
fn render_output_is_deterministic() {
    assert_eq!(render(point(-0.5, 0.25), 1, 1, 100), render(point(-0.5, 0.25), 1, 1, 100));
}

#[test]
fn reference_tile_has_expected_fnv1a_checksum() {
    let tile = render(full_view(), 4, 3, 32).unwrap();
    let checksum = tile.pixels.iter().fold(0x811c_9dc5_u32, |hash, byte| {
        (hash ^ u32::from(*byte)).wrapping_mul(0x0100_0193)
    });

    assert_eq!(checksum, 0xf4c9_220e);
}

#[test]
fn points_inside_the_set_are_black() {
    assert_eq!(render(point(0.0, 0.0), 1, 1, 100).unwrap().pixels, [0, 0, 0]);
}

#[test]
fn points_outside_the_set_use_the_escape_gradient() {
    let pixel = &render(point(2.0, 0.0), 1, 1, 100).unwrap().pixels;

    assert_ne!(pixel, &[0, 0, 0]);
    assert_eq!(pixel.len(), 3);
}

#[test]
fn zero_dimensions_are_rejected() {
    assert_eq!(render(point(0.0, 0.0), 0, 1, 100), Err(RenderError::EmptyDimensions));
}

#[test]
fn non_finite_region_bounds_are_rejected() {
    let mut region = point(0.0, 0.0);
    region.max_re = f64::INFINITY;

    assert_eq!(render(region, 1, 1, 100), Err(RenderError::InvalidRegion));
}

#[test]
fn sampled_tile_has_rgb8_dimensions_and_pixel_count() {
    let tile = render_tile_with(3, 2, 64, true, |_, _| None).unwrap();

    assert_eq!((tile.width, tile.height), (3, 2));
    assert_eq!(tile.pixels.len(), 3 * 2 * 3);
}

#[test]
fn points_that_never_escape_are_black() {
    let tile = render_tile_with(1, 1, 100, true, |_, _| None).unwrap();
    assert_eq!(tile.pixels, [0, 0, 0]);
}

#[test]
fn escaping_points_use_the_escape_gradient() {
    assert_eq!(escape_color(Some(1), 100), (2, 4, 253));
    assert_eq!(escape_color(Some(50), 100), (127, 254, 128));
    assert_eq!(escape_color(Some(51), 100), (130, 255, 125));
    assert_eq!(escape_color(Some(100), 100), (255, 255, 0));
    assert_eq!(escape_color(Some(3), 0), (253, 255, 2));
    assert_eq!(escape_color(None, 100), (0, 0, 0));
}

#[test]
fn pixels_are_laid_out_row_major() {
    let tile = render_tile_with(2, 2, 4, true, |x, y| Some(x + 2 * y + 1)).unwrap();
    assert_eq!(
        tile.pixels,
        [63, 126, 192, 127, 254, 128, 191, 255, 64, 255, 255, 0]
    );
}

#[test]
fn tile_errors_come_in_order() {
    assert_eq!(
        render_tile_with(0, 1, 100, false, |_, _| None),
        Err(RenderError::EmptyDimensions)
    );
    assert_eq!(
        render_tile_with(1, 0, 100, true, |_, _| None),
        Err(RenderError::EmptyDimensions)
    );
    assert_eq!(
        render_tile_with(1, 1, 100, false, |_, _| None),
        Err(RenderError::InvalidRegion)
    );
    assert_eq!(
        render_tile_with(u32::MAX, u32::MAX, 100, true, |_, _| None),
        Err(RenderError::DimensionsTooLarge)
    );
}

#[test]
fn tile_errors_describe_themselves() {
    assert_eq!(
        RenderError::InvalidRegion.message(),
        "complex region bounds must be finite and ordered"
    );
    assert_eq!(RenderError::EmptyDimensions.message(), "tile dimensions must be non-zero");
    assert_eq!(RenderError::DimensionsTooLarge.message(), "tile pixel buffer is too large");
}
