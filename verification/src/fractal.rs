use vstd::prelude::*;

use crate::buffer::try_reserve_exact;
use crate::image::rgb_offset;
use vstd::arithmetic::div_mod::{lemma_fundamental_div_mod, lemma_mod_pos_bound};

verus! {

/// Rendered tile pixels in row-major RGB8 format.
#[derive(Debug, Clone, PartialEq, Eq)]
pub struct RenderedTile {
    /// Number of pixels across.
    pub width: u32,
    /// Number of pixels down.
    pub height: u32,
    /// Three bytes (red, green, blue) per pixel, from top-left to bottom-right.
    pub pixels: Vec<u8>,
}

/// Reasons a tile cannot be represented or rendered.
#[derive(Debug, Clone, Copy, PartialEq, Eq, Structural)]
pub enum RenderError {
    /// A tile must have non-zero width and height.
    EmptyDimensions,
    /// Region bounds must be finite and ordered.
    InvalidRegion,
    /// The requested pixel buffer is too large to allocate.
    DimensionsTooLarge,
}

/// The description of each tile rendering error.
pub open spec fn tile_error_text(error: RenderError) -> Seq<char> {
    match error {
        RenderError::EmptyDimensions => "tile dimensions must be non-zero"@,
        RenderError::InvalidRegion => "complex region bounds must be finite and ordered"@,
        RenderError::DimensionsTooLarge => "tile pixel buffer is too large"@,
    }
}

impl RenderError {
    /// The human-readable description of the error.
    pub fn message(&self) -> (text: &'static str)
        ensures
            text@ == tile_error_text(*self),
    {
        match self {
            RenderError::EmptyDimensions => "tile dimensions must be non-zero",
            RenderError::InvalidRegion => "complex region bounds must be finite and ordered",
            RenderError::DimensionsTooLarge => "tile pixel buffer is too large",
        }
    }
}

/// Brightness of a point that escapes after `iterations` of at most
/// `max_iterations` steps: `iterations * 255 / max(max_iterations, 1)`,
/// truncated to a byte.
pub open spec fn escape_intensity(iterations: u32, max_iterations: u32) -> u8 {
    ((iterations * 255) / (if max_iterations == 0 {
        1
    } else {
        max_iterations as int
    })) as u8
}

/// Colour of a point: black for a point that never escapes, otherwise the
/// escape gradient `(t, min(2t, 255), 255 - t)` of its intensity `t`.
pub open spec fn escape_rgb(escape: Option<u32>, max_iterations: u32) -> (u8, u8, u8) {
    match escape {
        None => (0, 0, 0),
        Some(iterations) => {
            let t = escape_intensity(iterations, max_iterations);
            (t, if 2 * t > 255 {
                255
            } else {
                (2 * t) as u8
            }, (255 - t) as u8)
        },
    }
}

/// The colour of a point from its escape iteration.
pub fn escape_color(escape: Option<u32>, max_iterations: u32) -> (rgb: (u8, u8, u8))
    ensures
        rgb == escape_rgb(escape, max_iterations),
        (match escape {
            None => rgb == (0u8, 0u8, 0u8),
            Some(iterations) => 1 <= iterations <= max_iterations ==> {
                &&& rgb.0 * max_iterations <= iterations * 255 < (rgb.0 + 1) * max_iterations
                &&& rgb.1 == (if 2 * rgb.0 > 255 { 255 } else { 2 * rgb.0 })
                &&& rgb.2 == 255 - rgb.0
            },
        }),
{
    proof {
        if let Some(iterations) = escape {
            if 1 <= iterations && iterations <= max_iterations {
                lemma_escape_gradient(iterations, max_iterations);
            }
        }
    }
    match escape {
        None => (0, 0, 0),
        Some(iterations) => {
            let divisor: u64 = if max_iterations > 1 {
                max_iterations as u64
            } else {
                1
            };
            let scaled = (iterations as u64) * 255 / divisor;
            let intensity = #[verifier::truncate] (scaled as u8);
            let green = if intensity > 127 {
                255
            } else {
                intensity * 2
            };
            (intensity, green, 255 - intensity)
        },
    }
}

/// Law: the escape gradient scales the whole iteration count. For a point
/// that escapes after `iterations` of at most `max_iterations` steps, the
/// red channel `t` is the largest byte with `t * max_iterations <=
/// iterations * 255`, green is `2t` capped at 255, and blue is `255 - t`.
pub proof fn lemma_escape_gradient(iterations: u32, max_iterations: u32)
    requires
        1 <= iterations <= max_iterations,
    ensures
        ({
            let rgb = escape_rgb(Some(iterations), max_iterations);
            &&& rgb.0 * max_iterations <= iterations * 255 < (rgb.0 + 1) * max_iterations
            &&& rgb.1 == (if 2 * rgb.0 > 255 { 255 } else { 2 * rgb.0 })
            &&& rgb.2 == 255 - rgb.0
        }),
{
    let m = max_iterations as int;
    let n = iterations * 255;
    let q = n / m;
    lemma_fundamental_div_mod(n, m);
    lemma_mod_pos_bound(n, m);
    assert(0 <= q <= 255) by (nonlinear_arith)
        requires
            n == m * q + n % m,
            0 <= n % m < m,
            0 <= n <= m * 255,
            m > 0,
    ;
    assert(q * m <= n < (q + 1) * m) by (nonlinear_arith)
        requires
            n == m * q + n % m,
            0 <= n % m < m,
    ;
}

/// Law: the escape gradient grows with the escape iteration. Of two points
/// escaping within `max_iterations` steps, the later one is no darker in red.
pub proof fn lemma_escape_gradient_monotone(first: u32, second: u32, max_iterations: u32)
    requires
        1 <= first <= second <= max_iterations,
    ensures
        escape_rgb(Some(first), max_iterations).0 <= escape_rgb(Some(second), max_iterations).0,
{
    lemma_escape_gradient(first, max_iterations);
    lemma_escape_gradient(second, max_iterations);
    let a = escape_rgb(Some(first), max_iterations).0 as int;
    let b = escape_rgb(Some(second), max_iterations).0 as int;
    let m = max_iterations as int;
    assert(a <= b) by (nonlinear_arith)
        requires
            a * m <= first * 255,
            second * 255 < (b + 1) * m,
            first <= second,
            m > 0,
    ;
}

/// The three bytes of the pixel at column `x` and row `y`.
pub open spec fn pixel_at(pixels: Seq<u8>, width: u32, x: int, y: int) -> (u8, u8, u8) {
    (
        pixels[rgb_offset(width as int, x, y, 0)],
        pixels[rgb_offset(width as int, x, y, 1)],
        pixels[rgb_offset(width as int, x, y, 2)],
    )
}

/// Whether the pixel at `(x, y)` has the colour of an escape iteration that
/// `escape_at` may return for it.
pub open spec fn renders_pixel<F: Fn(u32, u32) -> Option<u32>>(
    pixels: Seq<u8>,
    width: u32,
    max_iterations: u32,
    escape_at: F,
    x: u32,
    y: u32,
) -> bool {
    exists|escape: Option<u32>|
        #[trigger] escape_at.ensures((x, y), escape) && pixel_at(pixels, width, x as int, y as int)
            == escape_rgb(escape, max_iterations)
}

/// Whether the pixel `(px, py)` comes before `(x, y)` in row-major order.
pub open spec fn before_in_rows(px: int, py: int, x: int, y: int) -> bool {
    py < y || (py == y && px < x)
}

proof fn lemma_earlier_pixel_offset(width: int, px: int, py: int, x: int, y: int, channel: int)
    requires
        0 <= px < width,
        0 <= py,
        0 <= x <= width,
        before_in_rows(px, py, x, y),
        0 <= channel < 3,
    ensures
        0 <= rgb_offset(width, px, py, channel) < (y * width + x) * 3,
{
    assert(0 <= rgb_offset(width, px, py, channel) < (y * width + x) * 3) by (nonlinear_arith)
        requires
            0 <= px < width,
            0 <= py,
            0 <= x <= width,
            py < y || (py == y && px < x),
            0 <= channel < 3,
    ;
}

/// Render a tile as row-major RGB8 pixels, sampling each pixel with
/// `escape_at`, which gives the escape iteration of the pixel at a column and
/// row, or `None` for a point inside the set.
///
/// Checks come in this order: the tile must have pixels, its region must be
/// valid (`region_is_valid`), and its buffer must fit in memory: either its
/// size overflows `usize` or the allocator refuses it, both reported as
/// `DimensionsTooLarge`. The pixels themselves come from `fill_tile`.
pub fn render_tile_with<F: Fn(u32, u32) -> Option<u32>>(
    width: u32,
    height: u32,
    max_iterations: u32,
    region_is_valid: bool,
    escape_at: F,
) -> (result: Result<RenderedTile, RenderError>)
    requires
        forall|x: u32, y: u32| x < width && y < height ==> #[trigger] escape_at.requires((x, y)),
    ensures
        (width == 0 || height == 0) ==> result matches Err(RenderError::EmptyDimensions),
        width > 0 && height > 0 && !region_is_valid ==> result matches Err(RenderError::InvalidRegion),
        width > 0 && height > 0 && region_is_valid && width * height * 3 > usize::MAX ==> result
            matches Err(RenderError::DimensionsTooLarge),
        result is Err && width > 0 && height > 0 && region_is_valid ==> result matches Err(RenderError::DimensionsTooLarge),
        result matches Ok(tile) ==> {
            &&& width > 0 && height > 0 && region_is_valid
            &&& tile.width == width
            &&& tile.height == height
            &&& tile.pixels@.len() == width * height * 3
            &&& forall|x: u32, y: u32|
                x < width && y < height ==> #[trigger] renders_pixel(
                    tile.pixels@,
                    width,
                    max_iterations,
                    escape_at,
                    x,
                    y,
                )
        },
{
    if width == 0 || height == 0 {
        return Err(RenderError::EmptyDimensions);
    }
    if !region_is_valid {
        return Err(RenderError::InvalidRegion);
    }
    let capacity = match (width as usize).checked_mul(height as usize) {
        Some(area) => match area.checked_mul(3) {
            Some(len) => len,
            None => return Err(RenderError::DimensionsTooLarge),
        },
        None => return Err(RenderError::DimensionsTooLarge),
    };
    let mut pixels: Vec<u8> = Vec::new();
    if !try_reserve_exact(&mut pixels, capacity) {
        return Err(RenderError::DimensionsTooLarge);
    }
    Ok(fill_tile(pixels, width, height, max_iterations, escape_at))
}

/// Fills the empty `pixels` with a `width` by `height` tile in row-major
/// RGB8 order, colouring each pixel by the escape iteration that `escape_at`
/// gives for its column and row.
pub fn fill_tile<F: Fn(u32, u32) -> Option<u32>>(
    pixels: Vec<u8>,
    width: u32,
    height: u32,
    max_iterations: u32,
    escape_at: F,
) -> (tile: RenderedTile)
    requires
        pixels@.len() == 0,
        width > 0,
        height > 0,
        width * height * 3 <= usize::MAX,
        forall|x: u32, y: u32| x < width && y < height ==> #[trigger] escape_at.requires((x, y)),
    ensures
        tile.width == width,
        tile.height == height,
        tile.pixels@.len() == width * height * 3,
        forall|x: u32, y: u32|
            x < width && y < height ==> #[trigger] renders_pixel(
                tile.pixels@,
                width,
                max_iterations,
                escape_at,
                x,
                y,
            ),
{
    let mut pixels = pixels;
    let ghost capacity: int = width * height * 3;
    let mut y: u32 = 0;
    while y < height
        invariant
            width > 0,
            y <= height,
            capacity == width * height * 3,
            forall|x: u32, y: u32| x < width && y < height ==> #[trigger] escape_at.requires((x, y)),
            pixels@.len() == (y * width) * 3,
            forall|px: u32, py: u32|
                px < width && py < y ==> #[trigger] renders_pixel(
                    pixels@,
                    width,
                    max_iterations,
                    escape_at,
                    px,
                    py,
                ),
        decreases height - y,
    {
        let mut x: u32 = 0;
        while x < width
            invariant
                width > 0,
                y < height,
                x <= width,
                capacity == width * height * 3,
                forall|x: u32, y: u32| x < width && y < height ==> #[trigger] escape_at.requires((x, y)),
                pixels@.len() == (y * width + x) * 3,
                forall|px: u32, py: u32|
                    px < width && before_in_rows(px as int, py as int, x as int, y as int) ==> #[trigger] renders_pixel(
                        pixels@,
                        width,
                        max_iterations,
                        escape_at,
                        px,
                        py,
                    ),
            decreases width - x,
        {
            proof {
                assert((y * width + x) * 3 + 3 <= capacity) by (nonlinear_arith)
                    requires
                        x < width,
                        y < height,
                        capacity == width * height * 3,
                ;
            }
            let escape = escape_at(x, y);
            let (red, green, blue) = escape_color(escape, max_iterations);
            let ghost before = pixels@;
            pixels.push(red);
            pixels.push(green);
            pixels.push(blue);
            proof {
                let w = width as int;
                assert forall|px: u32, py: u32|
                    px < width && before_in_rows(px as int, py as int, x + 1, y as int) implies #[trigger] renders_pixel(
                        pixels@,
                        width,
                        max_iterations,
                        escape_at,
                        px,
                        py,
                    ) by {
                    if px == x && py == y {
                        assert(rgb_offset(w, x as int, y as int, 0) == before.len());
                        assert(pixel_at(pixels@, width, x as int, y as int) == escape_rgb(escape, max_iterations));
                    } else {
                        assert(before_in_rows(px as int, py as int, x as int, y as int));
                        assert(renders_pixel(before, width, max_iterations, escape_at, px, py));
                        let e = choose|e: Option<u32>|
                            #[trigger] escape_at.ensures((px, py), e) && pixel_at(before, width, px as int, py as int)
                                == escape_rgb(e, max_iterations);
                        lemma_earlier_pixel_offset(w, px as int, py as int, x as int, y as int, 0);
                        lemma_earlier_pixel_offset(w, px as int, py as int, x as int, y as int, 1);
                        lemma_earlier_pixel_offset(w, px as int, py as int, x as int, y as int, 2);
                        assert(pixel_at(pixels@, width, px as int, py as int) == pixel_at(before, width, px as int, py as int));
                    }
                }
                assert(pixels@.len() == (y * width + x + 1) * 3) by (nonlinear_arith)
                    requires
                        pixels@.len() == before.len() + 3,
                        before.len() == (y * width + x) * 3,
                ;
            }
            x = x + 1;
        }
        proof {
            assert(pixels@.len() == ((y + 1) * width) * 3) by (nonlinear_arith)
                requires
                    pixels@.len() == (y * width + width) * 3,
            ;
        }
        y = y + 1;
    }
    proof {
        assert(pixels@.len() == width * height * 3) by (nonlinear_arith)
            requires
                pixels@.len() == (height * width) * 3,
        ;
    }
    RenderedTile { width, height, pixels }
}


/// Whether `escape_at` has at most one possible result for each pixel.
pub open spec fn escape_is_deterministic<F: Fn(u32, u32) -> Option<u32>>(escape_at: F) -> bool {
    forall|x: u32, y: u32, first: Option<u32>, second: Option<u32>|
        #[trigger] escape_at.ensures((x, y), first) && #[trigger] escape_at.ensures((x, y), second)
            ==> first == second
}

/// Law: rendering is deterministic. Two tiles of the same size rendered from
/// an escape function with one possible result per pixel have the same pixels.
pub proof fn lemma_render_deterministic<F: Fn(u32, u32) -> Option<u32>>(
    first: Seq<u8>,
    second: Seq<u8>,
    width: u32,
    height: u32,
    max_iterations: u32,
    escape_at: F,
)
    requires
        escape_is_deterministic(escape_at),
        first.len() == width * height * 3,
        second.len() == width * height * 3,
        forall|x: u32, y: u32|
            x < width && y < height ==> #[trigger] renders_pixel(
                first,
                width,
                max_iterations,
                escape_at,
                x,
                y,
            ),
        forall|x: u32, y: u32|
            x < width && y < height ==> #[trigger] renders_pixel(
                second,
                width,
                max_iterations,
                escape_at,
                x,
                y,
            ),
    ensures
        first == second,
{
    if width > 0 {
        assert forall|index: int| 0 <= index < first.len() implies first[index] == second[index] by {
            crate::image::lemma_index_coordinates(width as int, height as int, index);
            let x = crate::image::offset_column(width as int, index) as u32;
            let y = crate::image::offset_row(width as int, index) as u32;
            assert(renders_pixel(first, width, max_iterations, escape_at, x, y));
            assert(renders_pixel(second, width, max_iterations, escape_at, x, y));
            let e1 = choose|e: Option<u32>|
                #[trigger] escape_at.ensures((x, y), e) && pixel_at(first, width, x as int, y as int)
                    == escape_rgb(e, max_iterations);
            let e2 = choose|e: Option<u32>|
                #[trigger] escape_at.ensures((x, y), e) && pixel_at(second, width, x as int, y as int)
                    == escape_rgb(e, max_iterations);
            assert(e1 == e2);
        }
    }
    assert(first =~= second);
}

} // verus!
