use vstd::prelude::*;
use vstd::arithmetic::div_mod::{lemma_fundamental_div_mod, lemma_fundamental_div_mod_converse};

use crate::buffer::try_reserve_exact;
use crate::renderer::{RenderError, RenderTileRequest, TilePlan, TileRegion, tile_contains};

verus! {

/// Number of tiles of size `tile_size` needed to cover `length` pixels.
pub open spec fn tiles_across(length: u32, tile_size: u32) -> int {
    (length + tile_size - 1) / (tile_size as int)
}

/// Number of tiles that `plan_tiles` produces for an image.
pub open spec fn tile_count(width: u32, height: u32, tile_size: u32) -> int {
    tiles_across(width, tile_size) * tiles_across(height, tile_size)
}

/// Whether the image and tile dimensions are all non-zero.
pub open spec fn plan_dimensions_nonzero(width: u32, height: u32, tile_size: u32) -> bool {
    width > 0 && height > 0 && tile_size > 0
}

/// The smaller of two integers.
pub open spec fn min_int(a: int, b: int) -> int {
    if a <= b { a } else { b }
}

/// The tile at position `index` of the row-major plan of an image: tiles are
/// `tile_size` square, except those in the last column and row, which are cut
/// at the image's edge.
pub open spec fn planned_tile(
    width: u32,
    height: u32,
    tile_size: u32,
    max_iterations: u32,
    index: int,
) -> TilePlan {
    let columns = tiles_across(width, tile_size);
    let x = (index % columns) * tile_size;
    let y = (index / columns) * tile_size;
    let tile_width = min_int(tile_size as int, width - x);
    let tile_height = min_int(tile_size as int, height - y);
    TilePlan {
        x: x as u32,
        y: y as u32,
        request: RenderTileRequest {
            tile_id: index as u32,
            region: TileRegion {
                left: x as u32,
                right: (x + tile_width) as u32,
                top: y as u32,
                bottom: (y + tile_height) as u32,
                image_width: width,
                image_height: height,
            },
            width: tile_width as u32,
            height: tile_height as u32,
            max_iterations,
        },
    }
}

/// Along one axis: the tile at position `count` starts inside the image
/// exactly when `count` is below the number of tiles across.
proof fn lemma_tiles_across(length: u32, tile_size: u32, count: int)
    requires
        length > 0,
        tile_size > 0,
        count >= 0,
    ensures
        count * tile_size < length <==> count < tiles_across(length, tile_size),
        tiles_across(length, tile_size) >= 1,
        tiles_across(length, tile_size) <= length,
{
    let n = length + tile_size - 1;
    let d = tile_size as int;
    let q = n / d;
    let r = n % d;
    lemma_fundamental_div_mod(n, d);
    assert(0 <= r < d) by {
        vstd::arithmetic::div_mod::lemma_mod_pos_bound(n, d);
    }
    assert(n == d * q + r);
    assert(count * d < length <==> count < q) by (nonlinear_arith)
        requires
            n == d * q + r,
            0 <= r < d,
            n == length + d - 1,
            d > 0,
            count >= 0,
    ;
    assert(q >= 1) by (nonlinear_arith)
        requires
            n == d * q + r,
            0 <= r < d,
            n == length + d - 1,
            d > 0,
            length > 0,
    ;
    assert(q <= length) by (nonlinear_arith)
        requires
            n == d * q + r,
            0 <= r < d,
            n == length + d - 1,
            d > 0,
            length > 0,
    ;
}


/// The number of tiles across, computed without overflow.
fn count_across(length: u32, tile_size: u32) -> (count: u32)
    requires
        length > 0,
        tile_size > 0,
    ensures
        count == tiles_across(length, tile_size),
{
    let count = (length - 1) / tile_size + 1;
    proof {
        let d = tile_size as int;
        let m = (length - 1) as int;
        lemma_fundamental_div_mod(m, d);
        vstd::arithmetic::div_mod::lemma_mod_pos_bound(m, d);
        assert(length + tile_size - 1 == (m / d + 1) * d + m % d) by (nonlinear_arith)
            requires
                m == d * (m / d) + m % d,
                m == length - 1,
                d == tile_size,
        ;
        lemma_fundamental_div_mod_converse(length + tile_size - 1, d, m / d + 1, m % d);
    }
    count
}

/// Position `row * columns + column` of a row-major grid names that row and column.
proof fn lemma_grid_index(row: int, column: int, columns: int)
    requires
        0 <= row,
        0 <= column < columns,
    ensures
        (row * columns + column) / columns == row,
        (row * columns + column) % columns == column,
{
    lemma_fundamental_div_mod_converse(row * columns + column, columns, row, column);
}

/// Divide a full Mandelbrot view into row-major tiles.
///
/// Tiles are `tile_size` pixels square, except in the last column and row,
/// where they are cut at the image's edge; tile identifiers count the tiles in
/// row-major order from zero. Besides the checks on the dimensions, the only
/// failure is the allocator refusing room for the tiles, reported as
/// `DimensionsTooLarge`; the tiles themselves come from `fill_plan`.
pub fn plan_tiles(width: u32, height: u32, tile_size: u32, max_iterations: u32) -> (result: Result<
    Vec<TilePlan>,
    RenderError,
>)
    ensures
        !plan_dimensions_nonzero(width, height, tile_size) ==> result matches Err(RenderError::EmptyDimensions),
        plan_dimensions_nonzero(width, height, tile_size) && tile_count(width, height, tile_size)
            > u32::MAX ==> result matches Err(RenderError::DimensionsTooLarge),
        result matches Err(e) ==> !plan_dimensions_nonzero(width, height, tile_size) || e
            == RenderError::DimensionsTooLarge,
        result matches Ok(tiles) ==> {
            &&& plan_dimensions_nonzero(width, height, tile_size)
            &&& tile_count(width, height, tile_size) <= u32::MAX
            &&& tiles@.len() == tile_count(width, height, tile_size)
            &&& forall|i: int|
                0 <= i < tiles@.len() ==> #[trigger] tiles@[i] == planned_tile(
                    width,
                    height,
                    tile_size,
                    max_iterations,
                    i,
                )
        },
        result matches Ok(tiles) ==> tiles@ == planned_tiles(width, height, tile_size, max_iterations),
        result matches Ok(tiles) ==> forall|i: int|
            0 <= i < tiles@.len() ==> {
                &&& (#[trigger] tiles@[i]).request.max_iterations == max_iterations
                &&& tiles@[i].request.region.image_width == width
                &&& tiles@[i].request.region.image_height == height
            },
{
    if width == 0 || height == 0 || tile_size == 0 {
        return Err(RenderError::EmptyDimensions);
    }
    let columns = count_across(width, tile_size);
    let rows = count_across(height, tile_size);
    let total = match columns.checked_mul(rows) {
        Some(count) => count,
        None => return Err(RenderError::DimensionsTooLarge),
    };
    let mut tiles: Vec<TilePlan> = Vec::new();
    if !try_reserve_exact(&mut tiles, total as usize) {
        return Err(RenderError::DimensionsTooLarge);
    }
    Ok(fill_plan(tiles, width, height, tile_size, max_iterations))
}

/// Fills the empty `tiles` with the plan of an image, in row-major order:
/// `tile_size` square tiles, cut at the image's edge in the last column and
/// row, numbered from zero.
pub fn fill_plan(
    tiles: Vec<TilePlan>,
    width: u32,
    height: u32,
    tile_size: u32,
    max_iterations: u32,
) -> (filled: Vec<TilePlan>)
    requires
        tiles@.len() == 0,
        plan_dimensions_nonzero(width, height, tile_size),
        tile_count(width, height, tile_size) <= u32::MAX,
    ensures
        filled@ == planned_tiles(width, height, tile_size, max_iterations),
        forall|i: int|
            0 <= i < filled@.len() ==> {
                &&& (#[trigger] filled@[i]).request.tile_id == i
                &&& filled@[i].request.max_iterations == max_iterations
                &&& filled@[i].request.region.image_width == width
                &&& filled@[i].request.region.image_height == height
            },
{
    let mut tiles = tiles;
    let columns = count_across(width, tile_size);
    let rows = count_across(height, tile_size);
    let ghost total: int = columns * rows;
    proof {
        lemma_tiles_across(width, tile_size, 0);
        lemma_tiles_across(height, tile_size, 0);
    }
    let mut y: u32 = 0;
    let ghost mut row: int = 0;
    while y < height
        invariant
            width > 0,
            height > 0,
            tile_size > 0,
            columns == tiles_across(width, tile_size),
            rows == tiles_across(height, tile_size),
            total == columns * rows,
            columns >= 1,
            0 <= row <= rows,
            y == (if row == rows {
                height as int
            } else {
                row * tile_size
            }),
            tiles@.len() == row * columns,
            forall|i: int|
                0 <= i < tiles@.len() ==> #[trigger] tiles@[i] == planned_tile(
                    width,
                    height,
                    tile_size,
                    max_iterations,
                    i,
                ),
        decreases height - y,
    {
        assert(row < rows);
        let tile_height = if tile_size < height - y {
            tile_size
        } else {
            height - y
        };
        let mut x: u32 = 0;
        let ghost mut column: int = 0;
        while x < width
            invariant
                width > 0,
                height > 0,
                tile_size > 0,
                columns == tiles_across(width, tile_size),
                rows == tiles_across(height, tile_size),
                total == columns * rows,
                0 <= row < rows,
                y == row * tile_size,
                y < height,
                tile_height == min_int(tile_size as int, height - y),
                0 <= column <= columns,
                x == (if column == columns {
                    width as int
                } else {
                    column * tile_size
                }),
                tiles@.len() == row * columns + column,
                forall|i: int|
                    0 <= i < tiles@.len() ==> #[trigger] tiles@[i] == planned_tile(
                        width,
                        height,
                        tile_size,
                        max_iterations,
                        i,
                    ),
            decreases width - x,
        {
            assert(column < columns);
            let tile_width = if tile_size < width - x {
                tile_size
            } else {
                width - x
            };
            proof {
                assert(row * columns + column < total) by (nonlinear_arith)
                    requires
                        0 <= row < rows,
                        0 <= column < columns,
                        total == columns * rows,
                ;
                lemma_grid_index(row, column, columns as int);
            }
            let tile_id = tiles.len() as u32;
            let tile = TilePlan {
                x,
                y,
                request: RenderTileRequest {
                    tile_id,
                    region: TileRegion {
                        left: x,
                        right: x + tile_width,
                        top: y,
                        bottom: y + tile_height,
                        image_width: width,
                        image_height: height,
                    },
                    width: tile_width,
                    height: tile_height,
                    max_iterations,
                },
            };
            let ghost index = tiles@.len() as int;
            assert(tile == planned_tile(width, height, tile_size, max_iterations, index));
            tiles.push(tile);
            x = x + tile_width;
            proof {
                column = column + 1;
                lemma_tiles_across(width, tile_size, column);
                if tile_width == tile_size && (x as int) < width {
                    assert(x == column * tile_size) by (nonlinear_arith)
                        requires
                            x == (column - 1) * tile_size + tile_size,
                    ;
                } else {
                    assert(column * tile_size >= width) by (nonlinear_arith)
                        requires
                            (column - 1) * tile_size + tile_size >= width,
                    ;
                }
            }
        }
        proof {
            lemma_tiles_across(width, tile_size, column);
        }
        assert(column == columns);
        y = y + tile_height;
        proof {
            row = row + 1;
            lemma_tiles_across(height, tile_size, row);
            assert(tiles@.len() == row * columns) by (nonlinear_arith)
                requires
                    tiles@.len() == (row - 1) * columns + columns,
            ;
            if tile_height == tile_size && (y as int) < height {
                assert(y == row * tile_size) by (nonlinear_arith)
                    requires
                        y == (row - 1) * tile_size + tile_size,
                ;
            } else {
                assert(row * tile_size >= height) by (nonlinear_arith)
                    requires
                        (row - 1) * tile_size + tile_size >= height,
                ;
            }
        }
    }
    proof {
        lemma_tiles_across(height, tile_size, row);
    }
    assert(row == rows);
    assert(tiles@.len() == tile_count(width, height, tile_size)) by (nonlinear_arith)
        requires
            tiles@.len() == rows * columns,
            columns == tiles_across(width, tile_size),
            rows == tiles_across(height, tile_size),
    ;
    assert(tiles@ =~= planned_tiles(width, height, tile_size, max_iterations));
    tiles
}


/// The position in the plan of the tile that holds the pixel at column `px`
/// and row `py`.
pub open spec fn pixel_tile_index(width: u32, tile_size: u32, px: int, py: int) -> int {
    (py / (tile_size as int)) * tiles_across(width, tile_size) + px / (tile_size as int)
}

/// Whether no pixel lies in two tiles of the sequence.
pub open spec fn tiles_disjoint(tiles: Seq<TilePlan>) -> bool {
    forall|i: int, j: int, px: int, py: int|
        0 <= i < tiles.len() && 0 <= j < tiles.len() && i != j && #[trigger] tile_contains(
            tiles[i],
            px,
            py,
        ) ==> !#[trigger] tile_contains(tiles[j], px, py)
}

/// The tiles of a plan, as a sequence.
pub open spec fn planned_tiles(width: u32, height: u32, tile_size: u32, max_iterations: u32) -> Seq<
    TilePlan,
> {
    Seq::new(
        tile_count(width, height, tile_size) as nat,
        |i: int| planned_tile(width, height, tile_size, max_iterations, i),
    )
}

/// Along one axis: the tile at position `k` holds coordinate `p` exactly when
/// `k` is `p / tile_size`.
proof fn lemma_axis_membership(length: u32, tile_size: u32, k: int, p: int)
    requires
        length > 0,
        tile_size > 0,
        0 <= k < tiles_across(length, tile_size),
        0 <= p < length,
    ensures
        (k * tile_size <= p < k * tile_size + min_int(tile_size as int, length - k * tile_size))
            <==> k == p / (tile_size as int),
        0 <= p / (tile_size as int) < tiles_across(length, tile_size),
{
    let d = tile_size as int;
    lemma_fundamental_div_mod(p, d);
    vstd::arithmetic::div_mod::lemma_mod_pos_bound(p, d);
    vstd::arithmetic::div_mod::lemma_div_pos_is_pos(p, d);
    let q = p / d;
    assert(q * d <= p) by (nonlinear_arith)
        requires
            p == d * q + p % d,
            0 <= p % d,
    ;
    lemma_tiles_across(length, tile_size, q);
    lemma_tiles_across(length, tile_size, k);
    if k * d <= p && p < k * d + d {
        lemma_fundamental_div_mod_converse(p, d, k, p - k * d);
    }
    if k == q {
        assert(p < k * d + d) by (nonlinear_arith)
            requires
                p == d * q + p % d,
                p % d < d,
                k == q,
        ;
    }
}

/// Law: the plan partitions the image. Every pixel of the image lies in
/// exactly one planned tile, the one at position
/// `(py / tile_size) * columns + px / tile_size`.
pub proof fn lemma_plan_partitions_image(
    width: u32,
    height: u32,
    tile_size: u32,
    max_iterations: u32,
    px: int,
    py: int,
)
    requires
        plan_dimensions_nonzero(width, height, tile_size),
        0 <= px < width,
        0 <= py < height,
    ensures
        0 <= pixel_tile_index(width, tile_size, px, py) < tile_count(width, height, tile_size),
        forall|i: int|
            0 <= i < tile_count(width, height, tile_size) ==> (#[trigger] tile_contains(
                planned_tile(width, height, tile_size, max_iterations, i),
                px,
                py,
            ) <==> i == pixel_tile_index(width, tile_size, px, py)),
{
    let d = tile_size as int;
    let columns = tiles_across(width, tile_size);
    let rows = tiles_across(height, tile_size);
    lemma_tiles_across(width, tile_size, 0);
    lemma_tiles_across(height, tile_size, 0);
    lemma_axis_membership(width, tile_size, 0, px);
    lemma_axis_membership(height, tile_size, 0, py);
    let cx = px / d;
    let cy = py / d;
    assert(0 <= cy * columns + cx < columns * rows) by (nonlinear_arith)
        requires
            0 <= cx < columns,
            0 <= cy < rows,
    ;
    assert forall|i: int| 0 <= i < tile_count(width, height, tile_size) implies (
    #[trigger] tile_contains(planned_tile(width, height, tile_size, max_iterations, i), px, py)
        <==> i == pixel_tile_index(width, tile_size, px, py)) by {
        lemma_fundamental_div_mod(i, columns);
        vstd::arithmetic::div_mod::lemma_mod_pos_bound(i, columns);
        vstd::arithmetic::div_mod::lemma_div_pos_is_pos(i, columns);
        let column = i % columns;
        let row = i / columns;
        assert(row < rows) by (nonlinear_arith)
            requires
                i == columns * row + column,
                0 <= column,
                i < columns * rows,
                columns > 0,
        ;
        lemma_axis_membership(width, tile_size, column, px);
        lemma_axis_membership(height, tile_size, row, py);
        lemma_tiles_across(width, tile_size, column);
        lemma_tiles_across(height, tile_size, row);
        assert(0 <= column * d) by (nonlinear_arith)
            requires
                0 <= column,
                0 <= d,
        ;
        assert(0 <= row * d) by (nonlinear_arith)
            requires
                0 <= row,
                0 <= d,
        ;
        if i == pixel_tile_index(width, tile_size, px, py) {
            lemma_grid_index(cy, cx, columns);
        }
        if column == cx && row == cy {
            assert(i == cy * columns + cx) by (nonlinear_arith)
                requires
                    i == columns * row + column,
                    column == cx,
                    row == cy,
            ;
        }
    }
}

/// Law: every planned tile is non-empty, lies inside the image, and carries
/// its position in the plan as its identifier.
pub proof fn lemma_planned_tile_within_image(
    width: u32,
    height: u32,
    tile_size: u32,
    max_iterations: u32,
    index: int,
)
    requires
        plan_dimensions_nonzero(width, height, tile_size),
        tile_count(width, height, tile_size) <= u32::MAX,
        0 <= index < tile_count(width, height, tile_size),
    ensures
        ({
            let tile = planned_tile(width, height, tile_size, max_iterations, index);
            &&& tile.request.tile_id == index
            &&& 1 <= tile.request.width <= tile_size
            &&& 1 <= tile.request.height <= tile_size
            &&& tile.x + tile.request.width <= width
            &&& tile.y + tile.request.height <= height
            &&& tile.request.region.left == tile.x
            &&& tile.request.region.top == tile.y
            &&& tile.request.region.right == tile.x + tile.request.width
            &&& tile.request.region.bottom == tile.y + tile.request.height
            &&& tile.request.region.image_width == width
            &&& tile.request.region.image_height == height
            &&& tile.request.max_iterations == max_iterations
        }),
{
    let d = tile_size as int;
    let columns = tiles_across(width, tile_size);
    let rows = tiles_across(height, tile_size);
    lemma_tiles_across(width, tile_size, 0);
    lemma_fundamental_div_mod(index, columns);
    vstd::arithmetic::div_mod::lemma_mod_pos_bound(index, columns);
    vstd::arithmetic::div_mod::lemma_div_pos_is_pos(index, columns);
    let column = index % columns;
    let row = index / columns;
    assert(row < rows) by (nonlinear_arith)
        requires
            index == columns * row + column,
            0 <= column,
            index < columns * rows,
            columns > 0,
    ;
    lemma_tiles_across(width, tile_size, column);
    lemma_tiles_across(height, tile_size, row);
    assert(0 <= column * d) by (nonlinear_arith)
        requires
            0 <= column,
            0 <= d,
    ;
    assert(0 <= row * d) by (nonlinear_arith)
        requires
            0 <= row,
            0 <= d,
    ;
}

/// Law: no pixel lies in two tiles of a plan.
pub proof fn lemma_plan_tiles_disjoint(width: u32, height: u32, tile_size: u32, max_iterations: u32)
    requires
        plan_dimensions_nonzero(width, height, tile_size),
        tile_count(width, height, tile_size) <= u32::MAX,
    ensures
        tiles_disjoint(planned_tiles(width, height, tile_size, max_iterations)),
{
    let tiles = planned_tiles(width, height, tile_size, max_iterations);
    assert forall|i: int, j: int, px: int, py: int|
        0 <= i < tiles.len() && 0 <= j < tiles.len() && i != j && #[trigger] tile_contains(
            tiles[i],
            px,
            py,
        ) implies !#[trigger] tile_contains(tiles[j], px, py) by {
        lemma_planned_tile_within_image(width, height, tile_size, max_iterations, i);
        lemma_plan_partitions_image(width, height, tile_size, max_iterations, px, py);
    }
}

} // verus!
