use vstd::prelude::*;
use vstd::arithmetic::div_mod::{
    lemma_div_pos_is_pos,
    lemma_fundamental_div_mod,
    lemma_fundamental_div_mod_converse,
    lemma_mod_pos_bound,
};

verus! {

/// Offset of channel `channel` of the pixel at column `px` and row `py` in a
/// row-major RGB8 buffer that is `width` pixels wide.
pub open spec fn rgb_offset(width: int, px: int, py: int, channel: int) -> int {
    (py * width + px) * 3 + channel
}

/// Column of the pixel that byte `index` of a row-major RGB8 buffer belongs to.
pub open spec fn offset_column(width: int, index: int) -> int {
    (index / 3) % width
}

/// Row of the pixel that byte `index` of a row-major RGB8 buffer belongs to.
pub open spec fn offset_row(width: int, index: int) -> int {
    (index / 3) / width
}

/// Colour channel that byte `index` of an RGB8 buffer holds.
pub open spec fn offset_channel(index: int) -> int {
    index % 3
}

/// Coordinates read back from an offset are those the offset was made of.
pub proof fn lemma_offset_coordinates(width: int, px: int, py: int, channel: int)
    requires
        width > 0,
        0 <= px < width,
        0 <= py,
        0 <= channel < 3,
    ensures
        offset_column(width, rgb_offset(width, px, py, channel)) == px,
        offset_row(width, rgb_offset(width, px, py, channel)) == py,
        offset_channel(rgb_offset(width, px, py, channel)) == channel,
        rgb_offset(width, px, py, channel) >= 0,
{
    let pixel = py * width + px;
    assert(pixel >= 0) by (nonlinear_arith)
        requires
            py >= 0,
            width > 0,
            px >= 0,
            pixel == py * width + px,
    ;
    lemma_fundamental_div_mod_converse(rgb_offset(width, px, py, channel), 3, pixel, channel);
    lemma_fundamental_div_mod_converse(pixel, width, py, px);
}

/// Every byte of an RGB8 buffer belongs to a pixel inside the image.
pub proof fn lemma_index_coordinates(width: int, height: int, index: int)
    requires
        width > 0,
        0 <= index < width * height * 3,
    ensures
        0 <= offset_column(width, index) < width,
        0 <= offset_row(width, index) < height,
        0 <= offset_channel(index) < 3,
        index == rgb_offset(
            width,
            offset_column(width, index),
            offset_row(width, index),
            offset_channel(index),
        ),
{
    let pixel = index / 3;
    lemma_fundamental_div_mod(index, 3);
    lemma_mod_pos_bound(index, 3);
    lemma_div_pos_is_pos(index, 3);
    lemma_fundamental_div_mod(pixel, width);
    lemma_mod_pos_bound(pixel, width);
    lemma_div_pos_is_pos(pixel, width);
    let row = pixel / width;
    let column = pixel % width;
    assert(pixel < width * height) by (nonlinear_arith)
        requires
            index == 3 * pixel + index % 3,
            0 <= index % 3,
            index < width * height * 3,
    ;
    assert(row < height) by (nonlinear_arith)
        requires
            pixel == width * row + column,
            0 <= column,
            pixel < width * height,
            width > 0,
    ;
    assert(index == (row * width + column) * 3 + index % 3) by (nonlinear_arith)
        requires
            index == 3 * pixel + index % 3,
            pixel == width * row + column,
    ;
}

/// An offset of a pixel inside the image lies inside the buffer.
pub proof fn lemma_offset_in_buffer(width: int, height: int, px: int, py: int, channel: int)
    requires
        0 <= px < width,
        0 <= py < height,
        0 <= channel < 3,
    ensures
        0 <= rgb_offset(width, px, py, channel) < width * height * 3,
{
    assert(0 <= rgb_offset(width, px, py, channel) < width * height * 3) by (nonlinear_arith)
        requires
            0 <= px < width,
            0 <= py < height,
            0 <= channel < 3,
    ;
}

/// Whether the pixel `(px, py)` lies in the rectangle at `(x, y)` of the given size.
pub open spec fn rect_contains(x: int, y: int, rect_width: int, rect_height: int, px: int, py: int) -> bool {
    x <= px < x + rect_width && y <= py < y + rect_height
}

/// Byte `index` of `image` after `source`, a row-major RGB8 block of
/// `block_width` by `block_height` pixels, has been copied into it at `(x, y)`.
pub open spec fn pasted_byte(
    image: Seq<u8>,
    width: int,
    x: int,
    y: int,
    block_width: int,
    block_height: int,
    source: Seq<u8>,
    index: int,
) -> u8 {
    let px = offset_column(width, index);
    let py = offset_row(width, index);
    if rect_contains(x, y, block_width, block_height, px, py) {
        source[rgb_offset(block_width, px - x, py - y, offset_channel(index))]
    } else {
        image[index]
    }
}

/// Whether the copy has reached channel `channel` of pixel `(px, py)`, when it
/// has copied `rows` full rows, then `columns` pixels and `channels` channels.
spec fn copied(
    x: int,
    y: int,
    block_width: int,
    rows: int,
    columns: int,
    channels: int,
    px: int,
    py: int,
    channel: int,
) -> bool {
    ||| rect_contains(x, y, block_width, rows, px, py)
    ||| py == y + rows && x <= px < x + columns
    ||| py == y + rows && px == x + columns && channel < channels
}

/// Copies `source`, a row-major RGB8 block of `block_width` by `block_height`
/// pixels, into `image` with its top-left corner at `(x, y)`.
pub fn paste_block(
    image: &mut Vec<u8>,
    width: u32,
    height: u32,
    x: u32,
    y: u32,
    block_width: u32,
    block_height: u32,
    source: &Vec<u8>,
)
    requires
        width > 0,
        old(image)@.len() == width * height * 3,
        x + block_width <= width,
        y + block_height <= height,
        source@.len() == block_width * block_height * 3,
    ensures
        final(image)@.len() == old(image)@.len(),
        forall|index: int|
            0 <= index < final(image)@.len() ==> #[trigger] final(image)@[index] == pasted_byte(
                old(image)@,
                width as int,
                x as int,
                y as int,
                block_width as int,
                block_height as int,
                source@,
                index,
            ),
{
    let ghost original = image@;
    let ghost w = width as int;
    let mut row: u32 = 0;
    while row < block_height
        invariant
            width > 0,
            original.len() == width * height * 3,
            image@.len() == original.len(),
            x + block_width <= width,
            y + block_height <= height,
            source@.len() == block_width * block_height * 3,
            w == width,
            row <= block_height,
            forall|index: int|
                0 <= index < image@.len() ==> #[trigger] image@[index] == if copied(
                    x as int,
                    y as int,
                    block_width as int,
                    row as int,
                    0,
                    0,
                    offset_column(w, index),
                    offset_row(w, index),
                    offset_channel(index),
                ) {
                    source@[rgb_offset(
                        block_width as int,
                        offset_column(w, index) - x,
                        offset_row(w, index) - y,
                        offset_channel(index),
                    )]
                } else {
                    original[index]
                },
        decreases block_height - row,
    {
        let mut column: u32 = 0;
        while column < block_width
            invariant
                width > 0,
                original.len() == width * height * 3,
                image@.len() == original.len(),
                x + block_width <= width,
                y + block_height <= height,
                source@.len() == block_width * block_height * 3,
                w == width,
                row < block_height,
                column <= block_width,
                forall|index: int|
                    0 <= index < image@.len() ==> #[trigger] image@[index] == if copied(
                        x as int,
                        y as int,
                        block_width as int,
                        row as int,
                        column as int,
                        0,
                        offset_column(w, index),
                        offset_row(w, index),
                        offset_channel(index),
                    ) {
                        source@[rgb_offset(
                            block_width as int,
                            offset_column(w, index) - x,
                            offset_row(w, index) - y,
                            offset_channel(index),
                        )]
                    } else {
                        original[index]
                    },
            decreases block_width - column,
        {
            let mut channel: usize = 0;
            while channel < 3
                invariant
                    width > 0,
                    original.len() == width * height * 3,
                    image@.len() == original.len(),
                    x + block_width <= width,
                    y + block_height <= height,
                    source@.len() == block_width * block_height * 3,
                    w == width,
                    row < block_height,
                    column < block_width,
                    channel <= 3,
                    forall|index: int|
                        0 <= index < image@.len() ==> #[trigger] image@[index] == if copied(
                            x as int,
                            y as int,
                            block_width as int,
                            row as int,
                            column as int,
                            channel as int,
                            offset_column(w, index),
                            offset_row(w, index),
                            offset_channel(index),
                        ) {
                            source@[rgb_offset(
                                block_width as int,
                                offset_column(w, index) - x,
                                offset_row(w, index) - y,
                                offset_channel(index),
                            )]
                        } else {
                            original[index]
                        },
                decreases 3 - channel,
            {
                let image_len = image.len();
                let source_len = source.len();
                let ghost px = x + column;
                let ghost py = y + row;
                proof {
                    lemma_offset_in_buffer(w, height as int, px, py, channel as int);
                    lemma_offset_in_buffer(
                        block_width as int,
                        block_height as int,
                        column as int,
                        row as int,
                        channel as int,
                    );
                    lemma_offset_coordinates(w, px, py, channel as int);
                    assert(py * w + px <= rgb_offset(w, px, py, channel as int)) by (nonlinear_arith)
                        requires
                            py * w + px >= 0,
                            channel >= 0,
                    ;
                    assert(0 <= py * w + px) by (nonlinear_arith)
                        requires
                            py >= 0,
                            w > 0,
                            px >= 0,
                    ;
                    assert(py * w <= py * w + px);
                    let from_offset = rgb_offset(block_width as int, column as int, row as int, channel as int);
                    assert(row * block_width <= from_offset) by (nonlinear_arith)
                        requires
                            from_offset == (row * block_width + column) * 3 + channel,
                            row >= 0,
                            block_width >= 0,
                            column >= 0,
                            channel >= 0,
                    ;
                }
                let target = ((y as usize + row as usize) * (width as usize) + (x as usize
                    + column as usize)) * 3 + channel;
                let from = ((row as usize) * (block_width as usize) + column as usize) * 3
                    + channel;
                let value = source[from];
                image.set(target, value);
                proof {
                    assert forall|index: int| 0 <= index < image@.len() implies #[trigger] image@[index]
                        == if copied(
                        x as int,
                        y as int,
                        block_width as int,
                        row as int,
                        column as int,
                        channel + 1,
                        offset_column(w, index),
                        offset_row(w, index),
                        offset_channel(index),
                    ) {
                        source@[rgb_offset(
                            block_width as int,
                            offset_column(w, index) - x,
                            offset_row(w, index) - y,
                            offset_channel(index),
                        )]
                    } else {
                        original[index]
                    } by {
                        lemma_index_coordinates(w, height as int, index);
                    }
                }
                channel = channel + 1;
            }
            column = column + 1;
            proof {
                assert forall|index: int| 0 <= index < image@.len() implies #[trigger] image@[index]
                    == if copied(
                    x as int,
                    y as int,
                    block_width as int,
                    row as int,
                    column as int,
                    0,
                    offset_column(w, index),
                    offset_row(w, index),
                    offset_channel(index),
                ) {
                    source@[rgb_offset(
                        block_width as int,
                        offset_column(w, index) - x,
                        offset_row(w, index) - y,
                        offset_channel(index),
                    )]
                } else {
                    original[index]
                } by {
                    lemma_index_coordinates(w, height as int, index);
                }
            }
        }
        row = row + 1;
    }
}

} // verus!
