use std::collections::{HashMap, HashSet};

use vstd::prelude::*;

use crate::buffer::try_reserve_exact;
use crate::image::{
    lemma_index_coordinates,
    lemma_offset_coordinates,
    offset_channel,
    offset_column,
    offset_row,
    paste_block,
    pasted_byte,
    rgb_offset,
};
use crate::plan::{
    lemma_planned_tile_within_image,
    plan_dimensions_nonzero,
    planned_tiles,
    tile_count,
    tiles_disjoint,
};
use crate::renderer::{RenderError, RenderTileResponse, TilePlan, tile_contains};

verus! {

broadcast use vstd::std_specs::hash::group_hash_axioms;

/// Whether no two tiles share an identifier.
pub open spec fn tile_ids_distinct(tiles: Seq<TilePlan>) -> bool {
    forall|i: int, j: int|
        0 <= i < tiles.len() && 0 <= j < tiles.len() && i != j ==> #[trigger] tiles[i].request.tile_id
            != #[trigger] tiles[j].request.tile_id
}

/// Whether some tile has identifier `id`.
pub open spec fn has_tile(tiles: Seq<TilePlan>, id: u32) -> bool {
    exists|i: int| 0 <= i < tiles.len() && #[trigger] tiles[i].request.tile_id == id
}

/// The tile with identifier `id`.
pub open spec fn tile_with_id(tiles: Seq<TilePlan>, id: u32) -> TilePlan {
    tiles[choose|i: int| 0 <= i < tiles.len() && #[trigger] tiles[i].request.tile_id == id]
}

/// Whether one of the first `count` responses answers tile `id`.
pub open spec fn answered_before(responses: Seq<RenderTileResponse>, count: int, id: u32) -> bool {
    exists|j: int| 0 <= j < count && #[trigger] responses[j].tile_id == id
}

/// Whether every tile has a response.
pub open spec fn all_tiles_answered(tiles: Seq<TilePlan>, responses: Seq<RenderTileResponse>) -> bool {
    forall|i: int|
        0 <= i < tiles.len() ==> answered_before(
            responses,
            responses.len() as int,
            #[trigger] tiles[i].request.tile_id,
        )
}

/// What is wrong with response `k`, judged against the tiles and the
/// responses before it, if anything.
pub open spec fn response_error(
    width: u32,
    height: u32,
    tiles: Seq<TilePlan>,
    responses: Seq<RenderTileResponse>,
    k: int,
) -> Option<RenderError> {
    let response = responses[k];
    if !has_tile(tiles, response.tile_id) {
        Some(RenderError::UnknownTile)
    } else {
        let tile = tile_with_id(tiles, response.tile_id);
        let request = tile.request;
        if request.width * request.height * 3 > usize::MAX {
            Some(RenderError::DimensionsTooLarge)
        } else if answered_before(responses, k, response.tile_id) || response.width != request.width
            || response.height != request.height || response.pixels@.len() != request.width
            * request.height * 3 || tile.x + request.width > width || tile.y + request.height
            > height {
            Some(RenderError::InvalidTileResponse)
        } else {
            None
        }
    }
}

/// The error of the first of the first `count` responses that has one.
pub open spec fn first_response_error(
    width: u32,
    height: u32,
    tiles: Seq<TilePlan>,
    responses: Seq<RenderTileResponse>,
    count: int,
) -> Option<RenderError>
    decreases count,
{
    if count <= 0 {
        None
    } else {
        match first_response_error(width, height, tiles, responses, count - 1) {
            Some(error) => Some(error),
            None => response_error(width, height, tiles, responses, count - 1),
        }
    }
}

/// Why the responses cannot be assembled into an image, if they can not.
pub open spec fn assembly_error(
    width: u32,
    height: u32,
    tiles: Seq<TilePlan>,
    responses: Seq<RenderTileResponse>,
) -> Option<RenderError> {
    if width == 0 || height == 0 {
        Some(RenderError::EmptyDimensions)
    } else if width * height * 3 > usize::MAX {
        Some(RenderError::DimensionsTooLarge)
    } else if !tile_ids_distinct(tiles) {
        Some(RenderError::InvalidTileResponse)
    } else {
        match first_response_error(width, height, tiles, responses, responses.len() as int) {
            Some(error) => Some(error),
            None => if all_tiles_answered(tiles, responses) {
                None
            } else {
                Some(RenderError::MissingTile)
            },
        }
    }
}

/// Channel `channel` of the pixel `(px, py)` once the first `count`
/// responses are in place: the last of them whose tile holds the pixel
/// decides its colour, and a pixel that no tile holds stays black.
pub open spec fn assembled_byte(
    tiles: Seq<TilePlan>,
    responses: Seq<RenderTileResponse>,
    count: int,
    px: int,
    py: int,
    channel: int,
) -> u8
    decreases count,
{
    if count <= 0 {
        0
    } else {
        let response = responses[count - 1];
        let tile = tile_with_id(tiles, response.tile_id);
        if tile_contains(tile, px, py) {
            response.pixels@[rgb_offset(
                tile.request.width as int,
                px - tile.x,
                py - tile.y,
                channel,
            )]
        } else {
            assembled_byte(tiles, responses, count - 1, px, py, channel)
        }
    }
}

/// Once a response has an error, the error of the first failing response stays.
proof fn lemma_first_error_stays(
    width: u32,
    height: u32,
    tiles: Seq<TilePlan>,
    responses: Seq<RenderTileResponse>,
    count: int,
    later: int,
)
    requires
        0 <= count <= later,
        first_response_error(width, height, tiles, responses, count) is Some,
    ensures
        first_response_error(width, height, tiles, responses, later) == first_response_error(
            width,
            height,
            tiles,
            responses,
            count,
        ),
    decreases later - count,
{
    if later > count {
        lemma_first_error_stays(width, height, tiles, responses, count, later - 1);
    }
}

/// With distinct identifiers, `tile_with_id` finds the tile that holds the identifier.
proof fn lemma_tile_with_id(tiles: Seq<TilePlan>, index: int)
    requires
        tile_ids_distinct(tiles),
        0 <= index < tiles.len(),
    ensures
        has_tile(tiles, tiles[index].request.tile_id),
        tile_with_id(tiles, tiles[index].request.tile_id) == tiles[index],
{
    assert(tiles[index].request.tile_id == tiles[index].request.tile_id);
}

/// Builds the index from tile identifier to position in `tiles`.
fn index_tiles(tiles: &[TilePlan]) -> (by_id: HashMap<u32, usize>)
    ensures
        by_id@.dom().finite(),
        forall|id: u32| #[trigger] by_id@.contains_key(id) <==> has_tile(tiles@, id),
        forall|id: u32|
            #[trigger] by_id@.contains_key(id) ==> by_id@[id] < tiles@.len()
                && tiles@[by_id@[id] as int].request.tile_id == id,
        (by_id@.len() == tiles@.len()) <==> tile_ids_distinct(tiles@),
{
    let mut by_id: HashMap<u32, usize> = HashMap::new();
    let mut i: usize = 0;
    while i < tiles.len()
        invariant
            i <= tiles@.len(),
            by_id@.dom().finite(),
            by_id@.len() <= i,
            forall|id: u32|
                #[trigger] by_id@.contains_key(id) <==> has_tile(tiles@.subrange(0, i as int), id),
            forall|id: u32|
                #[trigger] by_id@.contains_key(id) ==> by_id@[id] < i && tiles@[by_id@[id] as int].request.tile_id
                    == id,
            (by_id@.len() == i) <==> tile_ids_distinct(tiles@.subrange(0, i as int)),
        decreases tiles@.len() - i,
    {
        let id = tiles[i].request.tile_id;
        let ghost before = by_id@;
        let ghost prefix = tiles@.subrange(0, i as int);
        let ghost next = tiles@.subrange(0, i + 1);
        by_id.insert(id, i);
        proof {
            assert(next == prefix.push(tiles@[i as int]));
            assert forall|other: u32| #[trigger] by_id@.contains_key(other) <==> has_tile(next, other) by {
                if has_tile(next, other) {
                    let j = choose|j: int| 0 <= j < next.len() && #[trigger] next[j].request.tile_id == other;
                    if j < i {
                        assert(prefix[j].request.tile_id == other);
                    }
                }
                if has_tile(prefix, other) {
                    let j = choose|j: int| 0 <= j < prefix.len() && #[trigger] prefix[j].request.tile_id == other;
                    assert(next[j].request.tile_id == other);
                }
                if other == id {
                    assert(next[i as int].request.tile_id == other);
                }
            }
            if before.contains_key(id) {
                assert(by_id@.dom() =~= before.dom());
                let j = before[id] as int;
                assert(next[j].request.tile_id == next[i as int].request.tile_id);
                assert(!tile_ids_distinct(next));
            } else {
                assert(by_id@.dom() =~= before.dom().insert(id));
                if tile_ids_distinct(prefix) {
                    assert forall|a: int, b: int|
                        0 <= a < next.len() && 0 <= b < next.len() && a != b implies #[trigger] next[a].request.tile_id
                            != #[trigger] next[b].request.tile_id by {
                        if a == i {
                            assert(!has_tile(prefix, id));
                            assert(prefix[b].request.tile_id == next[b].request.tile_id);
                        } else if b == i {
                            assert(!has_tile(prefix, id));
                            assert(prefix[a].request.tile_id == next[a].request.tile_id);
                        } else {
                            assert(prefix[a].request.tile_id == next[a].request.tile_id);
                            assert(prefix[b].request.tile_id == next[b].request.tile_id);
                        }
                    }
                } else {
                    let (a, b) = choose|a: int, b: int|
                        0 <= a < prefix.len() && 0 <= b < prefix.len() && a != b && #[trigger] prefix[a].request.tile_id
                            == #[trigger] prefix[b].request.tile_id;
                    assert(next[a].request.tile_id == next[b].request.tile_id);
                }
            }
        }
        i = i + 1;
    }
    assert(tiles@.subrange(0, i as int) =~= tiles@);
    by_id
}


/// Whether the error of response `k` is `error`, given that the responses
/// before it have none, and so the assembly fails with it.
proof fn lemma_assembly_fails_at(
    width: u32,
    height: u32,
    tiles: Seq<TilePlan>,
    responses: Seq<RenderTileResponse>,
    k: int,
    error: RenderError,
)
    requires
        width > 0,
        height > 0,
        width * height * 3 <= usize::MAX,
        tile_ids_distinct(tiles),
        0 <= k < responses.len(),
        first_response_error(width, height, tiles, responses, k) is None,
        response_error(width, height, tiles, responses, k) == Some(error),
    ensures
        assembly_error(width, height, tiles, responses) == Some(error),
{
    lemma_first_error_stays(width, height, tiles, responses, k + 1, responses.len() as int);
}

/// Assemble tile responses into a row-major RGB8 image, independent of response order.
///
/// Each response's pixels are copied to its tile's position; pixels that no
/// tile covers stay black. Responses are checked in order, and the first one
/// that names an unknown tile, repeats a tile, or does not fit its tile
/// decides the error. Besides those errors, the allocator may refuse room for
/// the image, reported as `DimensionsTooLarge`; everything after that request
/// is `assemble_into`.
pub fn assemble_rgb(
    width: u32,
    height: u32,
    tiles: &[TilePlan],
    responses: &[RenderTileResponse],
) -> (result: Result<Vec<u8>, RenderError>)
    ensures
        (width == 0 || height == 0) ==> result matches Err(RenderError::EmptyDimensions),
        width > 0 && height > 0 && width * height * 3 > usize::MAX ==> result matches Err(RenderError::DimensionsTooLarge),
        result matches Err(error) ==> assembly_error(width, height, tiles@, responses@) == Some(
            error,
        ) || error == RenderError::DimensionsTooLarge,
        result matches Ok(image) ==> {
            &&& assembly_error(width, height, tiles@, responses@) is None
            &&& image@.len() == width * height * 3
            &&& forall|px: int, py: int, channel: int|
                0 <= px < width && 0 <= py < height && 0 <= channel < 3
                    ==> image@[rgb_offset(width as int, px, py, channel)] == #[trigger] assembled_byte(
                    tiles@,
                    responses@,
                    responses@.len() as int,
                    px,
                    py,
                    channel,
                )
        },
{
    if width == 0 || height == 0 {
        return Err(RenderError::EmptyDimensions);
    }
    let image_len = match (width as usize).checked_mul(height as usize) {
        Some(area) => match area.checked_mul(3) {
            Some(len) => len,
            None => return Err(RenderError::DimensionsTooLarge),
        },
        None => return Err(RenderError::DimensionsTooLarge),
    };
    let mut pixels: Vec<u8> = Vec::new();
    if !try_reserve_exact(&mut pixels, image_len) {
        return Err(RenderError::DimensionsTooLarge);
    }
    assemble_into(pixels, width, height, tiles, responses)
}

/// Assembles the responses into the empty buffer `pixels`: the image, or the
/// first thing wrong with the tiles and responses, as `assembly_error` names
/// it.
pub fn assemble_into(
    pixels: Vec<u8>,
    width: u32,
    height: u32,
    tiles: &[TilePlan],
    responses: &[RenderTileResponse],
) -> (result: Result<Vec<u8>, RenderError>)
    requires
        pixels@.len() == 0,
        width > 0,
        height > 0,
        width * height * 3 <= usize::MAX,
    ensures
        result matches Err(error) ==> assembly_error(width, height, tiles@, responses@) == Some(error),
        result is Ok <==> assembly_error(width, height, tiles@, responses@) is None,
        result matches Ok(image) ==> {
            &&& image@.len() == width * height * 3
            &&& forall|px: int, py: int, channel: int|
                0 <= px < width && 0 <= py < height && 0 <= channel < 3
                    ==> image@[rgb_offset(width as int, px, py, channel)] == #[trigger] assembled_byte(
                    tiles@,
                    responses@,
                    responses@.len() as int,
                    px,
                    py,
                    channel,
                )
        },
{
    let mut pixels = pixels;
    assert((width as usize) * (height as usize) * 3 <= usize::MAX) by (nonlinear_arith)
        requires
            width * height * 3 <= usize::MAX,
    ;
    let image_len: usize = (width as usize) * (height as usize) * 3;
    let mut filled: usize = 0;
    while filled < image_len
        invariant
            filled <= image_len,
            pixels@.len() == filled,
            forall|index: int| 0 <= index < filled ==> #[trigger] pixels@[index] == 0,
        decreases image_len - filled,
    {
        pixels.push(0);
        filled = filled + 1;
    }

    let by_id = index_tiles(tiles);
    if by_id.len() != tiles.len() {
        return Err(RenderError::InvalidTileResponse);
    }
    let ghost w = width as int;
    let mut seen: HashSet<u32> = HashSet::with_capacity(responses.len());
    let mut k: usize = 0;
    while k < responses.len()
        invariant
            width > 0,
            height > 0,
            w == width,
            image_len == width * height * 3,
            pixels@.len() == image_len,
            tile_ids_distinct(tiles@),
            by_id@.dom().finite(),
            by_id@.len() == tiles@.len(),
            forall|id: u32| #[trigger] by_id@.contains_key(id) <==> has_tile(tiles@, id),
            forall|id: u32|
                #[trigger] by_id@.contains_key(id) ==> by_id@[id] < tiles@.len()
                    && tiles@[by_id@[id] as int].request.tile_id == id,
            k <= responses@.len(),
            first_response_error(width, height, tiles@, responses@, k as int) is None,
            seen@.finite(),
            seen@.subset_of(by_id@.dom()),
            forall|id: u32| #[trigger] seen@.contains(id) <==> answered_before(responses@, k as int, id),
            forall|index: int|
                0 <= index < pixels@.len() ==> #[trigger] pixels@[index] == assembled_byte(
                    tiles@,
                    responses@,
                    k as int,
                    offset_column(w, index),
                    offset_row(w, index),
                    offset_channel(index),
                ),
        decreases responses@.len() - k,
    {
        let response = &responses[k];
        let id = response.tile_id;
        let tile_index = match by_id.get(&id) {
            Some(index) => *index,
            None => {
                proof {
                    lemma_assembly_fails_at(width, height, tiles@, responses@, k as int, RenderError::UnknownTile);
                }
                return Err(RenderError::UnknownTile);
            },
        };
        let tile = &tiles[tile_index];
        let request = &tile.request;
        proof {
            lemma_tile_with_id(tiles@, tile_index as int);
        }
        let expected_len = match (request.width as usize).checked_mul(request.height as usize) {
            Some(area) => match area.checked_mul(3) {
                Some(len) => len,
                None => {
                    proof {
                        lemma_assembly_fails_at(width, height, tiles@, responses@, k as int, RenderError::DimensionsTooLarge);
                    }
                    return Err(RenderError::DimensionsTooLarge);
                },
            },
            None => {
                proof {
                    lemma_assembly_fails_at(width, height, tiles@, responses@, k as int, RenderError::DimensionsTooLarge);
                }
                return Err(RenderError::DimensionsTooLarge);
            },
        };
        let ghost seen_before = seen@;
        let fresh = seen.insert(id);
        let beyond_right = match tile.x.checked_add(request.width) {
            Some(end) => end > width,
            None => true,
        };
        let beyond_bottom = match tile.y.checked_add(request.height) {
            Some(end) => end > height,
            None => true,
        };
        if !fresh || response.width != request.width || response.height != request.height
            || response.pixels.len() != expected_len || beyond_right || beyond_bottom {
            proof {
                lemma_assembly_fails_at(width, height, tiles@, responses@, k as int, RenderError::InvalidTileResponse);
            }
            return Err(RenderError::InvalidTileResponse);
        }
        let ghost before = pixels@;
        paste_block(
            &mut pixels,
            width,
            height,
            tile.x,
            tile.y,
            request.width,
            request.height,
            &response.pixels,
        );
        proof {
            assert(response_error(width, height, tiles@, responses@, k as int) is None);
            assert forall|other: u32| #[trigger] seen@.contains(other) <==> answered_before(
                responses@,
                k + 1,
                other,
            ) by {
                if answered_before(responses@, k + 1, other) {
                    let j = choose|j: int| 0 <= j < k + 1 && #[trigger] responses@[j].tile_id == other;
                    if j < k {
                        assert(answered_before(responses@, k as int, other));
                    }
                }
                if answered_before(responses@, k as int, other) {
                    let j = choose|j: int| 0 <= j < k && #[trigger] responses@[j].tile_id == other;
                    assert(responses@[j].tile_id == other);
                }
                if other == id {
                    assert(responses@[k as int].tile_id == other);
                }
            }
        }
        k = k + 1;
    }
    proof {
        assert(responses@.len() == k);
    }
    if seen.len() != tiles.len() {
        proof {
            if all_tiles_answered(tiles@, responses@) {
                assert(by_id@.dom().subset_of(seen@)) by {
                    assert forall|id: u32| by_id@.dom().contains(id) implies seen@.contains(id) by {
                        assert(by_id@.contains_key(id));
                        let i = by_id@[id] as int;
                        assert(answered_before(responses@, responses@.len() as int, tiles@[i].request.tile_id));
                    }
                }
                assert(seen@ =~= by_id@.dom());
            }
        }
        return Err(RenderError::MissingTile);
    }
    proof {
        if !all_tiles_answered(tiles@, responses@) {
            let i = choose|i: int|
                0 <= i < tiles@.len() && !answered_before(
                    responses@,
                    responses@.len() as int,
                    #[trigger] tiles@[i].request.tile_id,
                );
            let id = tiles@[i].request.tile_id;
            assert(has_tile(tiles@, id));
            seen@.lemma_subset_not_in_lt(by_id@.dom(), id);
        }
        assert forall|px: int, py: int, channel: int|
            0 <= px < width && 0 <= py < height && 0 <= channel < 3 implies pixels@[rgb_offset(
            width as int,
            px,
            py,
            channel,
        )] == #[trigger] assembled_byte(
            tiles@,
            responses@,
            responses@.len() as int,
            px,
            py,
            channel,
        ) by {
            crate::image::lemma_offset_in_buffer(w, height as int, px, py, channel);
            lemma_offset_coordinates(w, px, py, channel);
        }
    }
    Ok(pixels)
}


/// Whether the responses name pairwise distinct tiles.
pub open spec fn response_ids_distinct(responses: Seq<RenderTileResponse>) -> bool {
    forall|i: int, j: int|
        0 <= i < responses.len() && 0 <= j < responses.len() && i != j ==> #[trigger] responses[i].tile_id
            != #[trigger] responses[j].tile_id
}

/// Whether `permutation` maps positions of `reordered` one-to-one onto
/// positions of `responses`, each position holding the same response.
pub open spec fn is_reordering(
    responses: Seq<RenderTileResponse>,
    reordered: Seq<RenderTileResponse>,
    permutation: Seq<int>,
) -> bool {
    &&& reordered.len() == responses.len()
    &&& permutation.len() == responses.len()
    &&& forall|i: int|
        0 <= i < reordered.len() ==> 0 <= #[trigger] permutation[i] < responses.len()
            && reordered[i] == responses[permutation[i]]
    &&& forall|i: int, j: int|
        0 <= i < permutation.len() && 0 <= j < permutation.len() && i != j ==> #[trigger] permutation[i]
            != #[trigger] permutation[j]
    &&& forall|k: int| 0 <= k < responses.len() ==> #[trigger] takes_value(permutation, k)
}

/// Whether some position of `permutation` holds `k`.
pub open spec fn takes_value(permutation: Seq<int>, k: int) -> bool {
    exists|i: int| 0 <= i < permutation.len() && #[trigger] permutation[i] == k
}

/// No error among the first `count` responses means none of them has one.
proof fn lemma_no_first_error(
    width: u32,
    height: u32,
    tiles: Seq<TilePlan>,
    responses: Seq<RenderTileResponse>,
    count: int,
)
    requires
        0 <= count <= responses.len(),
    ensures
        first_response_error(width, height, tiles, responses, count) is None <==> forall|k: int|
            0 <= k < count ==> #[trigger] response_error(width, height, tiles, responses, k) is None,
    decreases count,
{
    if count > 0 {
        lemma_no_first_error(width, height, tiles, responses, count - 1);
    }
}

/// Responses that pass every check name known, pairwise distinct tiles.
proof fn lemma_valid_responses_distinct(
    width: u32,
    height: u32,
    tiles: Seq<TilePlan>,
    responses: Seq<RenderTileResponse>,
)
    requires
        first_response_error(width, height, tiles, responses, responses.len() as int) is None,
    ensures
        response_ids_distinct(responses),
        forall|k: int| 0 <= k < responses.len() ==> has_tile(tiles, #[trigger] responses[k].tile_id),
{
    lemma_no_first_error(width, height, tiles, responses, responses.len() as int);
    assert forall|i: int, j: int|
        0 <= i < responses.len() && 0 <= j < responses.len() && i != j implies #[trigger] responses[i].tile_id
            != #[trigger] responses[j].tile_id by {
        if i < j {
            assert(response_error(width, height, tiles, responses, j) is None);
        } else {
            assert(response_error(width, height, tiles, responses, i) is None);
        }
    }
    assert forall|k: int| 0 <= k < responses.len() implies has_tile(tiles, #[trigger] responses[k].tile_id) by {
        assert(response_error(width, height, tiles, responses, k) is None);
    }
}

/// Tiles with different identifiers, in a sequence of disjoint tiles, share no pixel.
proof fn lemma_other_tile_misses(tiles: Seq<TilePlan>, first: u32, second: u32, px: int, py: int)
    requires
        tiles_disjoint(tiles),
        has_tile(tiles, first),
        has_tile(tiles, second),
        first != second,
        tile_contains(tile_with_id(tiles, first), px, py),
    ensures
        !tile_contains(tile_with_id(tiles, second), px, py),
{
    let i = choose|i: int| 0 <= i < tiles.len() && #[trigger] tiles[i].request.tile_id == first;
    let j = choose|j: int| 0 <= j < tiles.len() && #[trigger] tiles[j].request.tile_id == second;
    assert(tile_contains(tiles[i], px, py));
}

/// Law: with disjoint tiles, every response's pixels land at its tile's
/// position: channel `channel` of the pixel `(px, py)` inside the tile of
/// response `k` is the matching byte of that response, wherever the response
/// stands in the sequence.
pub proof fn lemma_assembly_places_each_response(
    width: u32,
    height: u32,
    tiles: Seq<TilePlan>,
    responses: Seq<RenderTileResponse>,
    count: int,
    k: int,
    px: int,
    py: int,
    channel: int,
)
    requires
        tiles_disjoint(tiles),
        first_response_error(width, height, tiles, responses, responses.len() as int) is None,
        0 <= k < count <= responses.len(),
        tile_contains(tile_with_id(tiles, responses[k].tile_id), px, py),
    ensures
        assembled_byte(tiles, responses, count, px, py, channel) == responses[k].pixels@[rgb_offset(
            tile_with_id(tiles, responses[k].tile_id).request.width as int,
            px - tile_with_id(tiles, responses[k].tile_id).x,
            py - tile_with_id(tiles, responses[k].tile_id).y,
            channel,
        )],
    decreases count,
{
    lemma_valid_responses_distinct(width, height, tiles, responses);
    if count - 1 != k {
        assert(responses[count - 1].tile_id != responses[k].tile_id);
        lemma_other_tile_misses(tiles, responses[k].tile_id, responses[count - 1].tile_id, px, py);
        lemma_assembly_places_each_response(
            width,
            height,
            tiles,
            responses,
            count - 1,
            k,
            px,
            py,
            channel,
        );
    }
}

/// Law: a pixel that no response's tile holds stays black.
pub proof fn lemma_assembly_uncovered_black(
    tiles: Seq<TilePlan>,
    responses: Seq<RenderTileResponse>,
    count: int,
    px: int,
    py: int,
    channel: int,
)
    requires
        0 <= count <= responses.len(),
        forall|k: int|
            0 <= k < count ==> !tile_contains(
                #[trigger] tile_with_id(tiles, responses[k].tile_id),
                px,
                py,
            ),
    ensures
        assembled_byte(tiles, responses, count, px, py, channel) == 0,
    decreases count,
{
    if count > 0 {
        assert(!tile_contains(tile_with_id(tiles, responses[count - 1].tile_id), px, py));
        lemma_assembly_uncovered_black(tiles, responses, count - 1, px, py, channel);
    }
}

/// Law: assembly does not depend on the order in which responses arrive.
/// When the tiles are disjoint and a sequence of responses assembles, any
/// reordering of it assembles too, into the same image.
pub proof fn lemma_assembly_order_independent(
    width: u32,
    height: u32,
    tiles: Seq<TilePlan>,
    responses: Seq<RenderTileResponse>,
    reordered: Seq<RenderTileResponse>,
    permutation: Seq<int>,
)
    requires
        tiles_disjoint(tiles),
        assembly_error(width, height, tiles, responses) is None,
        is_reordering(responses, reordered, permutation),
    ensures
        assembly_error(width, height, tiles, reordered) is None,
        forall|px: int, py: int, channel: int|
            #[trigger] assembled_byte(tiles, reordered, reordered.len() as int, px, py, channel)
                == assembled_byte(tiles, responses, responses.len() as int, px, py, channel),
{
    let n = responses.len() as int;
    lemma_valid_responses_distinct(width, height, tiles, responses);
    lemma_no_first_error(width, height, tiles, responses, n);
    lemma_no_first_error(width, height, tiles, reordered, n);
    assert forall|k: int| 0 <= k < n implies #[trigger] response_error(
        width,
        height,
        tiles,
        reordered,
        k,
    ) is None by {
        let source = permutation[k];
        assert(response_error(width, height, tiles, responses, source) is None);
        if answered_before(reordered, k, reordered[k].tile_id) {
            let j = choose|j: int| 0 <= j < k && #[trigger] reordered[j].tile_id == reordered[k].tile_id;
            assert(responses[permutation[j]].tile_id == responses[permutation[k]].tile_id);
            assert(permutation[j] != permutation[k]);
        }
    }
    assert forall|i: int| 0 <= i < tiles.len() implies answered_before(
        reordered,
        n,
        #[trigger] tiles[i].request.tile_id,
    ) by {
        assert(answered_before(responses, n, tiles[i].request.tile_id));
        let k = choose|k: int| 0 <= k < n && #[trigger] responses[k].tile_id == tiles[i].request.tile_id;
        assert(takes_value(permutation, k));
        let j = choose|j: int| 0 <= j < permutation.len() && #[trigger] permutation[j] == k;
        assert(reordered[j].tile_id == tiles[i].request.tile_id);
    }
    lemma_valid_responses_distinct(width, height, tiles, reordered);
    assert forall|px: int, py: int, channel: int|
        #[trigger] assembled_byte(tiles, reordered, reordered.len() as int, px, py, channel)
            == assembled_byte(tiles, responses, n, px, py, channel) by {
        if exists|k: int| 0 <= k < n && tile_contains(#[trigger] tile_with_id(tiles, responses[k].tile_id), px, py) {
            let k = choose|k: int| 0 <= k < n && tile_contains(#[trigger] tile_with_id(tiles, responses[k].tile_id), px, py);
            assert(takes_value(permutation, k));
            let j = choose|j: int| 0 <= j < permutation.len() && #[trigger] permutation[j] == k;
            assert(reordered[j] == responses[k]);
            lemma_assembly_places_each_response(width, height, tiles, responses, n, k, px, py, channel);
            lemma_assembly_places_each_response(width, height, tiles, reordered, n, j, px, py, channel);
        } else {
            assert forall|j: int| 0 <= j < n implies !tile_contains(
                #[trigger] tile_with_id(tiles, reordered[j].tile_id),
                px,
                py,
            ) by {
                assert(reordered[j] == responses[permutation[j]]);
            }
            lemma_assembly_uncovered_black(tiles, responses, n, px, py, channel);
            lemma_assembly_uncovered_black(tiles, reordered, n, px, py, channel);
        }
    }
}


/// Whether `response` names one of the tiles and has that tile's size.
pub open spec fn fits_its_tile(tiles: Seq<TilePlan>, response: RenderTileResponse) -> bool {
    let tile = tile_with_id(tiles, response.tile_id);
    &&& has_tile(tiles, response.tile_id)
    &&& response.width == tile.request.width
    &&& response.height == tile.request.height
    &&& response.pixels@.len() == tile.request.width * tile.request.height * 3
}

/// Law: a plan's responses assemble, in whatever order they arrive, as soon
/// as each planned tile has exactly one response of the tile's size and the
/// image fits in memory.
pub proof fn lemma_complete_answers_assemble(
    width: u32,
    height: u32,
    tile_size: u32,
    max_iterations: u32,
    responses: Seq<RenderTileResponse>,
)
    requires
        plan_dimensions_nonzero(width, height, tile_size),
        tile_count(width, height, tile_size) <= u32::MAX,
        width * height * 3 <= usize::MAX,
        response_ids_distinct(responses),
        forall|k: int|
            0 <= k < responses.len() ==> fits_its_tile(
                planned_tiles(width, height, tile_size, max_iterations),
                #[trigger] responses[k],
            ),
        all_tiles_answered(planned_tiles(width, height, tile_size, max_iterations), responses),
    ensures
        assembly_error(width, height, planned_tiles(width, height, tile_size, max_iterations), responses)
            is None,
{
    let tiles = planned_tiles(width, height, tile_size, max_iterations);
    assert forall|i: int, j: int|
        0 <= i < tiles.len() && 0 <= j < tiles.len() && i != j implies #[trigger] tiles[i].request.tile_id
            != #[trigger] tiles[j].request.tile_id by {
        lemma_planned_tile_within_image(width, height, tile_size, max_iterations, i);
        lemma_planned_tile_within_image(width, height, tile_size, max_iterations, j);
    }
    assert forall|k: int| 0 <= k < responses.len() implies #[trigger] response_error(
        width,
        height,
        tiles,
        responses,
        k,
    ) is None by {
        let response = responses[k];
        assert(fits_its_tile(tiles, response));
        let i = choose|i: int| 0 <= i < tiles.len() && #[trigger] tiles[i].request.tile_id == response.tile_id;
        lemma_tile_with_id(tiles, i);
        lemma_planned_tile_within_image(width, height, tile_size, max_iterations, i);
        let tile = tiles[i];
        assert(tile.request.width * tile.request.height * 3 <= width * height * 3) by (nonlinear_arith)
            requires
                tile.request.width <= width,
                tile.request.height <= height,
        ;
        if answered_before(responses, k, response.tile_id) {
            let j = choose|j: int| 0 <= j < k && #[trigger] responses[j].tile_id == response.tile_id;
            assert(responses[j].tile_id != responses[k].tile_id);
        }
    }
    lemma_no_first_error(width, height, tiles, responses, responses.len() as int);
}

} // verus!
