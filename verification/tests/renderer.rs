use std::io::Cursor;

use showcase::api::RuntimeKind;
use showcase::assemble::{assemble_into, assemble_rgb};
use showcase::fractal::fill_tile;
use showcase::plan::{fill_plan, plan_tiles};
use showcase::png_output::{write_png, PngEncodingError};
use showcase::renderer::{RenderError, RenderTileResponse, TilePlan, TileRegion};

fn response(tile: &TilePlan, color: [u8; 3]) -> RenderTileResponse {
    let pixels = color.repeat((tile.request.width * tile.request.height) as usize);
    RenderTileResponse {
        tile_id: tile.request.tile_id,
        worker_id: "test-worker".to_owned(),
        runtime: RuntimeKind::Tokio,
        width: tile.request.width,
        height: tile.request.height,
        pixels,
    }
}

#[test]
fn planning_covers_non_divisible_image_dimensions() {
    let tiles = plan_tiles(5, 3, 2, 64).unwrap();

    assert_eq!(tiles.len(), 6);
    assert_eq!((tiles[0].request.width, tiles[0].request.height), (2, 2));
    assert_eq!((tiles[2].x, tiles[2].request.width), (4, 1));
    assert_eq!((tiles[5].y, tiles[5].request.height), (2, 1));
}

#[test]
fn assembly_uses_tile_coordinates_not_completion_order() {
    let tiles = plan_tiles(2, 2, 1, 16).unwrap();
    let colors = [[1, 0, 0], [2, 0, 0], [3, 0, 0], [4, 0, 0]];
    let responses: Vec<_> = tiles
        .iter()
        .zip(colors)
        .rev()
        .map(|(tile, color)| response(tile, color))
        .collect();

    let image = assemble_rgb(2, 2, &tiles, &responses).unwrap();

    assert_eq!(image, [1, 0, 0, 2, 0, 0, 3, 0, 0, 4, 0, 0]);
}

#[test]
fn png_output_has_expected_dimensions_and_rgb_pixels() {
    let pixels = [7, 8, 9, 10, 11, 12];
    let mut encoded = Vec::new();
    write_png(&mut encoded, 2, 1, &pixels).unwrap();

    let decoder = png::Decoder::new(Cursor::new(encoded));
    let mut reader = decoder.read_info().unwrap();
    let mut decoded = vec![0; reader.output_buffer_size().unwrap()];
    let info = reader.next_frame(&mut decoded).unwrap();

    assert_eq!((info.width, info.height), (2, 1));
    assert_eq!(&decoded[..info.buffer_size()], &pixels);
}

#[test]
fn png_keeps_what_the_output_held_and_refuses_bad_input() {
    let mut encoded = vec![1, 2, 3];
    write_png(&mut encoded, 1, 1, &[4, 5, 6]).unwrap();
    assert_eq!(&encoded[..3], &[1, 2, 3]);
    assert_eq!(&encoded[3..11], &[137, 80, 78, 71, 13, 10, 26, 10]);

    let mut empty = Vec::new();
    assert_eq!(write_png(&mut empty, 0, 1, &[]), Err(PngEncodingError::Format));
    let mut short = Vec::new();
    assert_eq!(write_png(&mut short, 2, 1, &[1, 2, 3]), Err(PngEncodingError::Parameter));
}

#[test]
fn planning_rejects_empty_and_oversized_grids() {
    assert_eq!(plan_tiles(0, 3, 2, 64), Err(RenderError::EmptyDimensions));
    assert_eq!(plan_tiles(3, 0, 2, 64), Err(RenderError::EmptyDimensions));
    assert_eq!(plan_tiles(3, 3, 0, 64), Err(RenderError::EmptyDimensions));
    assert_eq!(plan_tiles(65536, 65536, 1, 64), Err(RenderError::DimensionsTooLarge));
}

#[test]
fn planned_tiles_carry_ids_regions_and_iterations() {
    let tiles = plan_tiles(5, 3, 2, 64).unwrap();
    for (index, tile) in tiles.iter().enumerate() {
        assert_eq!(tile.request.tile_id as usize, index);
        assert_eq!(tile.request.max_iterations, 64);
        assert_eq!(
            tile.request.region,
            TileRegion {
                left: tile.x,
                right: tile.x + tile.request.width,
                top: tile.y,
                bottom: tile.y + tile.request.height,
                image_width: 5,
                image_height: 3,
            }
        );
    }
    let origins: Vec<(u32, u32)> = tiles.iter().map(|tile| (tile.x, tile.y)).collect();
    assert_eq!(origins, [(0, 0), (2, 0), (4, 0), (0, 2), (2, 2), (4, 2)]);
}

#[test]
fn every_pixel_lies_in_exactly_one_planned_tile() {
    let (width, height) = (7, 5);
    let tiles = plan_tiles(width, height, 3, 10).unwrap();
    for py in 0..height {
        for px in 0..width {
            let holders = tiles
                .iter()
                .filter(|tile| {
                    tile.x <= px
                        && px < tile.x + tile.request.width
                        && tile.y <= py
                        && py < tile.y + tile.request.height
                })
                .count();
            assert_eq!(holders, 1, "pixel ({px}, {py})");
        }
    }
}

#[test]
fn assembly_gives_the_same_image_in_any_order() {
    let tiles = plan_tiles(3, 3, 2, 8).unwrap();
    let colors = [[10, 20, 30], [40, 50, 60], [70, 80, 90], [1, 2, 3]];
    let in_order: Vec<_> = tiles
        .iter()
        .zip(colors)
        .map(|(tile, color)| response(tile, color))
        .collect();
    let mut shuffled = in_order.clone();
    shuffled.swap(0, 3);
    shuffled.swap(1, 2);

    let first = assemble_rgb(3, 3, &tiles, &in_order).unwrap();
    let second = assemble_rgb(3, 3, &tiles, &shuffled).unwrap();
    assert_eq!(first, second);
    assert_eq!(
        first,
        [
            10, 20, 30, 10, 20, 30, 40, 50, 60, //
            10, 20, 30, 10, 20, 30, 40, 50, 60, //
            70, 80, 90, 70, 80, 90, 1, 2, 3,
        ]
    );
}

#[test]
fn assembly_leaves_uncovered_pixels_black() {
    let tiles = vec![TilePlan { x: 1, ..plan_tiles(1, 1, 1, 4).unwrap()[0] }];
    let image = assemble_rgb(2, 1, &tiles, &[response(&tiles[0], [9, 9, 9])]).unwrap();
    assert_eq!(image, [0, 0, 0, 9, 9, 9]);
}

#[test]
fn assembly_reports_each_error() {
    let tiles = plan_tiles(2, 2, 1, 16).unwrap();
    let good: Vec<_> = tiles.iter().map(|tile| response(tile, [5, 5, 5])).collect();

    assert_eq!(assemble_rgb(0, 2, &tiles, &good), Err(RenderError::EmptyDimensions));
    assert_eq!(
        assemble_rgb(u32::MAX, u32::MAX, &tiles, &good),
        Err(RenderError::DimensionsTooLarge)
    );

    let mut unknown = good.clone();
    unknown[1].tile_id = 99;
    assert_eq!(assemble_rgb(2, 2, &tiles, &unknown), Err(RenderError::UnknownTile));

    let mut repeated = good.clone();
    repeated[2] = repeated[0].clone();
    assert_eq!(
        assemble_rgb(2, 2, &tiles, &repeated),
        Err(RenderError::InvalidTileResponse)
    );

    let mut wrong_size = good.clone();
    wrong_size[3].pixels.push(0);
    assert_eq!(
        assemble_rgb(2, 2, &tiles, &wrong_size),
        Err(RenderError::InvalidTileResponse)
    );

    assert_eq!(
        assemble_rgb(1, 2, &tiles, &good),
        Err(RenderError::InvalidTileResponse)
    );

    assert_eq!(
        assemble_rgb(2, 2, &tiles, &good[..3]),
        Err(RenderError::MissingTile)
    );

    let mut twin_tiles = tiles.clone();
    twin_tiles[1].request.tile_id = 0;
    assert_eq!(
        assemble_rgb(2, 2, &twin_tiles, &good),
        Err(RenderError::InvalidTileResponse)
    );

    let mut first_error_wins = good.clone();
    first_error_wins[0].tile_id = 42;
    first_error_wins[1].pixels.clear();
    assert_eq!(
        assemble_rgb(2, 2, &tiles, &first_error_wins),
        Err(RenderError::UnknownTile)
    );
}

#[test]
fn renderer_errors_describe_themselves() {
    assert_eq!(
        RenderError::MissingTile.message(),
        "one or more tile responses are missing"
    );
    assert_eq!(
        RenderError::EmptyDimensions.message(),
        "image dimensions and tile size must be non-zero"
    );
}

fn sized_response(tile_id: u32, width: u32, height: u32, pixels: Vec<u8>) -> RenderTileResponse {
    RenderTileResponse {
        tile_id,
        worker_id: "test-worker".to_owned(),
        runtime: RuntimeKind::Tokio,
        width,
        height,
        pixels,
    }
}

#[test]
fn filling_a_plan_matches_planning() {
    let filled = fill_plan(Vec::new(), 5, 3, 2, 64);
    assert_eq!(filled, plan_tiles(5, 3, 2, 64).unwrap());
    assert_eq!(filled.len(), 6);
    assert_eq!((filled[4].x, filled[4].y, filled[4].request.tile_id), (2, 2, 4));
    assert_eq!((filled[4].request.width, filled[4].request.height), (2, 1));
}

#[test]
fn assembly_into_a_buffer_places_rows_by_image_width() {
    let tiles = plan_tiles(3, 2, 2, 16).unwrap();
    let responses = vec![
        sized_response(1, 1, 2, vec![5, 5, 5, 6, 6, 6]),
        sized_response(0, 2, 2, vec![1, 1, 1, 2, 2, 2, 3, 3, 3, 4, 4, 4]),
    ];
    let image = assemble_into(Vec::new(), 3, 2, &tiles, &responses).unwrap();
    assert_eq!(image, [1, 1, 1, 2, 2, 2, 5, 5, 5, 3, 3, 3, 4, 4, 4, 6, 6, 6]);
}

#[test]
fn assembly_into_a_buffer_names_the_first_error() {
    let tiles = plan_tiles(2, 2, 1, 16).unwrap();
    let one = |id: u32, red: u8| sized_response(id, 1, 1, vec![red, 0, 0]);

    let missing = vec![one(0, 1), one(1, 2), one(2, 3)];
    assert_eq!(assemble_into(Vec::new(), 2, 2, &tiles, &missing), Err(RenderError::MissingTile));

    let repeated = vec![one(0, 1), one(1, 2), one(2, 3), one(3, 4), one(0, 9)];
    assert_eq!(
        assemble_into(Vec::new(), 2, 2, &tiles, &repeated),
        Err(RenderError::InvalidTileResponse)
    );

    let unknown = vec![one(7, 1)];
    assert_eq!(assemble_into(Vec::new(), 2, 2, &tiles, &unknown), Err(RenderError::UnknownTile));

    let mut shared = tiles.clone();
    shared[1].request.tile_id = 0;
    assert_eq!(
        assemble_into(Vec::new(), 2, 2, &shared, &[]),
        Err(RenderError::InvalidTileResponse)
    );

    let complete = vec![one(3, 4), one(1, 2), one(0, 1), one(2, 3)];
    assert_eq!(
        assemble_into(Vec::new(), 2, 2, &tiles, &complete).unwrap(),
        [1, 0, 0, 2, 0, 0, 3, 0, 0, 4, 0, 0]
    );
}

#[test]
fn filling_a_tile_colours_each_pixel() {
    let tile = fill_tile(Vec::new(), 3, 2, 64, |x, y| if x == 0 && y == 0 { None } else { Some(64) });
    assert_eq!((tile.width, tile.height), (3, 2));
    assert_eq!(tile.pixels.len(), 18);
    assert_eq!(&tile.pixels[..6], &[0, 0, 0, 255, 255, 0]);
}

#[test]
fn png_accepts_any_image_whose_buffer_fits() {
    let mut encoded = Vec::new();
    assert_eq!(
        write_png(&mut encoded, 1, 1, &[1, 2, 3, 4]),
        Err(PngEncodingError::Parameter)
    );
}
