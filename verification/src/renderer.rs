use vstd::prelude::*;

use crate::api::RuntimeKind;

verus! {

/// Errors raised while planning, assembling, or encoding the image.
#[derive(Debug, Clone, Copy, PartialEq, Eq, Structural)]
pub enum RenderError {
    /// Image dimensions and tile size must be non-zero.
    EmptyDimensions,
    /// The image or tile count cannot be represented on this platform.
    DimensionsTooLarge,
    /// A response refers to a tile that was not requested.
    UnknownTile,
    /// A tile response has an invalid or duplicate identifier.
    InvalidTileResponse,
    /// A requested tile has no response.
    MissingTile,
}

impl RenderError {
    /// The human-readable description of the error.
    pub fn message(&self) -> (text: &'static str)
        ensures
            text@ == render_error_text(*self),
    {
        match self {
            RenderError::EmptyDimensions => "image dimensions and tile size must be non-zero",
            RenderError::DimensionsTooLarge => "image dimensions or tile count are too large",
            RenderError::UnknownTile => "received a response for an unknown tile",
            RenderError::InvalidTileResponse => "received an invalid or duplicate tile response",
            RenderError::MissingTile => "one or more tile responses are missing",
        }
    }
}

/// The description of each renderer error.
pub open spec fn render_error_text(error: RenderError) -> Seq<char> {
    match error {
        RenderError::EmptyDimensions => "image dimensions and tile size must be non-zero"@,
        RenderError::DimensionsTooLarge => "image dimensions or tile count are too large"@,
        RenderError::UnknownTile => "received a response for an unknown tile"@,
        RenderError::InvalidTileResponse => "received an invalid or duplicate tile response"@,
        RenderError::MissingTile => "one or more tile responses are missing"@,
    }
}

/// The part of the full Mandelbrot view that a tile samples, given as the
/// tile's pixel bounds within the whole image.
///
/// The full view spans the real axis from -2 to 1 and the imaginary axis from
/// -1 to 1. A tile covers the real axis from `-2 + 3 * left / image_width` to
/// `-2 + 3 * right / image_width` and the imaginary axis from
/// `1 - 2 * bottom / image_height` up to `1 - 2 * top / image_height`.
#[derive(Debug, Clone, Copy, PartialEq, Eq, Structural)]
pub struct TileRegion {
    /// Left pixel edge of the tile.
    pub left: u32,
    /// Right pixel edge of the tile (exclusive).
    pub right: u32,
    /// Top pixel edge of the tile.
    pub top: u32,
    /// Bottom pixel edge of the tile (exclusive).
    pub bottom: u32,
    /// Width of the whole image in pixels.
    pub image_width: u32,
    /// Height of the whole image in pixels.
    pub image_height: u32,
}

/// A request to render one tile.
#[derive(Debug, Clone, Copy, PartialEq, Eq, Structural)]
pub struct RenderTileRequest {
    /// Identifier of the tile within its image.
    pub tile_id: u32,
    /// Part of the view that the tile samples.
    pub region: TileRegion,
    /// Number of pixels across.
    pub width: u32,
    /// Number of pixels down.
    pub height: u32,
    /// Maximum Mandelbrot iterations per pixel.
    pub max_iterations: u32,
}

/// A rendered tile as returned by a worker.
#[derive(Debug, Clone, PartialEq)]
pub struct RenderTileResponse {
    /// Identifier of the tile that was rendered.
    pub tile_id: u32,
    /// Identifier of the worker that rendered it.
    pub worker_id: String,
    /// Runtime that served the request.
    pub runtime: RuntimeKind,
    /// Number of pixels across.
    pub width: u32,
    /// Number of pixels down.
    pub height: u32,
    /// Row-major RGB8 pixels.
    pub pixels: Vec<u8>,
}

/// A tile request together with its pixel offset in the final image.
#[derive(Debug, Clone, Copy, PartialEq, Eq, Structural)]
pub struct TilePlan {
    /// Horizontal pixel offset from the image's left edge.
    pub x: u32,
    /// Vertical pixel offset from the image's top edge.
    pub y: u32,
    /// Request sent to a render worker.
    pub request: RenderTileRequest,
}

/// Whether the pixel at column `px` and row `py` lies inside the tile.
pub open spec fn tile_contains(tile: TilePlan, px: int, py: int) -> bool {
    &&& tile.x <= px < tile.x + tile.request.width
    &&& tile.y <= py < tile.y + tile.request.height
}

} // verus!
