//! Splitting an image into overlapping square tiles for tiled processing.
use vstd::prelude::*;
use vstd::arithmetic::div_mod::{lemma_fundamental_div_mod, lemma_div_plus_one, lemma_div_is_ordered,
    lemma_div_pos_is_pos, lemma_fundamental_div_mod_converse};

verus! {

/// Tiling parameters: square tiles of `tile_size` pixels whose neighbours
/// overlap by `overlap` pixels.
#[derive(Clone, Copy, Debug)]
pub struct TileConfig {
    /// Side of each (square) tile.
    pub tile_size: u32,
    /// Overlap between adjacent tiles.
    pub overlap: u32,
}

/// Where one tile lies in the source image.
#[derive(Clone, Copy, Debug)]
pub struct TileInfo {
    /// Left edge in the source image.
    pub x: u32,
    /// Top edge in the source image.
    pub y: u32,
    /// Width of the tile.
    pub width: u32,
    /// Height of the tile.
    pub height: u32,
    /// Position of the tile in the row-major tile order.
    pub index: u32,
    /// Number of tiles of the image.
    pub total: u32,
}

impl TileConfig {
    /// Distance between the starts of neighbouring tiles: `tile_size - overlap`, or 0.
    pub open spec fn spec_stride(&self) -> int {
        if self.tile_size >= self.overlap {
            self.tile_size - self.overlap
        } else {
            0
        }
    }

    /// The default configuration: 256-pixel tiles overlapping by 64 pixels.
    pub fn default() -> (c: TileConfig)
        ensures
            c.tile_size == 256,
            c.overlap == 64,
    {
        TileConfig { tile_size: 256, overlap: 64 }
    }

    /// A configuration with the given tile size and overlap.
    pub fn new(tile_size: u32, overlap: u32) -> (c: TileConfig)
        ensures
            c.tile_size == tile_size,
            c.overlap == overlap,
    {
        TileConfig { tile_size, overlap }
    }

    /// The same configuration with another tile size.
    pub fn with_tile_size(self, size: u32) -> (c: TileConfig)
        ensures
            c.tile_size == size,
            c.overlap == self.overlap,
    {
        TileConfig { tile_size: size, overlap: self.overlap }
    }

    /// The same configuration with another overlap.
    pub fn with_overlap(self, overlap: u32) -> (c: TileConfig)
        ensures
            c.tile_size == self.tile_size,
            c.overlap == overlap,
    {
        TileConfig { tile_size: self.tile_size, overlap }
    }

    /// The stride `tile_size - overlap`, saturating at 0.
    pub fn stride(&self) -> (s: u32)
        ensures
            s == self.spec_stride(),
    {
        self.tile_size.saturating_sub(self.overlap)
    }
}

/// Number of tiles along an axis of `extent` pixels: `ceil(extent / stride)`, at least one.
pub open spec fn tiles_along(extent: int, stride: int) -> int {
    let n = (extent + stride - 1) / stride;
    if n < 1 {
        1
    } else {
        n
    }
}

/// Start of tile `t` along an axis; a tile that would cross the far edge of an axis
/// longer than a tile is moved back so that it ends at the edge.
pub open spec fn tile_origin(t: int, stride: int, tile_size: int, extent: int) -> int {
    let start = t * stride;
    if start + tile_size > extent && extent > tile_size {
        extent - tile_size
    } else {
        start
    }
}

/// Length of a tile starting at `origin`: the tile size, cut at the far edge.
pub open spec fn tile_span(origin: int, tile_size: int, extent: int) -> int {
    if tile_size < extent - origin {
        tile_size
    } else {
        extent - origin
    }
}

/// Tile `k` of a `w x h` image, in row-major tile order, as `generate_tiles` describes it.
pub open spec fn tile_matches(t: TileInfo, w: int, h: int, tile_size: int, stride: int, k: int) -> bool {
    let nx = tiles_along(w, stride);
    let ny = tiles_along(h, stride);
    let x = tile_origin(k % nx, stride, tile_size, w);
    let y = tile_origin(k / nx, stride, tile_size, h);
    &&& t.x == x
    &&& t.y == y
    &&& t.width == tile_span(x, tile_size, w)
    &&& t.height == tile_span(y, tile_size, h)
    &&& t.index == k
    &&& t.total == nx * ny
}

/// Along one axis, the start of every tile lies before the far edge (or at 0 on an
/// empty axis), and there are `(extent - 1) / stride + 1` tiles on a non-empty axis.
proof fn lemma_tile_start(extent: int, stride: int, t: int)
    requires
        0 <= extent,
        0 < stride,
        0 <= t < tiles_along(extent, stride),
    ensures
        0 <= t * stride,
        extent == 0 ==> t == 0,
        extent > 0 ==> t * stride < extent,
        1 <= tiles_along(extent, stride),
        extent > 0 ==> tiles_along(extent, stride) <= extent,
{
    assert(0 <= t * stride) by (nonlinear_arith)
        requires
            0 <= t,
            0 < stride,
    ;
    if extent == 0 {
        lemma_div_is_ordered(stride - 1, stride, stride);
        assert(stride / stride == 1) by (nonlinear_arith)
            requires
                0 < stride,
        ;
        if (stride - 1) / stride >= 1 {
            lemma_fundamental_div_mod(stride - 1, stride);
            assert(false) by (nonlinear_arith)
                requires
                    (stride - 1) / stride >= 1,
                    stride - 1 == stride * ((stride - 1) / stride) + (stride - 1) % stride,
                    (stride - 1) % stride >= 0,
                    0 < stride,
            ;
        }
    } else {
        lemma_div_plus_one(extent - 1, stride);
        assert(stride + (extent - 1) == extent + stride - 1);
        lemma_div_pos_is_pos(extent - 1, stride);
        let q = (extent - 1) / stride;
        lemma_fundamental_div_mod(extent - 1, stride);
        assert(extent - 1 == stride * q + (extent - 1) % stride);
        assert(t <= q);
        assert(t * stride <= q * stride) by (nonlinear_arith)
            requires
                0 <= t <= q,
                0 < stride,
        ;
        assert(q * stride == stride * q) by (nonlinear_arith);
        assert(q + 1 <= extent) by (nonlinear_arith)
            requires
                extent - 1 == stride * q + (extent - 1) % stride,
                (extent - 1) % stride >= 0,
                0 <= q,
                1 <= stride,
        ;
    }
}

/// Along one axis, every tile lies inside the axis and is at most `tile_size` long.
pub proof fn lemma_tile_inside(extent: int, stride: int, tile_size: int, t: int)
    requires
        0 <= extent,
        0 < stride,
        0 <= tile_size,
        0 <= t < tiles_along(extent, stride),
    ensures
        0 <= tile_origin(t, stride, tile_size, extent),
        tile_origin(t, stride, tile_size, extent) <= extent,
        0 <= tile_span(tile_origin(t, stride, tile_size, extent), tile_size, extent) <= tile_size,
        tile_origin(t, stride, tile_size, extent) + tile_span(tile_origin(t, stride, tile_size, extent),
            tile_size, extent) <= extent,
{
    lemma_tile_start(extent, stride, t);
}

/// Along one axis, every position `p` of the axis lies in tile `p / stride`.
pub proof fn lemma_tile_covers(extent: int, stride: int, tile_size: int, p: int)
    requires
        0 < stride <= tile_size,
        0 <= p < extent,
    ensures
        0 <= p / stride < tiles_along(extent, stride),
        tile_origin(p / stride, stride, tile_size, extent) <= p,
        p < tile_origin(p / stride, stride, tile_size, extent) + tile_span(
            tile_origin(p / stride, stride, tile_size, extent),
            tile_size,
            extent,
        ),
{
    let t = p / stride;
    lemma_div_pos_is_pos(p, stride);
    lemma_div_is_ordered(p, extent - 1, stride);
    lemma_div_plus_one(extent - 1, stride);
    assert(stride + (extent - 1) == extent + stride - 1);
    lemma_fundamental_div_mod(p, stride);
    assert(stride * t == t * stride) by (nonlinear_arith);
    assert(t * stride <= p < t * stride + stride);
}

/// Every pixel of a `w x h` image lies in one of the tiles that `generate_tiles`
/// describes: the tiles cover the image.
pub proof fn lemma_tiles_cover_image(w: int, h: int, tile_size: int, stride: int, px: int, py: int)
    requires
        0 < stride <= tile_size,
        0 <= px < w,
        0 <= py < h,
    ensures
        ({
            let nx = tiles_along(w, stride);
            let k = (py / stride) * nx + px / stride;
            let x = tile_origin(k % nx, stride, tile_size, w);
            let y = tile_origin(k / nx, stride, tile_size, h);
            &&& 0 <= k < nx * tiles_along(h, stride)
            &&& x <= px < x + tile_span(x, tile_size, w)
            &&& y <= py < y + tile_span(y, tile_size, h)
        }),
{
    let nx = tiles_along(w, stride);
    let ny = tiles_along(h, stride);
    lemma_tile_covers(w, stride, tile_size, px);
    lemma_tile_covers(h, stride, tile_size, py);
    let tx = px / stride;
    let ty = py / stride;
    let k = ty * nx + tx;
    lemma_fundamental_div_mod_converse(k, nx, ty, tx);
    assert(0 <= k < nx * ny) by (nonlinear_arith)
        requires
            0 <= tx < nx,
            0 <= ty < ny,
            k == ty * nx + tx,
    ;
}

/// Every tile that `generate_tiles` describes lies inside the image and is at most
/// `tile_size` pixels on a side.
pub proof fn lemma_tiles_inside_image(w: int, h: int, tile_size: int, stride: int, k: int)
    requires
        0 <= w,
        0 <= h,
        0 <= tile_size,
        0 < stride,
        0 <= k < tiles_along(w, stride) * tiles_along(h, stride),
    ensures
        ({
            let nx = tiles_along(w, stride);
            let x = tile_origin(k % nx, stride, tile_size, w);
            let y = tile_origin(k / nx, stride, tile_size, h);
            &&& 0 <= x && x + tile_span(x, tile_size, w) <= w
            &&& 0 <= y && y + tile_span(y, tile_size, h) <= h
            &&& 0 <= tile_span(x, tile_size, w) <= tile_size
            &&& 0 <= tile_span(y, tile_size, h) <= tile_size
        }),
{
    let nx = tiles_along(w, stride);
    let ny = tiles_along(h, stride);
    lemma_tile_start(w, stride, 0);
    lemma_tile_start(h, stride, 0);
    lemma_fundamental_div_mod(k, nx);
    vstd::arithmetic::div_mod::lemma_mod_pos_bound(k, nx);
    lemma_div_pos_is_pos(k, nx);
    assert(k / nx < ny) by (nonlinear_arith)
        requires
            k == nx * (k / nx) + k % nx,
            0 <= k % nx,
            k < nx * ny,
            0 < nx,
    ;
    lemma_tile_inside(w, stride, tile_size, k % nx);
    lemma_tile_inside(h, stride, tile_size, k / nx);
}

/// Along an axis longer than a tile, every tile is a full tile: the last one is moved
/// back to end at the edge instead of being cut short.
pub proof fn lemma_full_tiles(extent: int, stride: int, tile_size: int, t: int)
    requires
        0 < stride,
        0 <= tile_size < extent,
        0 <= t < tiles_along(extent, stride),
    ensures
        tile_span(tile_origin(t, stride, tile_size, extent), tile_size, extent) == tile_size,
{
    lemma_tile_start(extent, stride, t);
}

/// Splits a `image_width x image_height` image into tiles of `config.tile_size` pixels
/// whose starts are `config.stride()` apart, row by row; a tile that would cross the
/// right or bottom edge (of an image larger than a tile) is moved back to end there.
pub fn generate_tiles(image_width: u32, image_height: u32, config: &TileConfig) -> (tiles: Vec<TileInfo>)
    requires
        config.spec_stride() > 0,
        tiles_along(image_width as int, config.spec_stride()) * tiles_along(image_height as int, config.spec_stride())
            <= u32::MAX,
    ensures
        tiles.len() == tiles_along(image_width as int, config.spec_stride()) * tiles_along(
            image_height as int,
            config.spec_stride(),
        ),
        forall|k: int|
            0 <= k < tiles.len() ==> tile_matches(
                #[trigger] tiles[k],
                image_width as int,
                image_height as int,
                config.tile_size as int,
                config.spec_stride(),
                k,
            ),
{
    let tile_size: u32 = config.tile_size;
    let stride: u32 = config.stride();
    let ghost s: int = stride as int;
    let ghost w: int = image_width as int;
    let ghost h: int = image_height as int;
    let nx64: u64 = ((image_width as u64) + (stride as u64) - 1) / (stride as u64);
    let ny64: u64 = ((image_height as u64) + (stride as u64) - 1) / (stride as u64);
    let tiles_x: u32 = if nx64 < 1 { 1 } else { nx64 as u32 };
    proof {
        lemma_tile_start(w, s, 0);
    }
    let tiles_y: u32 = if ny64 < 1 { 1 } else { ny64 as u32 };
    proof {
        lemma_tile_start(h, s, 0);
        assert(tiles_x == tiles_along(w, s));
        assert(tiles_y == tiles_along(h, s));
        assert(tiles_x * tiles_y >= tiles_x) by (nonlinear_arith)
            requires
                tiles_y >= 1,
                tiles_x >= 1,
        ;
    }
    let total: u32 = tiles_x * tiles_y;
    let mut tiles: Vec<TileInfo> = Vec::new();
    let mut ty: u32 = 0;
    while ty < tiles_y
        invariant
            s == config.spec_stride(),
            0 < s,
            stride == s,
            tile_size == config.tile_size,
            w == image_width,
            h == image_height,
            tiles_x == tiles_along(w, s),
            tiles_y == tiles_along(h, s),
            total == tiles_x * tiles_y,
            ty <= tiles_y,
            tiles.len() == ty * tiles_x,
            forall|k: int| 0 <= k < tiles.len() ==> tile_matches(#[trigger] tiles[k], w, h, tile_size as int, s, k),
        decreases tiles_y - ty,
    {
        proof {
            lemma_tile_inside(h, s, tile_size as int, ty as int);
            lemma_tile_start(h, s, ty as int);
        }
        let mut tx: u32 = 0;
        while tx < tiles_x
            invariant
                s == config.spec_stride(),
                0 < s,
                stride == s,
                tile_size == config.tile_size,
                w == image_width,
                h == image_height,
                tiles_x == tiles_along(w, s),
                tiles_y == tiles_along(h, s),
                total == tiles_x * tiles_y,
                ty < tiles_y,
                tx <= tiles_x,
                tiles.len() == ty * tiles_x + tx,
                0 <= tile_origin(ty as int, s, tile_size as int, h) <= h,
                0 <= ty * s,
                h > 0 ==> ty * s < h,
                h == 0 ==> ty == 0,
                forall|k: int|
                    0 <= k < tiles.len() ==> tile_matches(#[trigger] tiles[k], w, h, tile_size as int, s, k),
            decreases tiles_x - tx,
        {
            proof {
                lemma_tile_start(w, s, tx as int);
                lemma_tile_inside(w, s, tile_size as int, tx as int);
            }
            let mut x: u32 = tx * stride;
            let mut y: u32 = ty * stride;
            if (x as u64) + (tile_size as u64) > (image_width as u64) && image_width > tile_size {
                x = image_width - tile_size;
            }
            if (y as u64) + (tile_size as u64) > (image_height as u64) && image_height > tile_size {
                y = image_height - tile_size;
            }
            let width: u32 = if tile_size < image_width - x { tile_size } else { image_width - x };
            let height: u32 = if tile_size < image_height - y { tile_size } else { image_height - y };
            let ghost k: int = tiles.len() as int;
            proof {
                assert(k == ty * tiles_x + tx);
                lemma_fundamental_div_mod_converse(k, tiles_x as int, ty as int, tx as int);
                assert(k + 1 <= tiles_x * tiles_y) by (nonlinear_arith)
                    requires
                        k == ty * tiles_x + tx,
                        tx < tiles_x,
                        ty < tiles_y,
                ;
            }
            let index: u32 = ty * tiles_x + tx;
            tiles.push(TileInfo { x, y, width, height, index, total });
            proof {
                assert(tile_matches(tiles[k], w, h, tile_size as int, s, k));
            }
            tx = tx + 1;
        }
        proof {
            assert((ty + 1) * tiles_x == ty * tiles_x + tiles_x) by (nonlinear_arith);
        }
        ty = ty + 1;
    }
    proof {
        assert(tiles_y * tiles_x == tiles_x * tiles_y) by (nonlinear_arith);
    }
    tiles
}

} // verus!
