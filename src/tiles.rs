//! Slippy-map tile neighborhoods and the stitching of their rasters into one
//! composite map.

use vstd::prelude::*;
use vstd::arithmetic::power2::pow2;
use vstd::bits::{lemma_u32_pow2_no_overflow, lemma_u32_shl_is_mul};
use vstd::arithmetic::div_mod::lemma_fundamental_div_mod_converse;
use crate::imaging::{decode_png, is_rgb_raster, png_image_of, rgb_raster};

verus! {

/// The deepest zoom level with a known ground resolution.
pub const MAX_ZOOM: u32 = 20;

/// The largest width or height, in pixels, of a stitched map.
pub const MAX_MAP_SIDE: u32 = 32768;

/// Why a map could not be built for a query.
#[derive(Clone, Copy, Debug, PartialEq, Eq, Structural)]
pub enum TileError {
    /// The zoom level or tile index lies outside the tiling scheme.
    OutOfRange,
    /// A tile could not be fetched from the tile service.
    Fetch,
    /// A tile is not a complete RGB picture.
    Codec,
    /// The tiles do not fit together: wrong count, sizes that differ, or a
    /// composite larger than `MAX_MAP_SIDE`.
    Layout,
}

/// Tiles along each axis at `zoom`.
pub open spec fn tiles_across(zoom: u32) -> int {
    pow2(zoom as nat) as int
}

/// Tiles along each side of the neighborhood fetched at `zoom`: three, or
/// every tile where the whole map is narrower than that.
pub open spec fn grid_side(zoom: u32) -> int {
    if zoom == 0 {
        1
    } else if zoom == 1 {
        2
    } else {
        3
    }
}

/// First index of a window of `side` tiles around `center`: the tile before
/// `center`, moved inwards where the window would leave `0..across`.
pub open spec fn window_start(center: int, side: int, across: int) -> int {
    if center < 1 {
        0
    } else if center - 1 > across - side {
        across - side
    } else {
        center - 1
    }
}

/// A square block of tiles at one zoom level, named by its northwestern tile.
#[derive(Clone, Copy, Debug, PartialEq, Eq, Structural)]
pub struct TileGrid {
    pub zoom: u32,
    pub west: u32,
    pub north: u32,
    pub side: u32,
}

impl TileGrid {
    /// The block lies inside the tiling scheme of its zoom level.
    pub open spec fn wf(&self) -> bool {
        &&& self.zoom <= MAX_ZOOM
        &&& self.side == grid_side(self.zoom)
        &&& self.west + self.side <= tiles_across(self.zoom)
        &&& self.north + self.side <= tiles_across(self.zoom)
    }

    /// Whether tile `(x, y)` is one of the block's.
    pub open spec fn covers(&self, x: int, y: int) -> bool {
        self.west <= x < self.west + self.side && self.north <= y < self.north + self.side
    }

    /// The block's tiles in row-major order, northwest first.
    pub open spec fn tile_seq(&self) -> Seq<(u32, u32)> {
        Seq::new(
            (self.side * self.side) as nat,
            |k: int| ((self.west + k % self.side as int) as u32, (self.north + k / self.side as int) as u32),
        )
    }

    /// Lists the block's tiles in row-major order, northwest first: the
    /// order in which their rasters are stitched.
    pub fn tiles(&self) -> (r: Vec<(u32, u32)>)
        requires
            self.wf(),
        ensures
            r@ == self.tile_seq(),
    {
        proof {
            lemma_u32_pow2_no_overflow(self.zoom as nat);
        }
        let side = self.side;
        let mut out: Vec<(u32, u32)> = Vec::new();
        let mut row: u32 = 0;
        while row < side
            invariant
                self.wf(),
                side == self.side,
                1 <= side <= 3,
                row <= side,
                tiles_across(self.zoom) < u32::MAX,
                out@ =~= self.tile_seq().subrange(0, (row * side) as int),
            decreases side - row,
        {
            let mut col: u32 = 0;
            while col < side
                invariant
                    self.wf(),
                    side == self.side,
                    1 <= side <= 3,
                    row < side,
                    col <= side,
                    tiles_across(self.zoom) < u32::MAX,
                    out@ =~= self.tile_seq().subrange(0, (row * side + col) as int),
                decreases side - col,
            {
                proof {
                    let k = row * side + col;
                    assert(k < side * side) by (nonlinear_arith)
                        requires row < side, col < side, k == row * side + col;
                    lemma_fundamental_div_mod_converse(k as int, side as int, row as int, col as int);
                }
                out.push((self.west + col, self.north + row));
                col = col + 1;
            }
            proof {
                assert(row * side + side == (row + 1) * side) by (nonlinear_arith);
            }
            row = row + 1;
        }
        out
    }
}

/// The block fetched around tile `(x, y)` at `zoom`, if the zoom level is
/// supported and the tile exists.
pub open spec fn grid_around(zoom: u32, x: u32, y: u32) -> Option<TileGrid> {
    if zoom > MAX_ZOOM || x >= tiles_across(zoom) || y >= tiles_across(zoom) {
        None
    } else {
        Some(TileGrid {
            zoom,
            west: window_start(x as int, grid_side(zoom), tiles_across(zoom)) as u32,
            north: window_start(y as int, grid_side(zoom), tiles_across(zoom)) as u32,
            side: grid_side(zoom) as u32,
        })
    }
}

/// Plans the block of tiles to fetch for a fix in tile `(x, y)`: the 3×3
/// block centered on it, moved inwards at the edges of the map, or the whole
/// map where it has fewer tiles than that.
pub fn tile_grid(zoom: u32, x: u32, y: u32) -> (r: Option<TileGrid>)
    ensures
        r == grid_around(zoom, x, y),
        r matches Some(g) ==> g.wf() && g.covers(x as int, y as int),
{
    if zoom > MAX_ZOOM {
        return None;
    }
    proof {
        lemma_u32_pow2_no_overflow(zoom as nat);
        lemma_u32_shl_is_mul(1, zoom);
        vstd::arithmetic::power2::lemma2_to64();
        if zoom > 2 {
            vstd::arithmetic::power2::lemma_pow2_strictly_increases(2, zoom as nat);
        }
    }
    let across: u32 = 1u32 << zoom;
    if x >= across || y >= across {
        return None;
    }
    let side: u32 = if zoom == 0 {
        1
    } else if zoom == 1 {
        2
    } else {
        3
    };
    let west = window_start_of(x, side, across);
    let north = window_start_of(y, side, across);
    Some(TileGrid { zoom, west, north, side })
}

fn window_start_of(center: u32, side: u32, across: u32) -> (r: u32)
    requires
        side <= across,
        center < across,
        1 <= side <= 3,
        side < 3 ==> side == across,
    ensures
        r == window_start(center as int, side as int, across as int),
        r + side <= across,
        r <= center < r + side,
{
    if center < 1 {
        0
    } else if center - 1 > across - side {
        across - side
    } else {
        center - 1
    }
}

/// An RGB raster: `width * height` pixels of three bytes, row-major.
#[derive(Debug)]
pub struct Raster {
    pub pixels: Vec<u8>,
    pub width: u32,
    pub height: u32,
}

impl Raster {
    pub open spec fn wf(&self) -> bool {
        self.pixels@.len() == self.width as int * self.height as int * 3
    }

    /// The raster with no pixels.
    pub fn empty() -> (r: Raster)
        ensures
            r.wf(),
            r.width == 0 && r.height == 0,
    {
        Raster { pixels: Vec::new(), width: 0, height: 0 }
    }
}

/// What a fetched tile file decodes to: its raster, or `Codec`.
pub open spec fn tile_outcome(data: Seq<u8>) -> Result<(u32, u32, Seq<u8>), TileError> {
    match png_image_of(data) {
        Some((w, h, bpp, px)) => if is_rgb_raster(w, h, bpp, px) {
            Ok((w, h, px))
        } else {
            Err(TileError::Codec)
        },
        None => Err(TileError::Codec),
    }
}

/// Decodes a fetched PNG tile into an RGB raster.
pub fn decode_tile(data: &[u8]) -> (r: Result<Raster, TileError>)
    ensures
        match (r, tile_outcome(data@)) {
            (Ok(t), Ok((w, h, px))) => t.width == w && t.height == h && t.pixels@ == px,
            (Err(e), Err(x)) => e == x,
            _ => false,
        },
        r matches Ok(t) ==> t.wf(),
{
    match decode_png(data) {
        Ok(img) => {
            if rgb_raster(&img) {
                Ok(Raster { pixels: img.pixels, width: img.width, height: img.height })
            } else {
                Err(TileError::Codec)
            }
        },
        Err(_) => Err(TileError::Codec),
    }
}

/// The first `c` tile rows that make up pixel row `y` of a composite `cols`
/// tiles wide, whose tiles are `th` pixels high with `rb` bytes per row: row
/// `y % th` of each tile in tile row `y / th`, west to east.
pub open spec fn composite_row(tiles: Seq<Seq<u8>>, cols: nat, th: nat, rb: nat, y: nat, c: nat) -> Seq<u8>
    decreases c,
{
    if c == 0 {
        Seq::empty()
    } else {
        composite_row(tiles, cols, th, rb, y, (c - 1) as nat) + tiles[(y / th) * cols + c - 1].subrange(
            ((y % th) * rb) as int,
            ((y % th) * rb + rb) as int,
        )
    }
}

/// The first `n` pixel rows of the composite, north to south.
pub open spec fn composite(tiles: Seq<Seq<u8>>, cols: nat, th: nat, rb: nat, n: nat) -> Seq<u8>
    decreases n,
{
    if n == 0 {
        Seq::empty()
    } else {
        composite(tiles, cols, th, rb, (n - 1) as nat) + composite_row(tiles, cols, th, rb, (n - 1) as nat, cols)
    }
}

/// The pixels of each raster in `tiles`.
pub open spec fn tile_pixels(tiles: Seq<Raster>) -> Seq<Seq<u8>> {
    Seq::new(tiles.len(), |i: int| tiles[i].pixels@)
}

/// Whether `tiles` can be stitched into a `side`×`side` composite: the right
/// count, one size for all, each a complete RGB raster, and a composite no
/// larger than `MAX_MAP_SIDE` on either axis.
pub open spec fn stitchable(side: u32, tiles: Seq<Raster>) -> bool {
    &&& side >= 1
    &&& tiles.len() == side * side
    &&& forall|i: int| 0 <= i < tiles.len() ==> {
        &&& #[trigger] tiles[i].width == tiles[0].width
        &&& tiles[i].height == tiles[0].height
        &&& tiles[i].wf()
    }
    &&& side * tiles[0].width <= MAX_MAP_SIDE
    &&& side * tiles[0].height <= MAX_MAP_SIDE
}

proof fn lemma_composite_row_len(tiles: Seq<Seq<u8>>, cols: nat, th: nat, rb: nat, y: nat, c: nat)
    requires
        th > 0,
        c <= cols,
        (y / th) * cols + c <= tiles.len(),
        forall|i: int| 0 <= i < tiles.len() ==> (#[trigger] tiles[i]).len() == th * rb,
    ensures
        composite_row(tiles, cols, th, rb, y, c).len() == c * rb,
    decreases c,
{
    if c > 0 {
        lemma_composite_row_len(tiles, cols, th, rb, y, (c - 1) as nat);
        let line = y % th;
        assert(line < th) by (nonlinear_arith) requires th > 0, line == y % th;
        assert(line * rb + rb <= th * rb) by (nonlinear_arith) requires line < th;
        assert(c * rb == (c - 1) * rb + rb) by (nonlinear_arith) requires c > 0;
    } else {
        assert(c * rb == 0) by (nonlinear_arith) requires c == 0;
    }
}

proof fn lemma_composite_row_byte(tiles: Seq<Seq<u8>>, cols: nat, th: nat, rb: nat, y: nat, c: nat, c0: nat, o: nat)
    requires
        th > 0,
        c0 < c <= cols,
        o < rb,
        (y / th) * cols + c <= tiles.len(),
        forall|i: int| 0 <= i < tiles.len() ==> (#[trigger] tiles[i]).len() == th * rb,
    ensures
        composite_row(tiles, cols, th, rb, y, c)[(c0 * rb + o) as int] == tiles[((y / th) * cols + c0) as int][((y
            % th) * rb + o) as int],
    decreases c,
{
    let prev = composite_row(tiles, cols, th, rb, y, (c - 1) as nat);
    lemma_composite_row_len(tiles, cols, th, rb, y, (c - 1) as nat);
    let line = y % th;
    assert(line < th) by (nonlinear_arith) requires th > 0, line == y % th;
    assert(line * rb + rb <= th * rb) by (nonlinear_arith) requires line < th;
    if c0 < c - 1 {
        assert(c0 * rb + o < (c - 1) * rb) by (nonlinear_arith) requires c0 < c - 1, o < rb;
        lemma_composite_row_byte(tiles, cols, th, rb, y, (c - 1) as nat, c0, o);
    } else {
        assert(c0 * rb + o == (c - 1) * rb + o);
    }
}

proof fn lemma_composite_len(tiles: Seq<Seq<u8>>, cols: nat, th: nat, rb: nat, n: nat)
    requires
        th > 0,
        n <= cols * th,
        tiles.len() == cols * cols,
        forall|i: int| 0 <= i < tiles.len() ==> (#[trigger] tiles[i]).len() == th * rb,
    ensures
        composite(tiles, cols, th, rb, n).len() == n * (cols * rb),
    decreases n,
{
    if n > 0 {
        let y = (n - 1) as nat;
        lemma_composite_len(tiles, cols, th, rb, y);
        assert((y / th) * cols + cols <= cols * cols) by (nonlinear_arith)
            requires y < cols * th, th > 0;
        lemma_composite_row_len(tiles, cols, th, rb, y, cols);
        assert(n * (cols * rb) == y * (cols * rb) + cols * rb) by (nonlinear_arith) requires n == y + 1;
    } else {
        assert(n * (cols * rb) == 0) by (nonlinear_arith) requires n == 0;
    }
}

proof fn lemma_composite_byte(tiles: Seq<Seq<u8>>, cols: nat, th: nat, rb: nat, n: nat, y: nat, o: nat)
    requires
        th > 0,
        y < n <= cols * th,
        o < cols * rb,
        tiles.len() == cols * cols,
        forall|i: int| 0 <= i < tiles.len() ==> (#[trigger] tiles[i]).len() == th * rb,
    ensures
        composite(tiles, cols, th, rb, n)[(y * (cols * rb) + o) as int] == composite_row(tiles, cols, th, rb, y, cols)[o as int],
    decreases n,
{
    let m = (n - 1) as nat;
    lemma_composite_len(tiles, cols, th, rb, m);
    assert((m / th) * cols + cols <= cols * cols) by (nonlinear_arith) requires m < cols * th, th > 0;
    lemma_composite_row_len(tiles, cols, th, rb, m, cols);
    if y < m {
        assert(y * (cols * rb) + o < m * (cols * rb)) by (nonlinear_arith) requires y < m, o < cols * rb;
        lemma_composite_byte(tiles, cols, th, rb, m, y, o);
    }
}

/// Pixel `(x, y)` of a stitched composite is pixel `(x % tw, y % th)` of the
/// tile that covers it, the one in tile column `x / tw` and tile row `y / th`
/// of the block: the composite shows each tile where the block has it.
pub proof fn lemma_composite_pixel(tiles: Seq<Seq<u8>>, side: nat, tw: nat, th: nat, x: nat, y: nat, channel: nat)
    requires
        tiles.len() == side * side,
        forall|i: int| 0 <= i < tiles.len() ==> (#[trigger] tiles[i]).len() == tw * th * 3,
        x < side * tw,
        y < side * th,
        channel < 3,
    ensures
        composite(tiles, side, th, 3 * tw, side * th)[((y * (side * tw) + x) * 3 + channel) as int] == tiles[((y / th)
            * side + x / tw) as int][(((y % th) * tw + x % tw) * 3 + channel) as int],
{
    let rb = 3 * tw;
    assert(th > 0 && tw > 0) by (nonlinear_arith) requires x < side * tw, y < side * th;
    assert forall|i: int| 0 <= i < tiles.len() implies (#[trigger] tiles[i]).len() == th * rb by {
        assert(tw * th * 3 == th * (3 * tw)) by (nonlinear_arith);
    }
    let c0 = x / tw;
    let px = x % tw;
    assert(x == tw * c0 + px && px < tw) by (nonlinear_arith) requires tw > 0, c0 == x / tw, px == x % tw;
    assert(c0 < side) by (nonlinear_arith) requires x == tw * c0 + px, x < side * tw, px < tw;
    let o = px * 3 + channel;
    assert(o < rb) by (nonlinear_arith) requires px < tw, channel < 3, rb == 3 * tw, o == px * 3 + channel;
    assert(x * 3 + channel == c0 * rb + o) by (nonlinear_arith)
        requires x == tw * c0 + px, o == px * 3 + channel, rb == 3 * tw;
    assert(c0 * rb + o < side * rb) by (nonlinear_arith) requires c0 < side, o < rb;
    assert((y * (side * tw) + x) * 3 + channel == y * (side * rb) + (c0 * rb + o)) by (nonlinear_arith)
        requires x * 3 + channel == c0 * rb + o, rb == 3 * tw;
    lemma_composite_byte(tiles, side, th, rb, side * th, y, c0 * rb + o);
    assert((y / th) * side + side <= side * side) by (nonlinear_arith) requires y < side * th, th > 0;
    lemma_composite_row_byte(tiles, side, th, rb, y, side, c0, o);
    let line = y % th;
    assert(line * rb + o == (line * tw + px) * 3 + channel) by (nonlinear_arith)
        requires o == px * 3 + channel, rb == 3 * tw;
}

/// Appends `src[start..end]` to `out`.
fn append_range(out: &mut Vec<u8>, src: &[u8], start: usize, end: usize)
    requires
        start <= end <= src@.len(),
    ensures
        final(out)@ == old(out)@ + src@.subrange(start as int, end as int),
{
    let mut i = start;
    while i < end
        invariant
            start <= i <= end <= src@.len(),
            out@ == old(out)@ + src@.subrange(start as int, i as int),
        decreases end - i,
    {
        out.push(src[i]);
        i = i + 1;
        proof {
            assert(src@.subrange(start as int, i as int) =~= src@.subrange(start as int, i - 1) + seq![src@[i - 1]]);
        }
    }
}

/// Stitches the rasters of a `side`×`side` block, given in row-major order,
/// into one composite raster `side` tiles wide and high.
pub fn stitch(side: u32, tiles: &Vec<Raster>) -> (r: Result<Raster, TileError>)
    ensures
        r is Ok <==> stitchable(side, tiles@),
        r is Err ==> r == Err::<Raster, TileError>(TileError::Layout),
        r matches Ok(m) ==> {
            &&& m.wf()
            &&& m.width == side * tiles@[0].width
            &&& m.height == side * tiles@[0].height
            &&& m.pixels@ == composite(
                tile_pixels(tiles@),
                side as nat,
                tiles@[0].height as nat,
                3 * tiles@[0].width as nat,
                m.height as nat,
            )
        },
{
    let n = tiles.len();
    if side == 0 {
        return Err(TileError::Layout);
    }
    proof {
        assert(side as u64 * side as u64 <= u64::MAX) by (nonlinear_arith) requires side < 0x1_0000_0000;
    }
    if n as u64 != side as u64 * side as u64 {
        return Err(TileError::Layout);
    }
    proof {
        assert(n >= 1) by (nonlinear_arith) requires n == side * side, side >= 1;
    }
    let tw = tiles[0].width;
    let th = tiles[0].height;
    proof {
        assert(side as u64 * tw as u64 <= u64::MAX && side as u64 * th as u64 <= u64::MAX) by (nonlinear_arith)
            requires side < 0x1_0000_0000, tw < 0x1_0000_0000, th < 0x1_0000_0000;
    }
    if side as u64 * tw as u64 > MAX_MAP_SIDE as u64 || side as u64 * th as u64 > MAX_MAP_SIDE as u64 {
        return Err(TileError::Layout);
    }
    proof {
        assert(tw <= 32768 && th <= 32768) by (nonlinear_arith)
            requires side >= 1, side * tw <= 32768, side * th <= 32768;
    }
    let mut i: usize = 0;
    while i < n
        invariant
            n == tiles@.len(),
            n >= 1,
            tw == tiles@[0].width,
            th == tiles@[0].height,
            tw <= 32768,
            th <= 32768,
            i <= n,
            forall|j: int| 0 <= j < i ==> {
                &&& #[trigger] tiles@[j].width == tw
                &&& tiles@[j].height == th
                &&& tiles@[j].wf()
            },
        decreases n - i,
    {
        let t = &tiles[i];
        proof {
            assert(tw as u64 * th as u64 <= 0x4000_0000) by (nonlinear_arith) requires tw <= 32768, th <= 32768;
        }
        if t.width != tw || t.height != th || t.pixels.len() as u64 != tw as u64 * th as u64 * 3 {
            return Err(TileError::Layout);
        }
        i = i + 1;
    }
    assert(stitchable(side, tiles@));
    let ghost ts = tile_pixels(tiles@);
    let rb: usize = 3 * tw as usize;
    let height: u32 = side * th;
    let width: u32 = side * tw;
    if th == 0 {
        assert(composite(ts, side as nat, th as nat, rb as nat, 0) == Seq::<u8>::empty());
        assert(height == 0) by (nonlinear_arith) requires height == side * th, th == 0;
        assert(width as int * 0 * 3 == 0);
        return Ok(Raster { pixels: Vec::new(), width, height });
    }
    let mut out: Vec<u8> = Vec::new();
    let mut y: u32 = 0;
    while y < height
        invariant
            stitchable(side, tiles@),
            ts == tile_pixels(tiles@),
            n == tiles@.len(),
            tw == tiles@[0].width,
            th == tiles@[0].height,
            th > 0,
            rb == 3 * tw,
            height == side * th,
            width == side * tw,
            y <= height,
            out@ == composite(ts, side as nat, th as nat, rb as nat, y as nat),
            out@.len() == y * (side * rb),
        decreases height - y,
    {
        let band = y / th;
        let line = y % th;
        proof {
            assert(band < side) by (nonlinear_arith) requires y < side * th, band == y / th, th > 0;
            assert(line < th && line * rb + rb <= th * rb) by (nonlinear_arith)
                requires th > 0, line == y % th;
            assert(band * side + side <= side * side) by (nonlinear_arith) requires band < side;
            assert(th * rb <= 3 * 0x4000_0000) by (nonlinear_arith)
                requires side >= 1, side * th <= 32768, side * tw <= 32768, rb == 3 * tw;
        }
        let start: usize = line as usize * rb;
        let row_start = out.len();
        let mut c: u32 = 0;
        while c < side
            invariant
                stitchable(side, tiles@),
                ts == tile_pixels(tiles@),
                n == tiles@.len(),
                tw == tiles@[0].width,
                th == tiles@[0].height,
                th > 0,
                rb == 3 * tw,
                height == side * th,
                y < height,
                band == y / th,
                line == y % th,
                band * side + side <= side * side,
                start == line * rb,
                start + rb <= th * rb,
                th * rb <= 3 * 0x4000_0000,
                c <= side,
                row_start == y * (side * rb),
                out@ == composite(ts, side as nat, th as nat, rb as nat, y as nat) + composite_row(
                    ts,
                    side as nat,
                    th as nat,
                    rb as nat,
                    y as nat,
                    c as nat,
                ),
                out@.len() == row_start + c * rb,
            decreases side - c,
        {
            let k: usize = band as usize * side as usize + c as usize;
            let t = &tiles[k];
            proof {
                assert(tiles@[k as int].wf());
                assert(t.pixels@.len() == th * rb) by (nonlinear_arith)
                    requires t.pixels@.len() == tw * th * 3, rb == 3 * tw;
                assert(ts[k as int] == t.pixels@);
            }
            append_range(&mut out, t.pixels.as_slice(), start, start + rb);
            c = c + 1;
            proof {
                assert((c - 1) * rb + rb == c * rb) by (nonlinear_arith) requires c >= 1;
                assert(out@ =~= composite(ts, side as nat, th as nat, rb as nat, y as nat) + composite_row(
                    ts,
                    side as nat,
                    th as nat,
                    rb as nat,
                    y as nat,
                    c as nat,
                ));
            }
        }
        y = y + 1;
        proof {
            assert(out@ == composite(ts, side as nat, th as nat, rb as nat, y as nat));
            assert(side * rb + (y - 1) * (side * rb) == y * (side * rb)) by (nonlinear_arith) requires y >= 1;
        }
    }
    proof {
        assert(out@.len() == width as int * height as int * 3) by (nonlinear_arith)
            requires out@.len() == height * (side * rb), rb == 3 * tw, width == side * tw;
    }
    Ok(Raster { pixels: out, width, height })
}

} // verus!
