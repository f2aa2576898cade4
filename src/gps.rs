//! The GPS wire grammar (pairs of little-endian `f32` latitude and
//! longitude, carried as bit patterns) and the state of one GPS map: zoom,
//! projection, stitched raster and the track of every fix received.

use vstd::prelude::*;
use crate::imaging::{disc_drawn, fill_disc};
use crate::tiles::{composite, grid_around, stitch, tile_pixels, stitchable, tile_grid, Raster, TileError, TileGrid, MAX_MAP_SIDE};
use crate::wire::{le_word, read_le_word, StreamBuffer};

verus! {

/// Radius, in pixels, of the marker drawn for each fix.
pub const MARKER_RADIUS: i32 = 3;

/// One fix: the bits of its `f32` latitude and longitude, in degrees.
#[derive(Clone, Copy, Debug, PartialEq, Eq, Structural)]
pub struct GpsData {
    pub lat: u32,
    pub lon: u32,
}

/// The fix at the start of `b`.
pub open spec fn fix_at(b: Seq<u8>) -> GpsData {
    GpsData { lat: le_word(b, 0), lon: le_word(b, 4) }
}

/// The GPS side of one connection.
pub struct Gps;

impl Gps {
    pub fn new() -> Gps {
        Gps
    }

    /// Takes the next complete fix off `buf`, or leaves `buf` as it is and
    /// returns `None` while fewer than eight bytes are waiting.
    pub fn handle_gps(&self, buf: &mut StreamBuffer) -> (r: Option<GpsData>)
        ensures
            old(buf)@.len() >= 8 ==> r == Some(fix_at(old(buf)@))
                && final(buf)@ == old(buf)@.subrange(8, old(buf)@.len() as int),
            old(buf)@.len() < 8 ==> r is None && final(buf)@ == old(buf)@,
    {
        let b = buf.as_slice();
        if b.len() < 8 {
            return None;
        }
        let fix = GpsData { lat: read_le_word(b, 0), lon: read_le_word(b, 4) };
        buf.consume(8);
        Some(fix)
    }
}

/// Whether pixel `(px, py)` lies on `map`.
pub open spec fn on_map(map: Raster, px: i32, py: i32) -> bool {
    0 <= px < map.width && 0 <= py < map.height
}

/// The map of one GPS window. It starts unprojected; installing the tiles
/// of a block projects it; a change of zoom unprojects it again. Every fix
/// received stays on the track.
pub struct GpsWindow {
    zoom: u32,
    grid: Option<TileGrid>,
    map: Raster,
    track: Vec<GpsData>,
    points: Vec<(i32, i32)>,
}

impl GpsWindow {
    pub closed spec fn spec_zoom(&self) -> u32 {
        self.zoom
    }

    /// The block of tiles the map shows, or `None` while unprojected.
    pub closed spec fn spec_grid(&self) -> Option<TileGrid> {
        self.grid
    }

    pub closed spec fn spec_map(&self) -> Raster {
        self.map
    }

    /// Every fix received, oldest first.
    pub closed spec fn spec_track(&self) -> Seq<GpsData> {
        self.track@
    }

    /// The pixel of every fix drawn on the current map, oldest first.
    pub closed spec fn spec_points(&self) -> Seq<(i32, i32)> {
        self.points@
    }

    pub closed spec fn wf(&self) -> bool {
        &&& self.map.wf()
        &&& self.map.width <= MAX_MAP_SIDE
        &&& self.map.height <= MAX_MAP_SIDE
        &&& self.grid matches Some(g) ==> g.zoom == self.zoom
    }

    /// An unprojected window at `zoom`, with an empty map and track.
    pub fn new(zoom: u32) -> (r: GpsWindow)
        ensures
            r.wf(),
            r.spec_zoom() == zoom,
            r.spec_grid() is None,
            r.spec_map().width == 0 && r.spec_map().height == 0,
            r.spec_track() == Seq::<GpsData>::empty(),
            r.spec_points() == Seq::<(i32, i32)>::empty(),
    {
        GpsWindow { zoom, grid: None, map: Raster::empty(), track: Vec::new(), points: Vec::new() }
    }

    pub fn zoom(&self) -> (r: u32)
        ensures
            r == self.spec_zoom(),
    {
        self.zoom
    }

    pub fn projection(&self) -> (r: Option<TileGrid>)
        ensures
            r == self.spec_grid(),
    {
        self.grid
    }

    pub fn map(&self) -> (r: &Raster)
        ensures
            *r == self.spec_map(),
    {
        &self.map
    }

    pub fn track(&self) -> (r: &[GpsData])
        ensures
            r@ == self.spec_track(),
    {
        self.track.as_slice()
    }

    pub fn points(&self) -> (r: &[(i32, i32)])
        ensures
            r@ == self.spec_points(),
    {
        self.points.as_slice()
    }

    /// Changes the zoom level. A new level drops the projection, the map and
    /// its drawn points; the track stays.
    pub fn set_zoom(&mut self, zoom: u32)
        requires
            old(self).wf(),
        ensures
            final(self).wf(),
            final(self).spec_zoom() == zoom,
            final(self).spec_track() == old(self).spec_track(),
            zoom == old(self).spec_zoom() ==> *final(self) == *old(self),
            zoom != old(self).spec_zoom() ==> {
                &&& final(self).spec_grid() is None
                &&& final(self).spec_map().width == 0
                &&& final(self).spec_map().height == 0
                &&& final(self).spec_points() == Seq::<(i32, i32)>::empty()
            },
    {
        if zoom != self.zoom {
            self.zoom = zoom;
            self.grid = None;
            self.map = Raster::empty();
            self.points = Vec::new();
        }
    }

    /// The block of tiles to fetch for a fix in tile `(x, y)` at the
    /// window's zoom.
    pub fn plan(&self, x: u32, y: u32) -> (r: Option<TileGrid>)
        ensures
            r == grid_around(self.spec_zoom(), x, y),
            r matches Some(g) ==> g.wf() && g.covers(x as int, y as int),
    {
        tile_grid(self.zoom, x, y)
    }

    /// Projects the window onto `grid`, whose tile rasters `tiles` are given
    /// in the order of `grid.tiles()`. On failure the window is unchanged.
    /// On success the map is their composite, no points are drawn on it yet,
    /// and the track stays.
    pub fn install(&mut self, grid: TileGrid, tiles: &Vec<Raster>) -> (r: Result<(), TileError>)
        requires
            old(self).wf(),
        ensures
            final(self).wf(),
            grid.zoom != old(self).spec_zoom() ==> r == Err::<(), TileError>(TileError::OutOfRange) && *final(self) == *old(self),
            grid.zoom == old(self).spec_zoom() && !stitchable(grid.side, tiles@) ==> r == Err::<(), TileError>(TileError::Layout)
                && *final(self) == *old(self),
            grid.zoom == old(self).spec_zoom() && stitchable(grid.side, tiles@) ==> {
                &&& r is Ok
                &&& final(self).spec_grid() == Some(grid)
                &&& final(self).spec_zoom() == old(self).spec_zoom()
                &&& final(self).spec_map().width == grid.side * tiles@[0].width
                &&& final(self).spec_map().height == grid.side * tiles@[0].height
                &&& final(self).spec_map().pixels@ == composite(
                    tile_pixels(tiles@),
                    grid.side as nat,
                    tiles@[0].height as nat,
                    3 * tiles@[0].width as nat,
                    final(self).spec_map().height as nat,
                )
                &&& final(self).spec_track() == old(self).spec_track()
                &&& final(self).spec_points() == Seq::<(i32, i32)>::empty()
            },
    {
        if grid.zoom != self.zoom {
            return Err(TileError::OutOfRange);
        }
        match stitch(grid.side, tiles) {
            Ok(map) => {
                self.grid = Some(grid);
                self.map = map;
                self.points = Vec::new();
                Ok(())
            },
            Err(e) => Err(e),
        }
    }

    /// Whether a fix at pixel `(px, py)` of the current projection calls for
    /// fetching tiles again: the window is unprojected, or the pixel falls
    /// off the map.
    pub fn needs_tiles(&self, px: i32, py: i32) -> (r: bool)
        ensures
            r == (self.spec_grid() is None || !on_map(self.spec_map(), px, py)),
    {
        self.grid.is_none() || px < 0 || py < 0 || px as i64 >= self.map.width as i64 || py as i64
            >= self.map.height as i64
    }

    /// Appends a received fix to the track, which never drops one.
    pub fn record_fix(&mut self, fix: GpsData)
        requires
            old(self).wf(),
        ensures
            final(self).wf(),
            final(self).spec_track() == old(self).spec_track().push(fix),
            final(self).spec_zoom() == old(self).spec_zoom(),
            final(self).spec_grid() == old(self).spec_grid(),
            final(self).spec_map() == old(self).spec_map(),
            final(self).spec_points() == old(self).spec_points(),
    {
        self.track.push(fix);
    }

    /// Draws the marker of a fix at pixel `(px, py)` and returns `true`, if
    /// the window is projected and the pixel is on the map; otherwise
    /// changes nothing and returns `false`.
    pub fn plot(&mut self, px: i32, py: i32) -> (r: bool)
        requires
            old(self).wf(),
        ensures
            final(self).wf(),
            r == (old(self).spec_grid() is Some && on_map(old(self).spec_map(), px, py)),
            !r ==> *final(self) == *old(self),
            r ==> {
                &&& final(self).spec_points() == old(self).spec_points().push((px, py))
                &&& final(self).spec_map().width == old(self).spec_map().width
                &&& final(self).spec_map().height == old(self).spec_map().height
                &&& final(self).spec_map().pixels@ == disc_drawn(
                    old(self).spec_map().pixels@,
                    old(self).spec_map().width,
                    old(self).spec_map().height,
                    px,
                    py,
                    MARKER_RADIUS,
                    seq![0u8, 0u8, 255u8],
                )
                &&& final(self).spec_track() == old(self).spec_track()
                &&& final(self).spec_grid() == old(self).spec_grid()
                &&& final(self).spec_zoom() == old(self).spec_zoom()
            },
    {
        if self.needs_tiles(px, py) {
            return false;
        }
        let color: [u8; 3] = [0, 0, 255];
        proof {
            assert(color@ =~= seq![0u8, 0u8, 255u8]);
        }
        fill_disc(&mut self.map.pixels, self.map.width, self.map.height, px, py, MARKER_RADIUS, color);
        self.points.push((px, py));
        true
    }
}

} // verus!
