use byteorder::{LittleEndian, WriteBytesExt};
use image::codecs::png::PngEncoder;
use image::{ExtendedColorType, ImageEncoder};
use sensor_view::{
    decode_tile, stitch, tile_grid, Gps, GpsData, GpsWindow, Raster, StreamBuffer, TileError, TileGrid, WireError,
    MAX_ZOOM,
};

fn png_of(width: u32, height: u32, pixels: &[u8], color: ExtendedColorType) -> Vec<u8> {
    let mut out = Vec::new();
    PngEncoder::new(&mut out).write_image(pixels, width, height, color).unwrap();
    out
}

fn solid(width: u32, height: u32, value: u8) -> Raster {
    Raster { pixels: vec![value; width as usize * height as usize * 3], width, height }
}

#[test]
fn gps_fixes_decode_from_float_pairs() {
    let mut wire = Vec::new();
    for (lat, lon) in [(47.6205f32, -122.3493f32), (-33.8568, 151.2153)] {
        wire.write_f32::<LittleEndian>(lat).unwrap();
        wire.write_f32::<LittleEndian>(lon).unwrap();
    }
    wire.extend_from_slice(&[1, 2, 3]);
    let gps = Gps::new();
    let mut buf = StreamBuffer::new();
    buf.receive(&wire);
    let a = gps.handle_gps(&mut buf).unwrap();
    let b = gps.handle_gps(&mut buf).unwrap();
    assert_eq!(a, GpsData { lat: 47.6205f32.to_bits(), lon: (-122.3493f32).to_bits() });
    assert_eq!((f32::from_bits(b.lat), f32::from_bits(b.lon)), (-33.8568, 151.2153));
    assert!(gps.handle_gps(&mut buf).is_none());
    assert_eq!(buf.finish(), WireError::Framing);
}

#[test]
fn grid_is_centered_on_the_fix_tile() {
    let g = tile_grid(16, 10498, 22872).unwrap();
    assert_eq!(g, TileGrid { zoom: 16, west: 10497, north: 22871, side: 3 });
    assert_eq!(
        g.tiles(),
        vec![
            (10497, 22871),
            (10498, 22871),
            (10499, 22871),
            (10497, 22872),
            (10498, 22872),
            (10499, 22872),
            (10497, 22873),
            (10498, 22873),
            (10499, 22873),
        ]
    );
}

#[test]
fn grid_moves_inwards_at_map_edges() {
    assert_eq!(tile_grid(2, 0, 3), Some(TileGrid { zoom: 2, west: 0, north: 1, side: 3 }));
    assert_eq!(tile_grid(16, 65535, 0), Some(TileGrid { zoom: 16, west: 65533, north: 0, side: 3 }));
    assert_eq!(tile_grid(0, 0, 0), Some(TileGrid { zoom: 0, west: 0, north: 0, side: 1 }));
    assert_eq!(tile_grid(1, 1, 0), Some(TileGrid { zoom: 1, west: 0, north: 0, side: 2 }));
    assert_eq!(tile_grid(0, 0, 0).unwrap().tiles(), vec![(0, 0)]);
}

#[test]
fn grid_rejects_missing_tiles_and_zooms() {
    assert_eq!(tile_grid(MAX_ZOOM + 1, 0, 0), None);
    assert_eq!(tile_grid(3, 8, 0), None);
    assert_eq!(tile_grid(3, 0, 8), None);
    assert!(tile_grid(MAX_ZOOM, (1 << 20) - 1, 5).is_some());
}

#[test]
fn stitch_places_tiles_row_major() {
    // Four 2x1 tiles, each filled with its own index, in a 2x2 block.
    let tiles: Vec<Raster> = (0..4u8).map(|i| solid(2, 1, i)).collect();
    let map = stitch(2, &tiles).unwrap();
    assert_eq!((map.width, map.height), (4, 2));
    let mut expected = vec![0u8; 6];
    expected.extend(vec![1u8; 6]);
    expected.extend(vec![2u8; 6]);
    expected.extend(vec![3u8; 6]);
    assert_eq!(map.pixels, expected);
}

#[test]
fn stitch_interleaves_tile_rows() {
    // Two 1x2 tiles side by side: row 0 of both, then row 1 of both.
    let left = Raster { pixels: vec![1, 1, 1, 2, 2, 2], width: 1, height: 2 };
    let right = Raster { pixels: vec![3, 3, 3, 4, 4, 4], width: 1, height: 2 };
    let tiles = vec![left, right, solid(1, 2, 9), solid(1, 2, 8)];
    let map = stitch(2, &tiles).unwrap();
    assert_eq!((map.width, map.height), (2, 4));
    assert_eq!(&map.pixels[..12], &[1, 1, 1, 3, 3, 3, 2, 2, 2, 4, 4, 4]);
    assert_eq!(&map.pixels[12..], &[9, 9, 9, 8, 8, 8, 9, 9, 9, 8, 8, 8]);
}

#[test]
fn stitch_rejects_bad_layouts() {
    let three: Vec<Raster> = (0..3u8).map(|i| solid(2, 2, i)).collect();
    assert!(matches!(stitch(2, &three), Err(TileError::Layout)));
    let mixed = vec![solid(2, 2, 0), solid(2, 2, 0), solid(2, 3, 0), solid(2, 2, 0)];
    assert!(matches!(stitch(2, &mixed), Err(TileError::Layout)));
    let broken = vec![Raster { pixels: vec![0; 5], width: 1, height: 2 }];
    assert!(matches!(stitch(1, &broken), Err(TileError::Layout)));
    assert!(matches!(stitch(0, &Vec::new()), Err(TileError::Layout)));
    let huge = vec![Raster { pixels: Vec::new(), width: 40000, height: 0 }];
    assert!(matches!(stitch(1, &huge), Err(TileError::Layout)));
}

#[test]
fn png_tile_decodes_to_rgb_raster() {
    let pixels: Vec<u8> = (0..12u8).collect();
    let tile = decode_tile(&png_of(2, 2, &pixels, ExtendedColorType::Rgb8)).unwrap();
    assert_eq!((tile.width, tile.height), (2, 2));
    assert_eq!(tile.pixels, pixels);
}

#[test]
fn non_rgb_or_broken_tiles_are_codec_errors() {
    let rgba = png_of(1, 1, &[1, 2, 3, 4], ExtendedColorType::Rgba8);
    assert!(matches!(decode_tile(&rgba), Err(TileError::Codec)));
    assert!(matches!(decode_tile(b"not a png"), Err(TileError::Codec)));
}

#[test]
fn first_fix_projects_then_plots_and_tracks() {
    let mut window = GpsWindow::new(16);
    assert_eq!(window.projection(), None);
    assert!(window.needs_tiles(0, 0));
    let fix = GpsData { lat: 1.0f32.to_bits(), lon: 2.0f32.to_bits() };
    window.record_fix(fix);
    assert!(!window.plot(0, 0));
    let grid = window.plan(100, 200).unwrap();
    let tiles: Vec<Raster> = grid.tiles().iter().map(|_| solid(8, 8, 255)).collect();
    assert_eq!(window.install(grid, &tiles), Ok(()));
    assert_eq!(window.projection(), Some(grid));
    assert_eq!((window.map().width, window.map().height), (24, 24));
    assert!(!window.needs_tiles(0, 0));
    assert!(window.needs_tiles(24, 3));
    assert!(window.needs_tiles(-1, 3));
    assert!(window.plot(10, 12));
    let at = |x: usize, y: usize| &window.map().pixels[(y * 24 + x) * 3..(y * 24 + x) * 3 + 3];
    assert_eq!(at(10, 12), &[0, 0, 255]);
    assert_eq!(at(0, 0), &[255, 255, 255]);
    assert!(!window.plot(30, 12));
    assert_eq!(window.points(), &[(10, 12)]);
    assert_eq!(window.track(), &[fix]);
}

#[test]
fn marker_at_northwest_corner_is_drawn_at_origin() {
    let mut window = GpsWindow::new(2);
    let grid = window.plan(0, 0).unwrap();
    let tiles: Vec<Raster> = grid.tiles().iter().map(|_| solid(4, 4, 255)).collect();
    window.install(grid, &tiles).unwrap();
    assert!(window.plot(0, 0));
    assert_eq!(&window.map().pixels[..3], &[0, 0, 255]);
}

#[test]
fn zoom_change_drops_projection_but_keeps_track() {
    let mut window = GpsWindow::new(3);
    let grid = window.plan(4, 4).unwrap();
    let tiles: Vec<Raster> = grid.tiles().iter().map(|_| solid(2, 2, 0)).collect();
    window.install(grid, &tiles).unwrap();
    let fix = GpsData { lat: 7, lon: 9 };
    window.record_fix(fix);
    window.record_fix(fix);
    assert!(window.plot(1, 1));
    window.set_zoom(3);
    assert_eq!(window.projection(), Some(grid));
    window.set_zoom(4);
    assert_eq!(window.zoom(), 4);
    assert_eq!(window.projection(), None);
    assert_eq!(window.map().pixels.len(), 0);
    assert!(window.points().is_empty());
    assert_eq!(window.track(), &[fix, fix]);
}

#[test]
fn install_rejects_wrong_zoom_and_bad_tiles() {
    let mut window = GpsWindow::new(5);
    let other = tile_grid(6, 10, 10).unwrap();
    let tiles: Vec<Raster> = other.tiles().iter().map(|_| solid(2, 2, 0)).collect();
    assert_eq!(window.install(other, &tiles), Err(TileError::OutOfRange));
    let grid = window.plan(10, 10).unwrap();
    let four: Vec<Raster> = (0..4).map(|_| solid(2, 2, 0)).collect();
    assert_eq!(window.install(grid, &four), Err(TileError::Layout));
    assert_eq!(window.projection(), None);
}

#[test]
fn gps_stream_closed_on_fix_boundary_ends_with_closed() {
    let mut wire = Vec::new();
    wire.write_f32::<LittleEndian>(10.5).unwrap();
    wire.write_f32::<LittleEndian>(-20.25).unwrap();
    let gps = Gps::new();
    let mut buf = StreamBuffer::new();
    buf.receive(&wire);
    let fix = gps.handle_gps(&mut buf).unwrap();
    assert_eq!((f32::from_bits(fix.lat), f32::from_bits(fix.lon)), (10.5, -20.25));
    assert!(gps.handle_gps(&mut buf).is_none());
    assert_eq!(buf.finish(), WireError::Closed);
}

#[test]
fn sixteen_bit_and_gray_tiles_are_codec_errors() {
    let wide: Vec<u8> = (0..12u8).collect();
    let rgb16 = png_of(1, 2, &wide, ExtendedColorType::Rgb16);
    assert!(matches!(decode_tile(&rgb16), Err(TileError::Codec)));
    let gray = png_of(2, 2, &[1, 2, 3, 4], ExtendedColorType::L8);
    assert!(matches!(decode_tile(&gray), Err(TileError::Codec)));
}
