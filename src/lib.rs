//! Decoding of sensor telemetry streams (camera, LIDAR, GPS), the tile
//! stitching and track state behind the GPS map, and the framing and link
//! decisions of the outbound controller stream.

mod camera;
mod controller;
mod gps;
mod imaging;
mod lidar;
mod tiles;
mod wire;

pub use camera::{camera_frame_from_image, decode_camera_payload, next_mjpeg_frame, Camera, CameraData, VideoFormat};
pub use controller::{Controller, LinkAction, LinkEvent, LinkState, RECONNECT_DELAY_SECS};
pub use gps::{Gps, GpsData, GpsWindow, MARKER_RADIUS};
pub use imaging::{rgb_raster, DecodedImage};
pub use lidar::{
    next_fixed_scan, next_variable_scan, Lidar, LidarData, LidarGrammar, LidarSample, ScanAngle, FIXED_SCAN_BYTES,
    FIXED_SCAN_SAMPLES,
};
pub use tiles::{decode_tile, stitch, tile_grid, Raster, TileError, TileGrid, MAX_MAP_SIDE, MAX_ZOOM};
pub use wire::{frame_message, read_be_word, read_le_word, StreamBuffer, WireError};
