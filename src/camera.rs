//! The camera's wire grammar: a little-endian `u32` length, then that many
//! bytes of one JPEG picture, repeated for as long as the connection lasts.

use vstd::prelude::*;
use crate::imaging::{decode_jpeg, is_rgb_raster, jpeg_image_of, rgb_raster, DecodedImage};
use crate::wire::{prefixed_frame_end, read_le_word, StreamBuffer, WireError};

verus! {

/// The video formats a camera may be configured with. Only MJPEG is decoded.
#[derive(Clone, Copy, Debug, PartialEq, Eq, Structural)]
pub enum VideoFormat {
    MJPEG,
    H264,
}

impl VideoFormat {
    /// Whether streams in this format are decoded into frames; an H264
    /// connection is closed at once.
    pub fn decodable(&self) -> (r: bool)
        ensures
            r == (*self == VideoFormat::MJPEG),
    {
        match self {
            VideoFormat::MJPEG => true,
            VideoFormat::H264 => false,
        }
    }
}

/// One decoded camera picture: `width * height` RGB pixels, row-major.
#[derive(Debug)]
pub struct CameraData {
    pub image_bytes: Vec<u8>,
    pub width: u32,
    pub height: u32,
}

/// What a camera payload decodes to: width, height and RGB pixels, or
/// `Codec` where it is not a JPEG or not an RGB picture.
pub open spec fn camera_outcome(payload: Seq<u8>) -> Result<(u32, u32, Seq<u8>), WireError> {
    match jpeg_image_of(payload) {
        Some((w, h, bpp, px)) => if is_rgb_raster(w, h, bpp, px) {
            Ok((w, h, px))
        } else {
            Err(WireError::Codec)
        },
        None => Err(WireError::Codec),
    }
}

/// Whether `r` is the frame, or the error, that `o` describes.
pub open spec fn frame_is(r: Result<CameraData, WireError>, o: Result<(u32, u32, Seq<u8>), WireError>) -> bool {
    match (r, o) {
        (Ok(f), Ok((w, h, px))) => f.width == w && f.height == h && f.image_bytes@ == px,
        (Err(e), Err(x)) => e == x,
        _ => false,
    }
}

/// One decoding step on a camera connection whose waiting bytes go from
/// `before` to `after`: with no complete frame yet, nothing is consumed and
/// the result is `Ok(None)`; otherwise the frame's bytes are consumed and the
/// result is its picture or its error.
pub open spec fn mjpeg_step(before: Seq<u8>, after: Seq<u8>, r: Result<Option<CameraData>, WireError>) -> bool {
    match prefixed_frame_end(before) {
        None => r == Ok::<Option<CameraData>, WireError>(None) && after == before,
        Some(end) => {
            &&& after == before.subrange(end, before.len() as int)
            &&& match r {
                Ok(Some(f)) => frame_is(Ok(f), camera_outcome(before.subrange(4, end))),
                Ok(None) => false,
                Err(e) => frame_is(Err(e), camera_outcome(before.subrange(4, end))),
            }
        },
    }
}

/// Turns a decoded picture into a camera frame, or `Codec` where it is not
/// a complete RGB picture.
pub fn camera_frame_from_image(img: DecodedImage) -> (r: Result<CameraData, WireError>)
    ensures
        frame_is(
            r,
            if is_rgb_raster(img.width, img.height, img.bytes_per_pixel, img.pixels@) {
                Ok((img.width, img.height, img.pixels@))
            } else {
                Err(WireError::Codec)
            },
        ),
        r is Ok ==> r->Ok_0.width as int * r->Ok_0.height as int * 3 == r->Ok_0.image_bytes@.len(),
{
    if rgb_raster(&img) {
        Ok(CameraData { image_bytes: img.pixels, width: img.width, height: img.height })
    } else {
        Err(WireError::Codec)
    }
}

/// Decodes one camera payload (the bytes after the length prefix).
pub fn decode_camera_payload(payload: &[u8]) -> (r: Result<CameraData, WireError>)
    ensures
        frame_is(r, camera_outcome(payload@)),
        r is Ok ==> r->Ok_0.width as int * r->Ok_0.height as int * 3 == r->Ok_0.image_bytes@.len(),
{
    let decoded = decode_jpeg(payload);
    match decoded {
        Ok(img) => camera_frame_from_image(img),
        Err(_) => Err(WireError::Codec),
    }
}

/// The camera side of one connection.
pub struct Camera {
    format: VideoFormat,
}

impl Camera {
    pub fn new(format: VideoFormat) -> (r: Camera)
        ensures
            r.format() == format,
    {
        Camera { format }
    }

    pub closed spec fn format(&self) -> VideoFormat {
        self.format
    }

    /// Takes the next complete frame off `buf`. With nothing complete yet,
    /// or a format that is not decoded, the buffer stays as it is and the
    /// result is `Ok(None)`; otherwise the frame's bytes are consumed and the
    /// result is its picture or `Codec`.
    pub fn handle_image_stream(&self, buf: &mut StreamBuffer) -> (r: Result<Option<CameraData>, WireError>)
        ensures
            self.format() == VideoFormat::H264 ==> r == Ok::<Option<CameraData>, WireError>(None) && final(buf)@ == old(buf)@,
            self.format() == VideoFormat::MJPEG ==> mjpeg_step(old(buf)@, final(buf)@, r),
            r matches Ok(Some(f)) ==> f.width as int * f.height as int * 3 == f.image_bytes@.len(),
    {
        match self.format {
            VideoFormat::H264 => Ok(None),
            VideoFormat::MJPEG => next_mjpeg_frame(buf),
        }
    }
}

/// Takes the next complete MJPEG frame off `buf` (see
/// `Camera::handle_image_stream`).
pub fn next_mjpeg_frame(buf: &mut StreamBuffer) -> (r: Result<Option<CameraData>, WireError>)
    ensures
        mjpeg_step(old(buf)@, final(buf)@, r),
        r matches Ok(Some(f)) ==> f.width as int * f.height as int * 3 == f.image_bytes@.len(),
{
    let b = buf.as_slice();
    if b.len() < 4 {
        return Ok(None);
    }
    let size = read_le_word(b, 0);
    if b.len() - 4 < size as usize {
        return Ok(None);
    }
    let end = 4 + size as usize;
    let frame = decode_camera_payload(&b[4..end]);
    proof {
        assert(b@.subrange(4, end as int) == old(buf)@.subrange(4, end as int));
    }
    buf.consume(end);
    match frame {
        Ok(f) => Ok(Some(f)),
        Err(e) => Err(e),
    }
}

} // verus!
