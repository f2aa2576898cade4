use byteorder::{LittleEndian, WriteBytesExt};
use image::codecs::jpeg::JpegEncoder;
use image::ExtendedColorType;
use sensor_view::{
    camera_frame_from_image, frame_message, decode_camera_payload, Camera, CameraData, DecodedImage, StreamBuffer, rgb_raster, VideoFormat,
    WireError,
};

fn jpeg_of(width: u32, height: u32, color: ExtendedColorType, channels: usize) -> Vec<u8> {
    let pixels = vec![200u8; width as usize * height as usize * channels];
    let mut out = Vec::new();
    JpegEncoder::new(&mut out).encode(&pixels, width, height, color).unwrap();
    out
}

fn framed(payload: &[u8]) -> Vec<u8> {
    let mut out = Vec::new();
    out.write_u32::<LittleEndian>(payload.len() as u32).unwrap();
    out.extend_from_slice(payload);
    out
}

#[test]
fn one_by_one_jpeg_reaches_consumer_once() {
    let jpeg = jpeg_of(1, 1, ExtendedColorType::Rgb8, 3);
    let wire = framed(&jpeg);
    let (tx, rx) = crossbeam::channel::unbounded::<CameraData>();
    let camera = Camera::new(VideoFormat::MJPEG);
    let mut buf = StreamBuffer::new();
    // The socket delivers the bytes in small reads.
    for chunk in wire.chunks(5) {
        buf.receive(chunk);
        while let Some(frame) = camera.handle_image_stream(&mut buf).unwrap() {
            tx.send(frame).unwrap();
        }
    }
    assert_eq!(buf.finish(), WireError::Closed);
    drop(tx);
    let frame = rx.try_recv().unwrap();
    assert_eq!((frame.width, frame.height), (1, 1));
    assert_eq!(frame.image_bytes.len(), 3);
    assert!(rx.try_recv().is_err());
}

#[test]
fn truncated_camera_frame_is_framing_error() {
    let mut wire = Vec::new();
    wire.write_u32::<LittleEndian>(1000).unwrap();
    wire.extend_from_slice(&[7u8; 500]);
    let camera = Camera::new(VideoFormat::MJPEG);
    let mut buf = StreamBuffer::new();
    buf.receive(&wire);
    assert!(matches!(camera.handle_image_stream(&mut buf), Ok(None)));
    assert_eq!(buf.len(), 504);
    assert_eq!(buf.finish(), WireError::Framing);
}

#[test]
fn stream_closed_inside_length_prefix_is_framing_error() {
    let mut buf = StreamBuffer::new();
    buf.receive(&[12, 0]);
    assert!(matches!(sensor_view::next_mjpeg_frame(&mut buf), Ok(None)));
    assert_eq!(buf.finish(), WireError::Framing);
}

#[test]
fn camera_frame_size_matches_pixels() {
    for (w, h) in [(1u32, 1u32), (4, 3), (16, 9)] {
        let frame = decode_camera_payload(&jpeg_of(w, h, ExtendedColorType::Rgb8, 3)).unwrap();
        assert_eq!((frame.width, frame.height), (w, h));
        assert_eq!(frame.width as usize * frame.height as usize * 3, frame.image_bytes.len());
    }
}

#[test]
fn grayscale_jpeg_is_codec_error() {
    let jpeg = jpeg_of(2, 2, ExtendedColorType::L8, 1);
    assert!(matches!(decode_camera_payload(&jpeg), Err(WireError::Codec)));
}

#[test]
fn garbage_payload_is_codec_error_and_consumed() {
    let camera = Camera::new(VideoFormat::MJPEG);
    let mut buf = StreamBuffer::new();
    buf.receive(&framed(&[1, 2, 3, 4, 5]));
    buf.receive(&[9, 9]);
    assert!(matches!(camera.handle_image_stream(&mut buf), Err(WireError::Codec)));
    assert_eq!(buf.as_slice(), &[9, 9]);
}

#[test]
fn two_frames_in_one_read_come_out_in_order() {
    let mut wire = framed(&jpeg_of(2, 1, ExtendedColorType::Rgb8, 3));
    wire.extend(framed(&jpeg_of(3, 2, ExtendedColorType::Rgb8, 3)));
    let camera = Camera::new(VideoFormat::MJPEG);
    let mut buf = StreamBuffer::new();
    buf.receive(&wire);
    let first = camera.handle_image_stream(&mut buf).unwrap().unwrap();
    let second = camera.handle_image_stream(&mut buf).unwrap().unwrap();
    assert_eq!((first.width, first.height), (2, 1));
    assert_eq!((second.width, second.height), (3, 2));
    assert!(matches!(camera.handle_image_stream(&mut buf), Ok(None)));
    assert_eq!(buf.len(), 0);
    assert_eq!(buf.finish(), WireError::Closed);
}

#[test]
fn h264_stream_is_not_decoded() {
    assert!(VideoFormat::MJPEG.decodable());
    assert!(!VideoFormat::H264.decodable());
    let camera = Camera::new(VideoFormat::H264);
    let mut buf = StreamBuffer::new();
    buf.receive(&framed(&jpeg_of(1, 1, ExtendedColorType::Rgb8, 3)));
    let before = buf.len();
    assert!(matches!(camera.handle_image_stream(&mut buf), Ok(None)));
    assert_eq!(buf.len(), before);
}

#[test]
fn decoded_image_needs_three_bytes_per_pixel() {
    let ok = DecodedImage { width: 2, height: 1, bytes_per_pixel: 3, pixels: vec![1, 2, 3, 4, 5, 6] };
    let frame = camera_frame_from_image(ok).unwrap();
    assert_eq!(frame.image_bytes, vec![1, 2, 3, 4, 5, 6]);
    let rgba = DecodedImage { width: 1, height: 1, bytes_per_pixel: 4, pixels: vec![1, 2, 3, 4] };
    assert!(matches!(camera_frame_from_image(rgba), Err(WireError::Codec)));
    let short = DecodedImage { width: 2, height: 2, bytes_per_pixel: 3, pixels: vec![0; 9] };
    assert!(matches!(camera_frame_from_image(short), Err(WireError::Codec)));
}

#[test]
fn empty_jpeg_prefix_is_codec_error() {
    let mut buf = StreamBuffer::new();
    buf.receive(&[0, 0, 0, 0]);
    assert!(matches!(sensor_view::next_mjpeg_frame(&mut buf), Err(WireError::Codec)));
    assert_eq!(buf.len(), 0);
}

#[test]
fn message_framing_is_read_back_by_camera_decoder() {
    let jpeg = jpeg_of(5, 4, ExtendedColorType::Rgb8, 3);
    let framed = frame_message(&jpeg).unwrap();
    let mut buf = StreamBuffer::new();
    buf.receive(&framed);
    buf.receive(&[0xee]);
    let frame = Camera::new(VideoFormat::MJPEG).handle_image_stream(&mut buf).unwrap().unwrap();
    assert_eq!((frame.width, frame.height, frame.image_bytes.len()), (5, 4, 60));
    assert_eq!(buf.as_slice(), &[0xee]);
}

#[test]
fn rgb_raster_checks_depth_and_size() {
    assert!(rgb_raster(&DecodedImage { width: 1, height: 2, bytes_per_pixel: 3, pixels: vec![0; 6] }));
    assert!(!rgb_raster(&DecodedImage { width: 1, height: 2, bytes_per_pixel: 1, pixels: vec![0; 2] }));
    assert!(!rgb_raster(&DecodedImage { width: 1, height: 2, bytes_per_pixel: 3, pixels: vec![0; 7] }));
    assert!(rgb_raster(&DecodedImage { width: 0, height: 9, bytes_per_pixel: 3, pixels: Vec::new() }));
}
