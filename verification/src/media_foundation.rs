//! The logic of the Media Foundation capture backend for Windows.
//!
//! Enumeration lists the video capture sources; capture runs a source-reader
//! loop that asks the reader's video processor for 32-bit RGB and hands each
//! sample to the functions here, which turn it into a top-down BGRA frame.

use vstd::prelude::*;

use crate::device::{Device, LensFacing, PixelFormat};
use crate::pixels::{pixel_byte, rgb32_byte, rgb32_copyable, rgb32_to_bgra, stride_magnitude};
use crate::session::Frame;

verus! {

/// MF_SOURCE_READER_FIRST_VIDEO_STREAM: read from the first video stream.
pub const FIRST_VIDEO_STREAM: u32 = 0xFFFF_FFFC;
/// MF_SOURCE_READERF_ENDOFSTREAM: the read returned because the stream ended.
pub const READERF_ENDOFSTREAM: u32 = 0x0002;

/// Some device in the list has id `id`.
pub open spec fn lists_device(devices: Seq<Device>, id: Seq<char>) -> bool {
    exists|i: int| 0 <= i < devices.len() && #[trigger] devices[i].id@ == id
}

/// Open a device by its symbolic-link id, validated against the live device
/// list `devices`. On success, the symbolic link the capture session will
/// read from (the capture pipeline itself is built when streaming starts).
pub fn open(devices: &[Device], id: &str) -> (link: Result<String, ()>)
    ensures
        link is Ok <==> lists_device(devices@, id@),
        link matches Ok(l) ==> l@ == id@,
{
    let wanted = String::from_str(id);
    let mut i: usize = 0;
    while i < devices.len()
        invariant
            i <= devices@.len(),
            wanted@ == id@,
            forall|j: int| 0 <= j < i ==> devices@[j].id@ != id@,
        decreases devices@.len() - i,
    {
        if devices[i].id == wanted {
            return Ok(wanted);
        }
        i += 1;
    }
    Err(())
}

/// The descriptor of a capture source: its symbolic link as id, its
/// friendly name (or "Camera" when it has none), facing external (Media
/// Foundation reports no facing for USB or built-in webcams), and no
/// formats (probing them would power on every camera just to list it;
/// each frame carries its own dimensions).
pub fn device_descriptor(symbolic_link: String, friendly_name: Option<String>) -> (d: Device)
    ensures
        d.id@ == symbolic_link@,
        d.name@ == match friendly_name {
            Some(n) => n@,
            None => "Camera"@,
        },
        d.facing@ == LensFacing::External.name(),
        d.formats@.len() == 0,
{
    let name = match friendly_name {
        Some(n) => n,
        None => String::from_str("Camera"),
    };
    Device {
        id: symbolic_link,
        name,
        facing: String::from_str(LensFacing::External.as_str()),
        formats: Vec::new(),
    }
}

/// Split an MF_MT_FRAME_SIZE attribute into width (high half) and height
/// (low half).
pub fn frame_dimensions(frame_size: u64) -> (dims: (u32, u32))
    ensures
        dims.0 as int == frame_size as int / 0x1_0000_0000,
        dims.1 as int == frame_size as int % 0x1_0000_0000,
{
    let width = (frame_size >> 32u64) as u32;
    let height = (frame_size & 0xFFFF_FFFFu64) as u32;
    assert((frame_size >> 32u64) as u32 as int == frame_size as int / 0x1_0000_0000) by (bit_vector);
    assert((frame_size & 0xFFFF_FFFFu64) as u32 as int == frame_size as int % 0x1_0000_0000) by (bit_vector);
    (width, height)
}

/// The row stride of delivered samples: the reported MF_MT_DEFAULT_STRIDE
/// read as signed (negative for bottom-up rows), or four bytes per pixel
/// when the media type reports none.
pub fn row_stride(reported: Option<u32>, width: u32) -> (stride: i32)
    requires
        reported is None ==> i32::MIN <= (width as i32) * 4 <= i32::MAX,
    ensures
        stride == match reported {
            Some(s) => s as i32,
            None => ((width as i32) * 4) as i32,
        },
{
    match reported {
        Some(s) => s as i32,
        None => (width as i32) * 4,
    }
}

/// Whether a read reported the end of the stream.
pub fn end_of_stream(stream_flags: u32) -> (ended: bool)
    ensures
        ended == (stream_flags & READERF_ENDOFSTREAM != 0),
{
    stream_flags & READERF_ENDOFSTREAM != 0
}

/// A sample timestamp (100-ns units) in microseconds, rounded toward zero.
pub fn timestamp_micros(timestamp_100ns: i64) -> (us: i64)
    ensures
        us == if timestamp_100ns >= 0 {
            timestamp_100ns / 10
        } else {
            -((-timestamp_100ns) / 10)
        },
{
    timestamp_100ns / 10
}

/// The frame for one sample: its locked buffer (absent when locking gave
/// no memory), holding `filled` bytes of 32-bit RGB rows `stride` bytes
/// apart, copied into tightly packed top-down BGRA with every pixel
/// opaque (the padding byte of RGB32 is delivered as 0).
pub fn extract_frame(
    buffer: Option<&[u8]>,
    filled: usize,
    width: u32,
    height: u32,
    stride: i32,
    timestamp_100ns: i64,
) -> (frame: Frame)
    requires
        (width as int) * (height as int) * 4 <= usize::MAX,
        rgb32_copyable(
            match buffer {
                Some(s) => Some(s@),
                None => None,
            },
            filled as int,
            height as int,
            stride,
        ) && height > 0 ==> (height - 1) * stride_magnitude(stride) + (width as int) * 4 <= buffer.unwrap()@.len(),
    ensures
        frame.width == width as i32,
        frame.height == height as i32,
        frame.pixel_format == PixelFormat::Bgra8888,
        frame.timestamp_us == if timestamp_100ns >= 0 {
            timestamp_100ns / 10
        } else {
            -((-timestamp_100ns) / 10)
        },
        frame.data@.len() == (width as int) * (height as int) * 4,
        forall|r: int, c: int, k: int|
            0 <= r < height && 0 <= c < width && 0 <= k < 4 ==> #[trigger] pixel_byte(frame.data@, width as int, r, c, k)
                == rgb32_byte(
                match buffer {
                    Some(s) => Some(s@),
                    None => None,
                },
                filled as int,
                height as int,
                stride,
                r,
                c,
                k,
            ),
{
    let data = rgb32_to_bgra(buffer, filled, width, height, stride);
    Frame {
        data,
        width: width as i32,
        height: height as i32,
        pixel_format: PixelFormat::Bgra8888,
        timestamp_us: timestamp_micros(timestamp_100ns),
    }
}

} // verus!
