//! The logic of the Camera2 capture backend for Android.
//!
//! Enumeration lists the camera ids with their lens facing; capture wires an
//! image reader (YUV_420_888) to a repeating preview request and converts
//! each delivered image to BGRA for the frame sink.

use vstd::prelude::*;

use crate::device::{Device, LensFacing, PixelFormat};
use crate::pixels::{pixel_byte, yuv420_byte, yuv420_to_bgra};
use crate::session::Frame;

verus! {

/// ACAMERA_LENS_FACING: section LENS (8), entry 5.
pub const ACAMERA_LENS_FACING: u32 = 0x8_0005;
pub const ACAMERA_LENS_FACING_FRONT: u8 = 0;
pub const ACAMERA_LENS_FACING_BACK: u8 = 1;

pub const AIMAGE_FORMAT_YUV_420_888: i32 = 0x23;
pub const TEMPLATE_PREVIEW: i32 = 1;

// Preview/capture resolution. 640x480 YUV_420_888 is universally supported
// (including the emulator's virtual camera).
pub const CAPTURE_WIDTH: i32 = 640;
pub const CAPTURE_HEIGHT: i32 = 480;
/// Images the reader keeps in flight.
pub const MAX_IMAGES: i32 = 4;

/// The facing of a camera whose lens-facing metadata entry starts with
/// `entry` (`None` when the characteristics or the entry are unavailable).
pub open spec fn lens_facing_of(entry: Option<u8>) -> LensFacing {
    match entry {
        Some(v) => if v == ACAMERA_LENS_FACING_FRONT {
            LensFacing::Front
        } else if v == ACAMERA_LENS_FACING_BACK {
            LensFacing::Back
        } else {
            LensFacing::External
        },
        None => LensFacing::External,
    }
}

/// The ACAMERA_LENS_FACING entry 0 is a front camera and 1 a back camera;
/// any other value (external), or no entry, is listed as external.
pub proof fn lens_facing_values(v: u8)
    ensures
        lens_facing_of(Some(0)) == LensFacing::Front,
        lens_facing_of(Some(1)) == LensFacing::Back,
        v >= 2 ==> lens_facing_of(Some(v)) == LensFacing::External,
        lens_facing_of(None) == LensFacing::External,
{
}

/// Read a camera's lens facing from its metadata entry, defaulting to
/// external when it is unavailable or unknown.
pub fn lens_facing(entry: Option<u8>) -> (facing: LensFacing)
    ensures
        facing == lens_facing_of(entry),
{
    match entry {
        Some(v) => if v == ACAMERA_LENS_FACING_FRONT {
            LensFacing::Front
        } else if v == ACAMERA_LENS_FACING_BACK {
            LensFacing::Back
        } else {
            LensFacing::External
        },
        None => LensFacing::External,
    }
}

/// The descriptor of camera `id`: named "Camera <id>", with no formats
/// listed (frames are delivered as BGRA at the fixed capture size, and
/// each frame carries its dimensions).
pub fn camera_device(id: String, facing: LensFacing) -> (d: Device)
    ensures
        d.id@ == id@,
        d.name@ == "Camera "@ + id@,
        d.facing@ == facing.name(),
        d.formats@.len() == 0,
{
    let mut name = String::from_str("Camera ");
    name.append(id.as_str());
    Device { id, name, facing: String::from_str(facing.as_str()), formats: Vec::new() }
}

/// Whether the repeating preview request of a session is running.
pub struct RepeatingRequest {
    started: bool,
}

impl View for RepeatingRequest {
    type V = bool;

    closed spec fn view(&self) -> bool {
        self.started
    }
}

impl RepeatingRequest {
    /// A session whose request has not been started.
    pub fn new() -> (r: Self)
        ensures
            r@ == false,
    {
        RepeatingRequest { started: false }
    }

    /// Streaming starts: returns whether the repeating request must be
    /// issued now (it is issued once, until the next stop).
    pub fn start(&mut self) -> (issue: bool)
        ensures
            issue == !old(self)@,
            final(self)@ == true,
    {
        if self.started {
            return false;
        }
        self.started = true;
        true
    }

    /// Streaming stops: the request is stopped and must be issued again on
    /// the next start.
    pub fn stop(&mut self)
        ensures
            final(self)@ == false,
    {
        self.started = false;
    }
}

/// A plane stride as reported (a C int), at least 1.
pub fn plane_stride(reported: i32) -> (stride: usize)
    ensures
        stride as int == if reported < 1 {
            1
        } else {
            reported as int
        },
{
    if reported < 1 {
        1
    } else {
        reported as usize
    }
}

/// One plane of a YUV_420_888 image.
pub struct Plane<'a> {
    pub data: &'a [u8],
    pub pixel_stride: usize,
    pub row_stride: usize,
}

/// The planes cover every sample the conversion of a `width` x `height`
/// image reads (the two chroma planes are read with the U plane's strides).
pub open spec fn planes_cover(width: int, height: int, y: Plane, u: Plane, v: Plane) -> bool {
    &&& width * height * 4 <= usize::MAX
    &&& (height - 1) * (y.row_stride as int) + (width - 1) * (y.pixel_stride as int) < y.data@.len()
    &&& ((height - 1) / 2) * (u.row_stride as int) + ((width - 1) / 2) * (u.pixel_stride as int) < u.data@.len()
    &&& ((height - 1) / 2) * (u.row_stride as int) + ((width - 1) / 2) * (u.pixel_stride as int) < v.data@.len()
}

/// Whether an image's queries all answered usably: positive dimensions,
/// at least three planes, and each plane's data.
pub open spec fn image_usable(
    width: Option<i32>,
    height: Option<i32>,
    plane_count: Option<i32>,
    y: Option<Plane>,
    u: Option<Plane>,
    v: Option<Plane>,
) -> bool {
    &&& width matches Some(w) && w > 0
    &&& height matches Some(h) && h > 0
    &&& plane_count matches Some(n) && n >= 3
    &&& y is Some && u is Some && v is Some
}

/// Convert a YUV_420_888 image to a tightly packed, top-down BGRA frame.
/// The image's queries are passed as answered: its width, height and plane
/// count (`None` where the query failed), and planes 0 to 2 (`None` where
/// a plane's data could not be read). `None` unless every answer is
/// usable.
pub fn image_to_bgra(
    width: Option<i32>,
    height: Option<i32>,
    plane_count: Option<i32>,
    y: Option<Plane>,
    u: Option<Plane>,
    v: Option<Plane>,
    timestamp_ns: i64,
) -> (frame: Option<Frame>)
    requires
        image_usable(width, height, plane_count, y, u, v) ==> planes_cover(
            width.unwrap() as int,
            height.unwrap() as int,
            y.unwrap(),
            u.unwrap(),
            v.unwrap(),
        ),
    ensures
        frame is Some <==> image_usable(width, height, plane_count, y, u, v),
        frame matches Some(f) ==> {
            let (w, h, yp, up, vp) = (width.unwrap(), height.unwrap(), y.unwrap(), u.unwrap(), v.unwrap());
            &&& f.width == w
            &&& f.height == h
            &&& f.pixel_format == PixelFormat::Bgra8888
            &&& f.timestamp_us == if timestamp_ns >= 0 {
                timestamp_ns / 1000
            } else {
                -((-timestamp_ns) / 1000)
            }
            &&& f.data@.len() == (w as int) * (h as int) * 4
            &&& forall|r: int, c: int, k: int|
                0 <= r < h && 0 <= c < w && 0 <= k < 4 ==> #[trigger] pixel_byte(f.data@, w as int, r, c, k)
                    == yuv420_byte(
                    yp.data@,
                    yp.row_stride as int,
                    yp.pixel_stride as int,
                    up.data@,
                    vp.data@,
                    up.row_stride as int,
                    up.pixel_stride as int,
                    r,
                    c,
                    k,
                )
        },
{
    let w = match width {
        Some(w) if w > 0 => w,
        _ => return None,
    };
    let h = match height {
        Some(h) if h > 0 => h,
        _ => return None,
    };
    match plane_count {
        Some(n) if n >= 3 => {},
        _ => return None,
    }
    let yp = match y {
        Some(p) => p,
        None => return None,
    };
    let up = match u {
        Some(p) => p,
        None => return None,
    };
    let vp = match v {
        Some(p) => p,
        None => return None,
    };
    let data = yuv420_to_bgra(
        yp.data,
        yp.row_stride,
        yp.pixel_stride,
        up.data,
        vp.data,
        up.row_stride,
        up.pixel_stride,
        w as usize,
        h as usize,
    );
    Some(
        Frame {
            data,
            width: w,
            height: h,
            pixel_format: PixelFormat::Bgra8888,
            timestamp_us: timestamp_ns / 1000,
        },
    )
}

} // verus!
