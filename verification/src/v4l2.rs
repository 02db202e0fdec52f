//! The logic of the V4L2 capture backend for Linux: ioctl request encoding,
//! capability and format decisions, and the conversions of captured frames.
//!
//! The backend talks to the kernel directly through ioctl on `/dev/video*`
//! nodes; the host performs those calls and hands the replies to the
//! functions here, which decide what they mean and what comes next.

use vstd::prelude::*;

use crate::device::{Device, Format, PixelFormat};
use crate::session::Frame;
use crate::text::{
    all_ascii_digits, chars_of, nat_decimal, parse_u32_from, parse_u32_spec, string_from_utf8_lossy, utf8_lossy,
};
use crate::pixels::{
    bgra_image_is_unique, is_bgra_image, pixel_byte, rgb24_byte, rgb24_to_bgra, rows_addressable, yuv422_byte,
    yuv422_to_bgra,
};

verus! {

// --- ioctl request-code encoding (asm-generic, used by every arch we target) -

pub const IOC_NRBITS: u32 = 8;
pub const IOC_TYPEBITS: u32 = 8;
pub const IOC_SIZEBITS: u32 = 14;
pub const IOC_NRSHIFT: u32 = 0;
pub const IOC_TYPESHIFT: u32 = IOC_NRSHIFT + IOC_NRBITS;
pub const IOC_SIZESHIFT: u32 = IOC_TYPESHIFT + IOC_TYPEBITS;
pub const IOC_DIRSHIFT: u32 = IOC_SIZESHIFT + IOC_SIZEBITS;

pub const IOC_WRITE: u32 = 1;
pub const IOC_READ: u32 = 2;

/// The request code for direction `dir`, type `typ`, number `nr` and
/// argument size `size`: each field shifted to its place and or-ed in.
pub open spec fn ioc_code(dir: u32, typ: u32, nr: u32, size: u32) -> u32 {
    (dir << 30u32) | (typ << 8u32) | (nr << 0u32) | (size << 16u32)
}

/// Encode an ioctl request code.
pub fn ioc(dir: u32, typ: u32, nr: u32, size: u32) -> (code: u32)
    ensures
        code == ioc_code(dir, typ, nr, size),
{
    (dir << IOC_DIRSHIFT) | (typ << IOC_TYPESHIFT) | (nr << IOC_NRSHIFT) | (size << IOC_SIZESHIFT)
}

/// Request code for a call that reads a `size`-byte argument back.
pub fn ior(typ: u32, nr: u32, size: u32) -> (code: u32)
    ensures
        code == ioc_code(IOC_READ, typ, nr, size),
{
    ioc(IOC_READ, typ, nr, size)
}

/// Request code for a call that passes a `size`-byte argument in.
pub fn iow(typ: u32, nr: u32, size: u32) -> (code: u32)
    ensures
        code == ioc_code(IOC_WRITE, typ, nr, size),
{
    ioc(IOC_WRITE, typ, nr, size)
}

/// Request code for a call that passes a `size`-byte argument in and back.
pub fn iowr(typ: u32, nr: u32, size: u32) -> (code: u32)
    ensures
        code == ioc_code(IOC_READ | IOC_WRITE, typ, nr, size),
{
    ioc(IOC_READ | IOC_WRITE, typ, nr, size)
}

/// When each field fits its width, a request code is the fields laid side
/// by side, and the kernel reads each of them back out unchanged.
pub proof fn ioc_fields_decode(dir: u32, typ: u32, nr: u32, size: u32)
    requires
        dir < 4,
        typ < 256,
        nr < 256,
        size < 0x4000,
    ensures
        ioc_code(dir, typ, nr, size) as int == dir * 0x4000_0000 + size * 0x1_0000 + typ * 0x100 + nr,
        ioc_code(dir, typ, nr, size) >> 30u32 == dir,
        (ioc_code(dir, typ, nr, size) >> 16u32) & 0x3fff == size,
        (ioc_code(dir, typ, nr, size) >> 8u32) & 0xff == typ,
        ioc_code(dir, typ, nr, size) & 0xff == nr,
{
    assert(ioc_code(dir, typ, nr, size) as int == dir * 0x4000_0000 + size * 0x1_0000 + typ * 0x100 + nr)
        by (bit_vector)
        requires
            dir < 4,
            typ < 256,
            nr < 256,
            size < 0x4000,
    ;
    assert(ioc_code(dir, typ, nr, size) >> 30u32 == dir) by (bit_vector)
        requires
            dir < 4,
            typ < 256,
            nr < 256,
            size < 0x4000,
    ;
    assert((ioc_code(dir, typ, nr, size) >> 16u32) & 0x3fff == size) by (bit_vector)
        requires
            dir < 4,
            typ < 256,
            nr < 256,
            size < 0x4000,
    ;
    assert((ioc_code(dir, typ, nr, size) >> 8u32) & 0xff == typ) by (bit_vector)
        requires
            dir < 4,
            typ < 256,
            nr < 256,
            size < 0x4000,
    ;
    assert(ioc_code(dir, typ, nr, size) & 0xff == nr) by (bit_vector)
        requires
            dir < 4,
            typ < 256,
            nr < 256,
            size < 0x4000,
    ;
}

/// The ioctl type letter of the V4L2 requests, `'V'`.
pub const VIDIOC_TYPE: u32 = 0x56;

// Sizes of the kernel structures the requests pass, as laid out by
// linux/videodev2.h on a 64-bit target. The request codes are derived from
// them, so a layout drift shows up as a wrong request code.
pub const V4L2_CAPABILITY_SIZE: u32 = 104;
pub const V4L2_FMTDESC_SIZE: u32 = 64;
pub const V4L2_FORMAT_SIZE: u32 = 208;
pub const V4L2_REQUESTBUFFERS_SIZE: u32 = 20;
pub const V4L2_BUFFER_SIZE: u32 = 88;
pub const V4L2_FRMSIZEENUM_SIZE: u32 = 44;
pub const V4L2_FRMIVALENUM_SIZE: u32 = 52;
pub const V4L2_STREAM_ARG_SIZE: u32 = 4;

/// VIDIOC_QUERYCAP.
pub fn vidioc_querycap() -> (code: u32)
    ensures
        code == ioc_code(IOC_READ, VIDIOC_TYPE, 0, V4L2_CAPABILITY_SIZE),
{
    ior(VIDIOC_TYPE, 0, V4L2_CAPABILITY_SIZE)
}

/// VIDIOC_ENUM_FMT.
pub fn vidioc_enum_fmt() -> (code: u32)
    ensures
        code == ioc_code(IOC_READ | IOC_WRITE, VIDIOC_TYPE, 2, V4L2_FMTDESC_SIZE),
{
    iowr(VIDIOC_TYPE, 2, V4L2_FMTDESC_SIZE)
}

/// VIDIOC_G_FMT.
pub fn vidioc_g_fmt() -> (code: u32)
    ensures
        code == ioc_code(IOC_READ | IOC_WRITE, VIDIOC_TYPE, 4, V4L2_FORMAT_SIZE),
{
    iowr(VIDIOC_TYPE, 4, V4L2_FORMAT_SIZE)
}

/// VIDIOC_S_FMT.
pub fn vidioc_s_fmt() -> (code: u32)
    ensures
        code == ioc_code(IOC_READ | IOC_WRITE, VIDIOC_TYPE, 5, V4L2_FORMAT_SIZE),
{
    iowr(VIDIOC_TYPE, 5, V4L2_FORMAT_SIZE)
}

/// VIDIOC_REQBUFS.
pub fn vidioc_reqbufs() -> (code: u32)
    ensures
        code == ioc_code(IOC_READ | IOC_WRITE, VIDIOC_TYPE, 8, V4L2_REQUESTBUFFERS_SIZE),
{
    iowr(VIDIOC_TYPE, 8, V4L2_REQUESTBUFFERS_SIZE)
}

/// VIDIOC_QUERYBUF.
pub fn vidioc_querybuf() -> (code: u32)
    ensures
        code == ioc_code(IOC_READ | IOC_WRITE, VIDIOC_TYPE, 9, V4L2_BUFFER_SIZE),
{
    iowr(VIDIOC_TYPE, 9, V4L2_BUFFER_SIZE)
}

/// VIDIOC_QBUF.
pub fn vidioc_qbuf() -> (code: u32)
    ensures
        code == ioc_code(IOC_READ | IOC_WRITE, VIDIOC_TYPE, 15, V4L2_BUFFER_SIZE),
{
    iowr(VIDIOC_TYPE, 15, V4L2_BUFFER_SIZE)
}

/// VIDIOC_DQBUF.
pub fn vidioc_dqbuf() -> (code: u32)
    ensures
        code == ioc_code(IOC_READ | IOC_WRITE, VIDIOC_TYPE, 17, V4L2_BUFFER_SIZE),
{
    iowr(VIDIOC_TYPE, 17, V4L2_BUFFER_SIZE)
}

/// VIDIOC_STREAMON.
pub fn vidioc_streamon() -> (code: u32)
    ensures
        code == ioc_code(IOC_WRITE, VIDIOC_TYPE, 18, V4L2_STREAM_ARG_SIZE),
{
    iow(VIDIOC_TYPE, 18, V4L2_STREAM_ARG_SIZE)
}

/// VIDIOC_STREAMOFF.
pub fn vidioc_streamoff() -> (code: u32)
    ensures
        code == ioc_code(IOC_WRITE, VIDIOC_TYPE, 19, V4L2_STREAM_ARG_SIZE),
{
    iow(VIDIOC_TYPE, 19, V4L2_STREAM_ARG_SIZE)
}

/// VIDIOC_ENUM_FRAMESIZES.
pub fn vidioc_enum_framesizes() -> (code: u32)
    ensures
        code == ioc_code(IOC_READ | IOC_WRITE, VIDIOC_TYPE, 74, V4L2_FRMSIZEENUM_SIZE),
{
    iowr(VIDIOC_TYPE, 74, V4L2_FRMSIZEENUM_SIZE)
}

/// VIDIOC_ENUM_FRAMEINTERVALS.
pub fn vidioc_enum_frameintervals() -> (code: u32)
    ensures
        code == ioc_code(IOC_READ | IOC_WRITE, VIDIOC_TYPE, 75, V4L2_FRMIVALENUM_SIZE),
{
    iowr(VIDIOC_TYPE, 75, V4L2_FRMIVALENUM_SIZE)
}

// --- V4L2 constants ----------------------------------------------------------

pub const V4L2_CAP_VIDEO_CAPTURE: u32 = 0x0000_0001;
pub const V4L2_CAP_VIDEO_CAPTURE_MPLANE: u32 = 0x0000_1000;
pub const V4L2_CAP_STREAMING: u32 = 0x0400_0000;
pub const V4L2_CAP_DEVICE_CAPS: u32 = 0x8000_0000;

pub const V4L2_BUF_TYPE_VIDEO_CAPTURE: u32 = 1;
pub const V4L2_MEMORY_MMAP: u32 = 1;
pub const V4L2_FIELD_NONE: u32 = 1;

pub const V4L2_FRMSIZE_TYPE_DISCRETE: u32 = 1;
pub const V4L2_FRMIVAL_TYPE_DISCRETE: u32 = 1;

/// The little-endian four-character code of `a`, `b`, `c`, `d`.
pub open spec fn fourcc_code(a: u8, b: u8, c: u8, d: u8) -> int {
    a + b * 0x100 + c * 0x1_0000 + d * 0x100_0000
}

/// Pack four characters into a little-endian FOURCC.
pub fn fourcc(a: u8, b: u8, c: u8, d: u8) -> (code: u32)
    ensures
        code as int == fourcc_code(a, b, c, d),
{
    let code = (a as u32) | ((b as u32) << 8u32) | ((c as u32) << 16u32) | ((d as u32) << 24u32);
    assert(((a as u32) | ((b as u32) << 8u32) | ((c as u32) << 16u32) | ((d as u32) << 24u32)) as int
        == a + b * 0x100 + c * 0x1_0000 + d * 0x100_0000) by (bit_vector);
    code
}

// The raw formats the backend can deliver. UVC webcams universally offer
// YUYV; it (and the closely related UYVY) is converted to BGRA in software.
// MJPEG would need a JPEG decoder, so it is never negotiated for capture.
pub const V4L2_PIX_FMT_YUYV: u32 = 0x5659_5559;
pub const V4L2_PIX_FMT_UYVY: u32 = 0x5956_5955;
pub const V4L2_PIX_FMT_RGB24: u32 = 0x3342_4752;
pub const V4L2_PIX_FMT_BGR24: u32 = 0x3352_4742;
pub const V4L2_PIX_FMT_MJPEG: u32 = 0x4750_4a4d;

/// Each pixel-format code is the FOURCC of its name.
pub proof fn pixel_format_codes_spell_their_names()
    ensures
        V4L2_PIX_FMT_YUYV as int == fourcc_code(0x59, 0x55, 0x59, 0x56),
        V4L2_PIX_FMT_UYVY as int == fourcc_code(0x55, 0x59, 0x56, 0x59),
        V4L2_PIX_FMT_RGB24 as int == fourcc_code(0x52, 0x47, 0x42, 0x33),
        V4L2_PIX_FMT_BGR24 as int == fourcc_code(0x42, 0x47, 0x52, 0x33),
        V4L2_PIX_FMT_MJPEG as int == fourcc_code(0x4d, 0x4a, 0x50, 0x47),
{
}

// Resolution requested from the driver; it clamps to the nearest supported
// size and reports back what it set, which every frame then carries.
pub const PREFERRED_WIDTH: u32 = 1280;
pub const PREFERRED_HEIGHT: u32 = 720;

/// The capability bits that describe this node: the per-node device caps
/// when the driver advertises them, else the whole device's capabilities.
pub open spec fn node_caps(capabilities: u32, device_caps: u32) -> u32 {
    if capabilities & V4L2_CAP_DEVICE_CAPS != 0 {
        device_caps
    } else {
        capabilities
    }
}

/// Does a capability report describe a single-plane video capture node that
/// can stream?
pub open spec fn streaming_capture(capabilities: u32, device_caps: u32) -> bool {
    let caps = node_caps(capabilities, device_caps);
    &&& caps & V4L2_CAP_VIDEO_CAPTURE != 0
    &&& caps & V4L2_CAP_VIDEO_CAPTURE_MPLANE == 0
    &&& caps & V4L2_CAP_STREAMING != 0
}

/// A node is listed only when it captures single-plane video and can
/// stream: its effective capabilities (the per-node `device_caps` when the
/// DEVICE_CAPS bit 0x8000_0000 is set, else the device's `capabilities`)
/// have VIDEO_CAPTURE (0x1) and STREAMING (0x0400_0000) set and
/// VIDEO_CAPTURE_MPLANE (0x1000) clear. So the metadata node a UVC webcam
/// exposes beside its capture node (META_CAPTURE and STREAMING, no
/// VIDEO_CAPTURE) is dropped, as are output-only and multi-planar nodes.
pub proof fn capture_nodes_capture_video(capabilities: u32, device_caps: u32)
    ensures
        ({
            let effective = if capabilities & 0x8000_0000 != 0 {
                device_caps
            } else {
                capabilities
            };
            streaming_capture(capabilities, device_caps) <==> (effective & 0x0000_0001 != 0 && effective & 0x0000_1000
                == 0 && effective & 0x0400_0000 != 0)
        }),
{
}

/// Does this capability report (the `capabilities` and `device_caps`
/// fields of VIDIOC_QUERYCAP) describe a single-plane video capture device
/// we can actually stream from?
pub fn is_streaming_capture(capabilities: u32, device_caps: u32) -> (ok: bool)
    ensures
        ok == streaming_capture(capabilities, device_caps),
        ok ==> (if capabilities & 0x8000_0000 != 0 {
            device_caps
        } else {
            capabilities
        }) & 0x0000_0001 != 0,
{
    let caps = if capabilities & V4L2_CAP_DEVICE_CAPS != 0 {
        device_caps
    } else {
        capabilities
    };
    caps & V4L2_CAP_VIDEO_CAPTURE != 0 && caps & V4L2_CAP_VIDEO_CAPTURE_MPLANE == 0 && caps
        & V4L2_CAP_STREAMING != 0
}

/// The wire pixel format a V4L2 FOURCC is listed as, if it is listed.
pub open spec fn listed_pixel_format(fourcc: u32) -> Option<PixelFormat> {
    if fourcc == V4L2_PIX_FMT_YUYV || fourcc == V4L2_PIX_FMT_UYVY {
        Some(PixelFormat::Yuyv422)
    } else if fourcc == V4L2_PIX_FMT_RGB24 || fourcc == V4L2_PIX_FMT_BGR24 {
        Some(PixelFormat::Rgba8888)
    } else if fourcc == V4L2_PIX_FMT_MJPEG {
        Some(PixelFormat::Mjpeg)
    } else {
        None
    }
}

/// The device list exposes exactly five FOURCCs, named here by their
/// letters: packed YUV 4:2:2 in either byte order ('YUYV', 'UYVY') as
/// yuyv422, packed 24-bit RGB in either channel order ('RGB3', 'BGR3') as
/// rgba8888 (they are delivered converted), and Motion-JPEG ('MJPG') as
/// mjpeg. Every other FOURCC (NV12, YU12, H264, ...) is skipped.
pub proof fn listed_formats_are_the_five(fourcc: u32)
    ensures
        (fourcc == fourcc_code(0x59, 0x55, 0x59, 0x56) || fourcc == fourcc_code(0x55, 0x59, 0x56, 0x59))
            ==> listed_pixel_format(fourcc) == Some(PixelFormat::Yuyv422),
        (fourcc == fourcc_code(0x52, 0x47, 0x42, 0x33) || fourcc == fourcc_code(0x42, 0x47, 0x52, 0x33))
            ==> listed_pixel_format(fourcc) == Some(PixelFormat::Rgba8888),
        fourcc == fourcc_code(0x4d, 0x4a, 0x50, 0x47) ==> listed_pixel_format(fourcc) == Some(PixelFormat::Mjpeg),
        listed_pixel_format(fourcc) is Some <==> (fourcc == fourcc_code(0x59, 0x55, 0x59, 0x56) || fourcc
            == fourcc_code(0x55, 0x59, 0x56, 0x59) || fourcc == fourcc_code(0x52, 0x47, 0x42, 0x33) || fourcc
            == fourcc_code(0x42, 0x47, 0x52, 0x33) || fourcc == fourcc_code(0x4d, 0x4a, 0x50, 0x47)),
        convertible(fourcc) <==> (fourcc == fourcc_code(0x59, 0x55, 0x59, 0x56) || fourcc == fourcc_code(
            0x55,
            0x59,
            0x56,
            0x59,
        ) || fourcc == fourcc_code(0x52, 0x47, 0x42, 0x33) || fourcc == fourcc_code(0x42, 0x47, 0x52, 0x33)),
{
}

/// Map a V4L2 FOURCC to our wire PixelFormat, or None if we do not expose it.
pub fn map_pixel_format(fourcc: u32) -> (pf: Option<PixelFormat>)
    ensures
        pf == listed_pixel_format(fourcc),
        pf is Some <==> (fourcc == 0x5659_5559 || fourcc == 0x5956_5955 || fourcc == 0x3342_4752 || fourcc
            == 0x3352_4742 || fourcc == 0x4750_4a4d),
{
    if fourcc == V4L2_PIX_FMT_YUYV || fourcc == V4L2_PIX_FMT_UYVY {
        Some(PixelFormat::Yuyv422)
    } else if fourcc == V4L2_PIX_FMT_RGB24 || fourcc == V4L2_PIX_FMT_BGR24 {
        Some(PixelFormat::Rgba8888)
    } else if fourcc == V4L2_PIX_FMT_MJPEG {
        Some(PixelFormat::Mjpeg)
    } else {
        None
    }
}

/// The FOURCCs with a software conversion to BGRA.
pub open spec fn convertible(fourcc: u32) -> bool {
    fourcc == V4L2_PIX_FMT_YUYV || fourcc == V4L2_PIX_FMT_UYVY || fourcc == V4L2_PIX_FMT_RGB24 || fourcc
        == V4L2_PIX_FMT_BGR24
}

/// Whether we have a software conversion to BGRA for this FOURCC.
pub fn is_convertible(fourcc: u32) -> (ok: bool)
    ensures
        ok == convertible(fourcc),
{
    fourcc == V4L2_PIX_FMT_YUYV || fourcc == V4L2_PIX_FMT_UYVY || fourcc == V4L2_PIX_FMT_RGB24 || fourcc
        == V4L2_PIX_FMT_BGR24
}

/// The bytes one row of a frame in format `fourcc` takes: two per pixel
/// for packed YUV 4:2:2, three for packed 24-bit RGB.
pub open spec fn packed_row_bytes(fourcc: u32, width: u32) -> int {
    if fourcc == V4L2_PIX_FMT_YUYV || fourcc == V4L2_PIX_FMT_UYVY {
        (width as int) * 2
    } else {
        (width as int) * 3
    }
}

/// A frame in format `fourcc` can be converted with `usize` arithmetic: the
/// converted BGRA frame's size and the end of the last source row are in
/// range. Formats that are not converted need nothing.
pub open spec fn frame_fits(fourcc: u32, width: u32, height: u32, stride: usize) -> bool {
    convertible(fourcc) ==> {
        &&& (width as int) * (height as int) * 4 <= usize::MAX
        &&& rows_addressable(height as int, stride as int, packed_row_bytes(fourcc, width))
    }
}

/// Byte `k` of pixel (`r`, `c`) of a frame in format `fourcc` converted to
/// BGRA.
pub open spec fn converted_byte(fourcc: u32, src: Seq<u8>, width: int, stride: int, r: int, c: int, k: int) -> u8 {
    if fourcc == V4L2_PIX_FMT_YUYV {
        yuv422_byte(src, width, stride, false, r, c, k)
    } else if fourcc == V4L2_PIX_FMT_UYVY {
        yuv422_byte(src, width, stride, true, r, c, k)
    } else if fourcc == V4L2_PIX_FMT_RGB24 {
        rgb24_byte(src, width, stride, false, r, c, k)
    } else {
        rgb24_byte(src, width, stride, true, r, c, k)
    }
}

/// Each convertible FOURCC is converted by its own layout: 'YUYV'
/// (0x5659_5559) as YUV 4:2:2 in YUYV order, 'UYVY' (0x5956_5955) in UYVY
/// order, 'RGB3' (0x3342_4752) as 24-bit RGB and 'BGR3' (0x3352_4742) as
/// 24-bit BGR.
pub proof fn conversion_follows_the_fourcc(src: Seq<u8>, width: int, stride: int, r: int, c: int, k: int)
    ensures
        converted_byte(0x5659_5559, src, width, stride, r, c, k) == yuv422_byte(src, width, stride, false, r, c, k),
        converted_byte(0x5956_5955, src, width, stride, r, c, k) == yuv422_byte(src, width, stride, true, r, c, k),
        converted_byte(0x3342_4752, src, width, stride, r, c, k) == rgb24_byte(src, width, stride, false, r, c, k),
        converted_byte(0x3352_4742, src, width, stride, r, c, k) == rgb24_byte(src, width, stride, true, r, c, k),
{
}

/// Convert one captured frame to tightly packed top-down BGRA, honoring the
/// device's row stride. Returns None for an empty buffer (the format probe
/// passes one) and for formats we cannot decode here.
pub fn convert_to_bgra(fourcc: u32, src: &[u8], width: u32, height: u32, bytesperline: usize) -> (out:
    Option<Vec<u8>>)
    requires
        src@.len() > 0 ==> frame_fits(fourcc, width, height, bytesperline),
    ensures
        out is Some <==> (src@.len() > 0 && convertible(fourcc)),
        out matches Some(o) ==> o@.len() == (width as int) * (height as int) * 4,
        out matches Some(o) ==> forall|r: int, c: int, k: int|
            0 <= r < height && 0 <= c < width && 0 <= k < 4 ==> #[trigger] pixel_byte(o@, width as int, r, c, k)
                == converted_byte(fourcc, src@, width as int, bytesperline as int, r, c, k),
{
    if src.len() == 0 {
        return None;
    }
    if fourcc == V4L2_PIX_FMT_YUYV {
        Some(yuv422_to_bgra(src, width, height, bytesperline, false))
    } else if fourcc == V4L2_PIX_FMT_UYVY {
        Some(yuv422_to_bgra(src, width, height, bytesperline, true))
    } else if fourcc == V4L2_PIX_FMT_RGB24 {
        Some(rgb24_to_bgra(src, width, height, bytesperline, false))
    } else if fourcc == V4L2_PIX_FMT_BGR24 {
        Some(rgb24_to_bgra(src, width, height, bytesperline, true))
    } else {
        None
    }
}

/// What the per-format converter makes of a frame: `yuv422_to_bgra` for
/// YUYV and UYVY, `rgb24_to_bgra` for RGB3 and BGR3.
pub open spec fn format_converter_byte(fourcc: u32, src: Seq<u8>, width: int, stride: int, r: int, c: int, k: int) -> u8 {
    if fourcc == V4L2_PIX_FMT_YUYV || fourcc == V4L2_PIX_FMT_UYVY {
        yuv422_byte(src, width, stride, fourcc == V4L2_PIX_FMT_UYVY, r, c, k)
    } else {
        rgb24_byte(src, width, stride, fourcc == V4L2_PIX_FMT_BGR24, r, c, k)
    }
}

/// A frame `convert_to_bgra` converts is exactly the image the per-format
/// converter makes of it: any image with the pixels `convert_to_bgra`
/// promises equals any image with the pixels `yuv422_to_bgra` (YUYV, UYVY)
/// or `rgb24_to_bgra` (RGB3, BGR3) promises.
pub proof fn conversion_matches_format_converters(
    fourcc: u32,
    src: Seq<u8>,
    width: u32,
    height: u32,
    stride: usize,
    converted: Seq<u8>,
    direct: Seq<u8>,
)
    requires
        convertible(fourcc),
        is_bgra_image(
            converted,
            width as int,
            height as int,
            |r: int, c: int, k: int| converted_byte(fourcc, src, width as int, stride as int, r, c, k),
        ),
        is_bgra_image(
            direct,
            width as int,
            height as int,
            |r: int, c: int, k: int| format_converter_byte(fourcc, src, width as int, stride as int, r, c, k),
        ),
    ensures
        converted == direct,
{
    let byte = |r: int, c: int, k: int| converted_byte(fourcc, src, width as int, stride as int, r, c, k);
    assert(is_bgra_image(direct, width as int, height as int, byte)) by {
        assert forall|r: int, c: int, k: int|
            0 <= r < height && 0 <= c < width && 0 <= k < 4 implies #[trigger] pixel_byte(direct, width as int, r, c, k)
                == byte(r, c, k) by {
            assert(pixel_byte(direct, width as int, r, c, k) == format_converter_byte(
                fourcc,
                src,
                width as int,
                stride as int,
                r,
                c,
                k,
            ));
        }
    }
    bgra_image_is_unique(converted, direct, width as int, height as int, byte);
}

/// The position of the first NUL byte, or the length when there is none.
pub open spec fn nul_terminated_len(bytes: Seq<u8>) -> int {
    if exists|i: int| 0 <= i < bytes.len() && bytes[i] == 0 {
        choose|i: int| 0 <= i < bytes.len() && bytes[i] == 0 && forall|j: int| 0 <= j < i ==> bytes[j] != 0
    } else {
        bytes.len() as int
    }
}

/// Trim a fixed-size, NUL-padded C string field into a String: the bytes
/// before the first NUL, decoded leniently as UTF-8.
pub fn c_field(bytes: &[u8]) -> (s: String)
    ensures
        0 <= nul_terminated_len(bytes@) <= bytes@.len(),
        forall|j: int| 0 <= j < nul_terminated_len(bytes@) ==> bytes@[j] != 0,
        nul_terminated_len(bytes@) < bytes@.len() ==> bytes@[nul_terminated_len(bytes@)] == 0,
        s@ == utf8_lossy(bytes@.take(nul_terminated_len(bytes@))),
        vstd::utf8::valid_utf8(bytes@.take(nul_terminated_len(bytes@))) ==> s@ == vstd::utf8::decode_utf8(
            bytes@.take(nul_terminated_len(bytes@)),
        ),
{
    let mut end: usize = 0;
    while end < bytes.len() && bytes[end] != 0
        invariant
            end <= bytes@.len(),
            forall|j: int| 0 <= j < end ==> bytes@[j] != 0,
        decreases bytes@.len() - end,
    {
        end += 1;
    }
    proof {
        if end < bytes@.len() {
            let i = choose|i: int| 0 <= i < bytes@.len() && bytes@[i] == 0 && forall|j: int| 0 <= j < i ==> bytes@[j] != 0;
            assert(bytes@[end as int] == 0);
            if i < end {
            } else if i > end {
            }
            assert(i == end);
        }
    }
    let prefix = vstd::slice::slice_subrange(bytes, 0, end);
    assert(prefix@ =~= bytes@.take(end as int));
    string_from_utf8_lossy(prefix)
}

/// The index of a `/dev` entry named `video<N>`, with `N` read the way
/// `str::parse::<u32>` reads it.
pub open spec fn video_node_index_of(name: Seq<char>) -> Option<u32> {
    if name.len() >= 5 && name.take(5) == seq!['v', 'i', 'd', 'e', 'o'] {
        parse_u32_spec(name.skip(5))
    } else {
        None
    }
}

/// The entry `video<N>`, with `N` written in decimal, is node `N`; an entry
/// whose name does not start with `video` is no video node.
pub proof fn video_nodes_are_named_by_index(n: u32, name: Seq<char>)
    ensures
        video_node_index_of(seq!['v', 'i', 'd', 'e', 'o'] + nat_decimal(n as nat)) == Some(n),
        !(name.len() >= 5 && name[0] == 'v' && name[1] == 'i' && name[2] == 'd' && name[3] == 'e' && name[4] == 'o')
            ==> video_node_index_of(name) is None,
{
    let digits = nat_decimal(n as nat);
    let full = seq!['v', 'i', 'd', 'e', 'o'] + digits;
    crate::device_parse::lemma_nat_decimal_reads_back(n as nat);
    assert(full.take(5) =~= seq!['v', 'i', 'd', 'e', 'o']);
    assert(full.skip(5) =~= digits);
    assert(digits[0] != '+');
    assert(all_ascii_digits(digits)) by {
        assert forall|i: int| 0 <= i < digits.len() implies '0' <= #[trigger] digits[i] && digits[i] <= '9' by {
            assert(crate::device_parse::is_digit(digits[i]));
        }
    }
    if !(name.len() >= 5 && name[0] == 'v' && name[1] == 'i' && name[2] == 'd' && name[3] == 'e' && name[4] == 'o') {
        if name.len() >= 5 && name.take(5) == seq!['v', 'i', 'd', 'e', 'o'] {
            assert(name[0] == name.take(5)[0] && name[1] == name.take(5)[1] && name[2] == name.take(5)[2]
                && name[3] == name.take(5)[3] && name[4] == name.take(5)[4]);
        }
    }
}

/// The node index of a `/dev` entry named `video<N>`, if it is one.
pub fn video_node_index(name: &str) -> (idx: Option<u32>)
    ensures
        idx == video_node_index_of(name@),
{
    let chars = chars_of(name);
    if chars.len() >= 5 && chars[0] == 'v' && chars[1] == 'i' && chars[2] == 'd' && chars[3] == 'e'
        && chars[4] == 'o' {
        assert(chars@.take(5) =~= seq!['v', 'i', 'd', 'e', 'o']);
        parse_u32_from(&chars, 5)
    } else {
        proof {
            if chars@.len() >= 5 && chars@.take(5) == seq!['v', 'i', 'd', 'e', 'o'] {
                assert(chars@[0] == chars@.take(5)[0]);
                assert(chars@[1] == chars@.take(5)[1]);
                assert(chars@[2] == chars@.take(5)[2]);
                assert(chars@[3] == chars@.take(5)[3]);
                assert(chars@[4] == chars@.take(5)[4]);
            }
        }
        None
    }
}

/// Selects the entries listed under node index `k`.
pub open spec fn has_node_index(k: u32) -> spec_fn((u32, String)) -> bool {
    |e: (u32, String)| e.0 == k
}

/// The entries of `nodes` with node index `k`, in their order.
pub open spec fn nodes_with_index(nodes: Seq<(u32, String)>, k: u32) -> Seq<(u32, String)> {
    nodes.filter(has_node_index(k))
}

/// The entries are in nondecreasing node-index order.
pub open spec fn sorted_by_node_index(nodes: Seq<(u32, String)>) -> bool {
    forall|i: int, j: int| 0 <= i < j < nodes.len() ==> nodes[i].0 <= nodes[j].0
}

proof fn lemma_filter_single(e: (u32, String), k: u32)
    ensures
        seq![e].filter(has_node_index(k)) == if e.0 == k {
            seq![e]
        } else {
            Seq::<(u32, String)>::empty()
        },
{
    reveal(Seq::filter);
    assert(seq![e].drop_last() =~= Seq::<(u32, String)>::empty());
    assert(Seq::<(u32, String)>::empty().filter(has_node_index(k)) =~= Seq::<(u32, String)>::empty());
}

proof fn lemma_filter_none(s: Seq<(u32, String)>, k: u32)
    requires
        forall|i: int| 0 <= i < s.len() ==> s[i].0 != k,
    ensures
        s.filter(has_node_index(k)) == Seq::<(u32, String)>::empty(),
{
    let pred = has_node_index(k);
    assert(s.all(|x: (u32, String)| !pred(x)));
    s.lemma_all_neg_filter_empty(pred);
    assert(s.filter(pred) =~= Seq::<(u32, String)>::empty());
}

/// Order `/dev/video*` nodes by node index (so video0 comes before
/// video10), keeping entries with equal indices in their original order.
pub fn order_video_nodes(nodes: Vec<(u32, String)>) -> (ordered: Vec<(u32, String)>)
    ensures
        sorted_by_node_index(ordered@),
        forall|k: u32| #[trigger] nodes_with_index(ordered@, k) == nodes_with_index(nodes@, k),
{
    let ghost orig = nodes@;
    let mut rest = nodes;
    let mut out: Vec<(u32, String)> = Vec::new();
    let ghost mut done: int = 0;
    while rest.len() > 0
        invariant
            0 <= done <= orig.len(),
            rest@ == orig.skip(done),
            sorted_by_node_index(out@),
            forall|k: u32| #[trigger] nodes_with_index(out@, k) == nodes_with_index(orig.take(done), k),
        decreases rest@.len(),
    {
        let e = rest.remove(0);
        assert(e == orig[done]);
        let mut p: usize = 0;
        while p < out.len() && out[p].0 <= e.0
            invariant
                p <= out@.len(),
                forall|j: int| 0 <= j < p ==> out@[j].0 <= e.0,
            decreases out@.len() - p,
        {
            p += 1;
        }
        let ghost before = out@;
        out.insert(p, e);
        proof {
            let pre = before.take(p as int);
            let post = before.skip(p as int);
            assert(before =~= pre + post);
            assert(out@ =~= pre + seq![e] + post);
            assert forall|j: int| 0 <= j < post.len() implies post[j].0 > e.0 by {
                assert(post[j] == before[p + j]);
                if p < before.len() {
                    assert(before[p as int].0 > e.0);
                }
            }
            assert(orig.take(done + 1) =~= orig.take(done) + seq![e]);
            assert forall|k: u32| #[trigger] nodes_with_index(out@, k) == nodes_with_index(orig.take(done + 1), k) by {
                let pred = has_node_index(k);
                Seq::filter_distributes_over_add(pre + seq![e], post, pred);
                Seq::filter_distributes_over_add(pre, seq![e], pred);
                Seq::filter_distributes_over_add(pre, post, pred);
                Seq::filter_distributes_over_add(orig.take(done), seq![e], pred);
                lemma_filter_single(e, k);
                assert(nodes_with_index(before, k) == nodes_with_index(orig.take(done), k));
                assert(nodes_with_index(orig.take(done + 1), k) == orig.take(done).filter(pred) + seq![e].filter(pred));
                assert(before.filter(pred) == pre.filter(pred) + post.filter(pred));
                assert(out@.filter(pred) == pre.filter(pred) + seq![e].filter(pred) + post.filter(pred));
                if e.0 == k {
                    lemma_filter_none(post, k);
                    assert(out@.filter(pred) =~= pre.filter(pred) + seq![e]);
                    assert(nodes_with_index(orig.take(done + 1), k) =~= pre.filter(pred) + seq![e]);
                } else {
                    assert(out@.filter(pred) =~= pre.filter(pred) + post.filter(pred));
                    assert(nodes_with_index(orig.take(done + 1), k) =~= pre.filter(pred) + post.filter(pred));
                }
            }
            done = done + 1;
            assert(rest@ =~= orig.skip(done));
        }
    }
    assert(orig.take(done) =~= orig);
    out
}

/// The descriptor of a V4L2 capture node at `path` whose card name (the
/// decoded VIDIOC_QUERYCAP `card` field) is `card_name`: named by the card,
/// or by the path when the card name is empty. V4L2 reports no lens facing
/// for USB or built-in webcams.
pub fn named_device(path: String, card_name: String, formats: Vec<Format>) -> (d: Device)
    ensures
        d.id@ == path@,
        d.name@ == if card_name@.len() == 0 {
            path@
        } else {
            card_name@
        },
        d.facing@ == "external"@,
        d.formats@ == formats@,
{
    let name = if card_name.as_str().is_empty() {
        path.clone()
    } else {
        card_name
    };
    Device { id: path, name, facing: String::from_str("external"), formats }
}

/// The descriptor of a V4L2 capture node at `path` whose raw VIDIOC_QUERYCAP
/// `card` field is `card`, as `named_device` describes it.
pub fn device_descriptor(path: String, card: &[u8], formats: Vec<Format>) -> (d: Device)
    ensures
        d.id@ == path@,
        d.name@ == if utf8_lossy(card@.take(nul_terminated_len(card@))).len() == 0 {
            path@
        } else {
            utf8_lossy(card@.take(nul_terminated_len(card@)))
        },
        d.facing@ == "external"@,
        d.formats@ == formats@,
{
    named_device(path, c_field(card), formats)
}

/// Most sizes listed for one pixel format.
pub const MAX_SIZES_PER_FORMAT: usize = 16;

/// What VIDIOC_ENUM_FRAMESIZES reported for one index: the size type, the
/// discrete size, and the maximum of a stepwise or continuous range.
#[derive(Clone, Copy, Debug, PartialEq, Eq, Structural)]
pub struct FrameSizeReply {
    pub kind: u32,
    pub discrete_width: u32,
    pub discrete_height: u32,
    pub max_width: u32,
    pub max_height: u32,
}

/// The listing of the frame sizes of one pixel format, one
/// VIDIOC_ENUM_FRAMESIZES reply at a time.
pub struct FrameSizeScan {
    sizes: Vec<(u32, u32)>,
    finished: bool,
}

/// One step of the frame-size listing: a failed query ends it; a discrete
/// size is added; a stepwise or continuous range adds its maximum and ends
/// it; the listing ends once it holds `MAX_SIZES_PER_FORMAT` sizes.
pub open spec fn frame_size_step(state: (Seq<(u32, u32)>, bool), reply: Option<FrameSizeReply>) -> (
    Seq<(u32, u32)>,
    bool,
) {
    match reply {
        None => (state.0, true),
        Some(r) => {
            let sizes = if r.kind == V4L2_FRMSIZE_TYPE_DISCRETE {
                state.0.push((r.discrete_width, r.discrete_height))
            } else {
                state.0.push((r.max_width, r.max_height))
            };
            (sizes, r.kind != V4L2_FRMSIZE_TYPE_DISCRETE || sizes.len() >= MAX_SIZES_PER_FORMAT)
        },
    }
}

/// The frame-size listing records, for a discrete size (type 1), that
/// size and goes on until it holds 16 sizes; for a stepwise or continuous
/// range (any other type), the range's maximum and stops; after a failed
/// query it stops with the sizes it has.
pub proof fn frame_size_listing(sizes: Seq<(u32, u32)>, reply: FrameSizeReply)
    ensures
        frame_size_step((sizes, false), None) == (sizes, true),
        reply.kind == 1 ==> frame_size_step((sizes, false), Some(reply)) == (
            sizes.push((reply.discrete_width, reply.discrete_height)),
            sizes.len() + 1 >= 16,
        ),
        reply.kind != 1 ==> frame_size_step((sizes, false), Some(reply)) == (
            sizes.push((reply.max_width, reply.max_height)),
            true,
        ),
{
}

impl View for FrameSizeScan {
    type V = (Seq<(u32, u32)>, bool);

    closed spec fn view(&self) -> (Seq<(u32, u32)>, bool) {
        (self.sizes@, self.finished)
    }
}

impl FrameSizeScan {
    /// The listing never exceeds its bound, and ends when it reaches it.
    pub closed spec fn wf(&self) -> bool {
        &&& self.sizes@.len() <= MAX_SIZES_PER_FORMAT
        &&& self.sizes@.len() == MAX_SIZES_PER_FORMAT ==> self.finished
    }

    /// An empty listing, waiting for the reply to index 0.
    pub fn new() -> (scan: Self)
        ensures
            scan@ == (Seq::<(u32, u32)>::empty(), false),
            scan.wf(),
    {
        FrameSizeScan { sizes: Vec::new(), finished: false }
    }

    /// Whether the listing is complete.
    pub fn is_finished(&self) -> (done: bool)
        ensures
            done == self@.1,
    {
        self.finished
    }

    /// The index to query next: one per size listed so far.
    pub fn next_index(&self) -> (index: u32)
        requires
            self.wf(),
        ensures
            index == self@.0.len(),
    {
        self.sizes.len() as u32
    }

    /// Take in the reply to the query for `next_index` (`None` when the
    /// query failed).
    pub fn feed(&mut self, reply: Option<FrameSizeReply>)
        requires
            old(self).wf(),
            !old(self)@.1,
        ensures
            final(self)@ == frame_size_step(old(self)@, reply),
            final(self).wf(),
    {
        match reply {
            None => {
                self.finished = true;
            },
            Some(r) => {
                if r.kind == V4L2_FRMSIZE_TYPE_DISCRETE {
                    self.sizes.push((r.discrete_width, r.discrete_height));
                } else {
                    self.sizes.push((r.max_width, r.max_height));
                    self.finished = true;
                }
                if self.sizes.len() >= MAX_SIZES_PER_FORMAT {
                    self.finished = true;
                }
            },
        }
    }

    /// The sizes listed.
    pub fn into_sizes(self) -> (sizes: Vec<(u32, u32)>)
        ensures
            sizes@ == self@.0,
    {
        self.sizes
    }
}

/// Most frame-interval replies examined for one size.
pub const MAX_INTERVALS: u32 = 32;

/// What VIDIOC_ENUM_FRAMEINTERVALS reported for one index: the interval
/// type and, for a discrete interval, the interval as a fraction of a
/// second.
#[derive(Clone, Copy, Debug, PartialEq, Eq, Structural)]
pub struct FrameIntervalReply {
    pub kind: u32,
    pub numerator: u32,
    pub denominator: u32,
}

/// The exact product of two `u32` values.
fn wide_mul(a: u32, b: u32) -> (p: u64)
    ensures
        p as int == (a as int) * (b as int),
{
    proof {
        assert((a as int) * (b as int) <= 0xffff_ffff * 0xffff_ffff) by (nonlinear_arith)
            requires
                a <= 0xffff_ffff,
                b <= 0xffff_ffff,
                a >= 0,
                b >= 0,
        ;
    }
    (a as u64) * (b as u64)
}

/// The search for the highest discrete frame rate of one format and size,
/// one VIDIOC_ENUM_FRAMEINTERVALS reply at a time. The best rate is kept as
/// the interval (numerator, denominator); the rate is its inverse.
pub struct FrameRateScan {
    best: Option<(u32, u32)>,
    index: u32,
    finished: bool,
}

/// The rate `den / num` is higher than the rate `best_den / best_num`.
pub open spec fn faster(interval: (u32, u32), best: (u32, u32)) -> bool {
    (interval.1 as int) * (best.0 as int) > (best.1 as int) * (interval.0 as int)
}

/// One step of the frame-rate search: a failed query or a non-discrete
/// interval ends it; a discrete interval with a nonzero numerator and
/// denominator whose rate beats the best so far becomes the best; the
/// search ends after `MAX_INTERVALS` replies.
pub open spec fn frame_rate_step(state: (Option<(u32, u32)>, u32, bool), reply: Option<FrameIntervalReply>) -> (
    Option<(u32, u32)>,
    u32,
    bool,
) {
    match reply {
        None => (state.0, state.1, true),
        Some(r) => {
            let index = (state.1 + 1) as u32;
            if r.kind != V4L2_FRMIVAL_TYPE_DISCRETE {
                (state.0, index, true)
            } else {
                let candidate = (r.numerator, r.denominator);
                let best = if r.numerator > 0 && r.denominator > 0 && (state.0 is None || faster(
                    candidate,
                    state.0.unwrap(),
                )) {
                    Some(candidate)
                } else {
                    state.0
                };
                (best, index, index >= MAX_INTERVALS)
            }
        },
    }
}

impl View for FrameRateScan {
    type V = (Option<(u32, u32)>, u32, bool);

    closed spec fn view(&self) -> (Option<(u32, u32)>, u32, bool) {
        (self.best, self.index, self.finished)
    }
}

impl FrameRateScan {
    /// The search never passes its bound, and any best interval has a
    /// nonzero numerator and denominator.
    pub closed spec fn wf(&self) -> bool {
        &&& self.index <= MAX_INTERVALS
        &&& self.index == MAX_INTERVALS ==> self.finished
        &&& self.best matches Some(b) ==> b.0 > 0 && b.1 > 0
    }

    /// A search that has seen no interval yet.
    pub fn new() -> (scan: Self)
        ensures
            scan@ == (None::<(u32, u32)>, 0u32, false),
            scan.wf(),
    {
        FrameRateScan { best: None, index: 0, finished: false }
    }

    /// Whether the search is complete.
    pub fn is_finished(&self) -> (done: bool)
        ensures
            done == self@.2,
    {
        self.finished
    }

    /// The index to query next.
    pub fn next_index(&self) -> (index: u32)
        ensures
            index == self@.1,
    {
        self.index
    }

    /// Take in the reply to the query for `next_index` (`None` when the
    /// query failed).
    pub fn feed(&mut self, reply: Option<FrameIntervalReply>)
        requires
            old(self).wf(),
            !old(self)@.2,
        ensures
            final(self)@ == frame_rate_step(old(self)@, reply),
            final(self).wf(),
    {
        match reply {
            None => {
                self.finished = true;
            },
            Some(r) => {
                self.index = self.index + 1;
                if r.kind != V4L2_FRMIVAL_TYPE_DISCRETE {
                    self.finished = true;
                    return;
                }
                if r.numerator > 0 && r.denominator > 0 {
                    let better = match self.best {
                        None => true,
                        Some(b) => wide_mul(r.denominator, b.0) > wide_mul(b.1, r.numerator),
                    };
                    if better {
                        self.best = Some((r.numerator, r.denominator));
                    }
                }
                if self.index >= MAX_INTERVALS {
                    self.finished = true;
                }
            },
        }
    }

    /// The interval of the highest rate found, if any discrete interval
    /// was usable (the rate then reads as 0).
    pub fn best_interval(&self) -> (best: Option<(u32, u32)>)
        ensures
            best == self@.0,
    {
        self.best
    }
}

/// The state of a frame-rate search after the replies `replies`, taken in
/// order from a fresh search.
pub open spec fn frame_rate_run(replies: Seq<Option<FrameIntervalReply>>) -> (Option<(u32, u32)>, u32, bool)
    decreases replies.len(),
{
    if replies.len() == 0 {
        (None, 0, false)
    } else {
        frame_rate_step(frame_rate_run(replies.drop_last()), replies.last())
    }
}

/// A reply that names a usable discrete frame interval.
pub open spec fn usable_interval(reply: Option<FrameIntervalReply>) -> bool {
    reply matches Some(r) && r.kind == V4L2_FRMIVAL_TYPE_DISCRETE && r.numerator > 0 && r.denominator > 0
}

/// An interval `numerator / denominator` seconds per frame is faster than
/// another when it gives more frames per second: never faster than itself;
/// with equal numerators, the larger denominator is faster; with equal
/// (nonzero) denominators, the smaller numerator is faster.
pub proof fn faster_means_more_frames_per_second(n1: u32, d1: u32, n2: u32, d2: u32)
    ensures
        !faster((n1, d1), (n1, d1)),
        n1 > 0 ==> (faster((n1, d1), (n1, d2)) <==> d1 > d2),
        d1 > 0 ==> (faster((n1, d1), (n2, d1)) <==> n1 < n2),
{
    if n1 > 0 {
        assert((d1 as int) * (n1 as int) > (d2 as int) * (n1 as int) <==> d1 > d2) by (nonlinear_arith)
            requires
                n1 > 0,
        ;
    }
    if d1 > 0 {
        assert((d1 as int) * (n2 as int) > (d1 as int) * (n1 as int) <==> n1 < n2) by (nonlinear_arith)
            requires
                d1 > 0,
        ;
    }
}

/// The frame-rate search finds the highest rate: its best interval is one
/// of the usable discrete intervals reported, none reported is faster, and
/// it finds none only when none was reported.
pub proof fn frame_rate_search_finds_highest(replies: Seq<Option<FrameIntervalReply>>)
    ensures
        frame_rate_run(replies).0 matches Some(b) ==> exists|i: int|
            0 <= i < replies.len() && #[trigger] usable_interval(replies[i]) && b == (
                replies[i].unwrap().numerator,
                replies[i].unwrap().denominator,
            ),
        frame_rate_run(replies).0 matches Some(b) ==> forall|i: int|
            0 <= i < replies.len() && #[trigger] usable_interval(replies[i]) ==> !faster(
                (replies[i].unwrap().numerator, replies[i].unwrap().denominator),
                b,
            ),
        frame_rate_run(replies).0 is None ==> forall|i: int|
            0 <= i < replies.len() ==> !#[trigger] usable_interval(replies[i]),
    decreases replies.len(),
{
    if replies.len() > 0 {
        let prefix = replies.drop_last();
        frame_rate_search_finds_highest(prefix);
        let prev = frame_rate_run(prefix);
        let last = replies.last();
        let n = replies.len() - 1;
        assert(frame_rate_run(replies) == frame_rate_step(prev, last));
        assert forall|i: int| 0 <= i < prefix.len() implies replies[i] == #[trigger] prefix[i] by {}
        assert(replies[n] == last);
        let best = frame_rate_run(replies).0;
        if usable_interval(last) {
            let cand = (last.unwrap().numerator, last.unwrap().denominator);
            if prev.0 is None || faster(cand, prev.0.unwrap()) {
                assert(best == Some(cand));
                assert forall|i: int|
                    0 <= i < replies.len() && #[trigger] usable_interval(replies[i]) implies !faster(
                        (replies[i].unwrap().numerator, replies[i].unwrap().denominator),
                        cand,
                    ) by {
                    if i < n {
                        assert(usable_interval(prefix[i]));
                        let x = (replies[i].unwrap().numerator, replies[i].unwrap().denominator);
                        let b = prev.0.unwrap();
                        assert(!faster(x, b));
                        lemma_faster_transitive(x, b, cand);
                    }
                }
            } else {
                let b = prev.0.unwrap();
                assert(best == Some(b));
                assert(!faster(cand, b));
                assert forall|i: int|
                    0 <= i < replies.len() && #[trigger] usable_interval(replies[i]) implies !faster(
                        (replies[i].unwrap().numerator, replies[i].unwrap().denominator),
                        b,
                    ) by {
                    if i < n {
                        assert(usable_interval(prefix[i]));
                    }
                }
                let w = choose|i: int|
                    0 <= i < prefix.len() && #[trigger] usable_interval(prefix[i]) && b == (
                        prefix[i].unwrap().numerator,
                        prefix[i].unwrap().denominator,
                    );
                assert(usable_interval(replies[w]));
            }
        } else {
            assert(best == prev.0);
            if let Some(b) = best {
                assert forall|i: int|
                    0 <= i < replies.len() && #[trigger] usable_interval(replies[i]) implies !faster(
                        (replies[i].unwrap().numerator, replies[i].unwrap().denominator),
                        b,
                    ) by {
                    if i < n {
                        assert(usable_interval(prefix[i]));
                    }
                }
                let w = choose|i: int|
                    0 <= i < prefix.len() && #[trigger] usable_interval(prefix[i]) && b == (
                        prefix[i].unwrap().numerator,
                        prefix[i].unwrap().denominator,
                    );
                assert(usable_interval(replies[w]));
            } else {
                assert forall|i: int| 0 <= i < replies.len() implies !#[trigger] usable_interval(replies[i]) by {
                    if i < n {
                        assert(!usable_interval(prefix[i]));
                    }
                }
            }
        }
    }
}

/// Rates compare consistently: `x` not faster than `b`, and `b` slower than
/// `c`, means `x` is not faster than `c`.
proof fn lemma_faster_transitive(x: (u32, u32), b: (u32, u32), c: (u32, u32))
    requires
        x.0 > 0,
        b.0 > 0,
        c.0 > 0,
        !faster(x, b),
        faster(c, b),
    ensures
        !faster(x, c),
{
    let (xn, xd, bn, bd, cn, cd) = (x.0 as int, x.1 as int, b.0 as int, b.1 as int, c.0 as int, c.1 as int);
    assert(xd * bn <= bd * xn);
    assert(cd * bn > bd * cn);
    assert(xd * cn <= cd * xn) by (nonlinear_arith)
        requires
            xn > 0,
            bn > 0,
            cn > 0,
            xd >= 0,
            bd >= 0,
            cd >= 0,
            xd * bn <= bd * xn,
            cd * bn > bd * cn,
    ;
}

/// Most formats listed for one device.
pub const MAX_FORMATS: usize = 64;

/// The listing of a device's discrete (pixel format, size, rate)
/// combinations, one VIDIOC_ENUM_FMT reply at a time; the sizes and rates of
/// each listed format come from a `FrameSizeScan` and `FrameRateScan`.
pub struct FormatScan {
    index: u32,
    formats: Vec<Format>,
    finished: bool,
}

impl FormatScan {
    /// The next VIDIOC_ENUM_FMT index to query.
    pub closed spec fn spec_index(&self) -> u32 {
        self.index
    }

    /// The formats listed so far.
    pub closed spec fn spec_formats(&self) -> Seq<Format> {
        self.formats@
    }

    /// Whether the listing is complete.
    pub closed spec fn spec_finished(&self) -> bool {
        self.finished
    }

    /// The listing never passes its bound.
    pub closed spec fn wf(&self) -> bool {
        self.formats@.len() <= MAX_FORMATS
    }

    /// An empty listing, waiting for the reply to index 0.
    pub fn new() -> (scan: Self)
        ensures
            scan.spec_index() == 0,
            scan.spec_formats() == Seq::<Format>::empty(),
            !scan.spec_finished(),
            scan.wf(),
    {
        FormatScan { index: 0, formats: Vec::new(), finished: false }
    }

    /// Whether the listing is complete.
    pub fn is_finished(&self) -> (done: bool)
        ensures
            done == self.spec_finished(),
    {
        self.finished
    }

    /// The VIDIOC_ENUM_FMT index to query next.
    pub fn next_index(&self) -> (index: u32)
        ensures
            index == self.spec_index(),
    {
        self.index
    }

    /// Take in the pixel format VIDIOC_ENUM_FMT reported for `next_index`
    /// (`None` when the query failed, which ends the listing). Returns the
    /// FOURCC and wire format when the format is one we list; its sizes are
    /// then to be listed.
    pub fn on_format(&mut self, reply: Option<u32>) -> (listed: Option<(u32, PixelFormat)>)
        requires
            !old(self).spec_finished(),
            reply is Some ==> old(self).spec_index() < u32::MAX,
        ensures
            final(self).spec_formats() == old(self).spec_formats(),
            final(self).wf() == old(self).wf(),
            reply is None ==> final(self).spec_finished() && final(self).spec_index() == old(self).spec_index()
                && listed is None,
            reply matches Some(fourcc) ==> {
                &&& !final(self).spec_finished()
                &&& final(self).spec_index() == old(self).spec_index() + 1
                &&& listed == match listed_pixel_format(fourcc) {
                    Some(pf) => Some((fourcc, pf)),
                    None => None,
                }
            },
    {
        match reply {
            None => {
                self.finished = true;
                None
            },
            Some(fourcc) => {
                self.index = self.index + 1;
                match map_pixel_format(fourcc) {
                    Some(pf) => Some((fourcc, pf)),
                    None => None,
                }
            },
        }
    }

    /// Whether another format may be listed; when the bound is reached the
    /// listing ends.
    pub fn has_room(&mut self) -> (room: bool)
        requires
            old(self).wf(),
        ensures
            room == (old(self).spec_formats().len() < MAX_FORMATS),
            final(self).spec_formats() == old(self).spec_formats(),
            final(self).spec_index() == old(self).spec_index(),
            final(self).spec_finished() == (old(self).spec_finished() || !room),
            final(self).wf(),
    {
        if self.formats.len() >= MAX_FORMATS {
            self.finished = true;
            false
        } else {
            true
        }
    }

    /// List one (format, size, rate) combination.
    pub fn push(&mut self, width: u32, height: u32, pixel_format: PixelFormat, frame_rate: String)
        requires
            old(self).spec_formats().len() < MAX_FORMATS,
        ensures
            final(self).spec_formats() == old(self).spec_formats().push(
                Format { width: width as i32, height: height as i32, pixel_format, frame_rate },
            ),
            final(self).spec_index() == old(self).spec_index(),
            final(self).spec_finished() == old(self).spec_finished(),
            final(self).wf(),
    {
        self.formats.push(Format { width: width as i32, height: height as i32, pixel_format, frame_rate });
    }

    /// The formats listed.
    pub fn into_formats(self) -> (formats: Vec<Format>)
        ensures
            formats@ == self.spec_formats(),
    {
        self.formats
    }
}

/// The capture format the driver settled on.
#[derive(Clone, Copy, Debug, PartialEq, Eq, Structural)]
pub struct StreamGeometry {
    pub width: u32,
    pub height: u32,
    /// Bytes between rows: the driver's line length, at least the width.
    pub stride: usize,
    pub fourcc: u32,
}

/// The stream for the format the driver set (VIDIOC_S_FMT, or VIDIOC_G_FMT
/// when setting failed), or `None` when the format is not one we can turn
/// into BGRA (MJPEG and other compressed or exotic formats are refused
/// rather than delivered as garbage).
pub fn negotiated_stream(width: u32, height: u32, bytesperline: u32, pixelformat: u32) -> (stream: Option<StreamGeometry>)
    ensures
        stream is Some <==> convertible(pixelformat),
        stream matches Some(g) ==> (g == StreamGeometry {
            width,
            height,
            stride: if bytesperline >= width {
                bytesperline as usize
            } else {
                width as usize
            },
            fourcc: pixelformat,
        }),
{
    let stride = if bytesperline >= width {
        bytesperline as usize
    } else {
        width as usize
    };
    let empty: [u8; 0] = [];
    if convert_to_bgra(pixelformat, &empty, width, height, stride).is_none() && !is_convertible(pixelformat) {
        return None;
    }
    Some(StreamGeometry { width, height, stride, fourcc: pixelformat })
}

/// Whether VIDIOC_REQBUFS granted any buffer to stream with.
pub fn buffers_granted(count: u32) -> (ok: bool)
    ensures
        ok == (count >= 1),
{
    count >= 1
}

/// What the capture loop does next.
#[derive(Clone, Copy, Debug, PartialEq, Eq, Structural)]
pub enum LoopStep {
    /// Go around again (after re-checking the stop flag).
    Retry,
    /// Leave the loop and shut the stream down.
    Stop,
    /// A buffer is ready: dequeue it.
    Dequeue,
}

/// The step after `poll` returned `result`, with `readable` telling
/// whether the device reported input and `interrupted` whether a failure
/// was EINTR.
pub fn after_poll(result: i32, readable: bool, interrupted: bool) -> (step: LoopStep)
    ensures
        step == if result < 0 {
            if interrupted {
                LoopStep::Retry
            } else {
                LoopStep::Stop
            }
        } else if result == 0 || !readable {
            LoopStep::Retry
        } else {
            LoopStep::Dequeue
        },
{
    if result < 0 {
        if interrupted {
            LoopStep::Retry
        } else {
            LoopStep::Stop
        }
    } else if result == 0 || !readable {
        LoopStep::Retry
    } else {
        LoopStep::Dequeue
    }
}

/// The step after VIDIOC_DQBUF failed, with `would_block` telling whether
/// the failure was EAGAIN.
pub fn after_failed_dequeue(would_block: bool) -> (step: LoopStep)
    ensures
        step == if would_block {
            LoopStep::Retry
        } else {
            LoopStep::Stop
        },
{
    if would_block {
        LoopStep::Retry
    } else {
        LoopStep::Stop
    }
}

/// How many bytes of a dequeued buffer hold the frame: the bytes the
/// driver used, capped at the mapped length; `None` for a buffer index we
/// never mapped.
pub fn captured_len(index: u32, buffer_count: usize, bytesused: u32, mapped_len: usize) -> (len: Option<usize>)
    ensures
        len is Some <==> (index as int) < buffer_count,
        len matches Some(n) ==> n == if (bytesused as int) < mapped_len {
            bytesused as int
        } else {
            mapped_len as int
        },
{
    if (index as usize) < buffer_count {
        let used = bytesused as usize;
        Some(if used < mapped_len { used } else { mapped_len })
    } else {
        None
    }
}

/// A kernel timestamp (seconds and microseconds) in microseconds.
pub open spec fn timestamp_micros(sec: i64, usec: i64) -> int {
    sec * 1_000_000 + usec
}

/// Kernel timestamps count whole seconds of a million microseconds each,
/// plus the microseconds within the second.
pub proof fn timestamps_count_microseconds(sec: i64, usec: i64)
    ensures
        timestamp_micros(0, usec) == usec,
        timestamp_micros(sec, 0) == sec * 1_000_000,
        sec < i64::MAX ==> timestamp_micros((sec + 1) as i64, usec) == timestamp_micros(sec, usec) + 1_000_000,
{
}

/// The frame for the bytes of one dequeued buffer, converted to BGRA and
/// stamped with the buffer's timestamp; `None` when there is nothing to
/// convert.
pub fn capture_frame(stream: &StreamGeometry, bytes: &[u8], sec: i64, usec: i64) -> (frame: Option<Frame>)
    requires
        frame_fits(stream.fourcc, stream.width, stream.height, stream.stride),
        i64::MIN <= sec * 1_000_000 <= i64::MAX,
        i64::MIN <= timestamp_micros(sec, usec) <= i64::MAX,
    ensures
        frame is Some <==> (bytes@.len() > 0 && convertible(stream.fourcc)),
        frame matches Some(f) ==> {
            &&& f.width == stream.width as i32
            &&& f.height == stream.height as i32
            &&& f.pixel_format == PixelFormat::Bgra8888
            &&& f.timestamp_us == timestamp_micros(sec, usec)
            &&& f.data@.len() == (stream.width as int) * (stream.height as int) * 4
            &&& forall|r: int, c: int, k: int|
                0 <= r < stream.height && 0 <= c < stream.width && 0 <= k < 4 ==> #[trigger] pixel_byte(
                    f.data@,
                    stream.width as int,
                    r,
                    c,
                    k,
                ) == converted_byte(stream.fourcc, bytes@, stream.width as int, stream.stride as int, r, c, k)
        },
{
    match convert_to_bgra(stream.fourcc, bytes, stream.width, stream.height, stream.stride) {
        Some(data) => Some(
            Frame {
                data,
                width: stream.width as i32,
                height: stream.height as i32,
                pixel_format: PixelFormat::Bgra8888,
                timestamp_us: sec * 1_000_000 + usec,
            },
        ),
        None => None,
    }
}

} // verus!
