//! The logic of the AVFoundation capture backend for macOS and iOS.
//!
//! Enumeration goes through a device discovery session once camera access
//! is granted; capture pushes each BGRA sample buffer from the video data
//! output's delegate to the registered frame sink.

use vstd::prelude::*;

use crate::device::{Device, Format, LensFacing, PixelFormat};
use crate::pixels::{pack_bgra_rows, pixel_byte};
use crate::session::Frame;

verus! {

/// Camera authorization, as AVFoundation reports it for video.
#[derive(Clone, Copy, Debug, PartialEq, Eq, Structural)]
pub enum AuthorizationStatus {
    NotDetermined,
    Restricted,
    Denied,
    Authorized,
}

/// What to do about camera access.
#[derive(Clone, Copy, Debug, PartialEq, Eq, Structural)]
pub enum AccessStep {
    /// Access is authorized.
    Granted,
    /// Access was refused or is restricted; no camera is usable.
    Refused,
    /// The user has not decided: ask, and wait for the answer.
    Ask,
}

/// Decide camera access from the authorization status. The discovery
/// session reports no devices until access is granted.
pub fn access_step(status: AuthorizationStatus) -> (step: AccessStep)
    ensures
        step == match status {
            AuthorizationStatus::Authorized => AccessStep::Granted,
            AuthorizationStatus::NotDetermined => AccessStep::Ask,
            _ => AccessStep::Refused,
        },
{
    if status == AuthorizationStatus::Authorized {
        return AccessStep::Granted;
    }
    if status != AuthorizationStatus::NotDetermined {
        return AccessStep::Refused;
    }
    AccessStep::Ask
}

/// Where a capture device sits.
#[derive(Clone, Copy, Debug, PartialEq, Eq, Structural)]
pub enum DevicePosition {
    Unspecified,
    Back,
    Front,
}

/// The facing a device position is listed with.
pub open spec fn position_facing(position: DevicePosition) -> LensFacing {
    match position {
        DevicePosition::Front => LensFacing::Front,
        DevicePosition::Back => LensFacing::Back,
        DevicePosition::Unspecified => LensFacing::External,
    }
}

/// A front camera faces front and a back camera back; a camera with no
/// position (a webcam or capture card) is external.
pub proof fn positions_face_their_way()
    ensures
        position_facing(DevicePosition::Front) == LensFacing::Front,
        position_facing(DevicePosition::Back) == LensFacing::Back,
        position_facing(DevicePosition::Unspecified) == LensFacing::External,
{
}

/// The facing a device position is listed with.
pub fn facing_of_position(position: DevicePosition) -> (facing: LensFacing)
    ensures
        facing == position_facing(position),
{
    match position {
        DevicePosition::Front => LensFacing::Front,
        DevicePosition::Back => LensFacing::Back,
        DevicePosition::Unspecified => LensFacing::External,
    }
}

/// One supported format of a device: its dimensions, delivered as BGRA
/// (the output is asked for BGRA whatever the native format), and the text
/// of its highest supported frame rate.
pub fn format_descriptor(width: i32, height: i32, frame_rate: String) -> (f: Format)
    ensures
        f.width == width,
        f.height == height,
        f.pixel_format == PixelFormat::Bgra8888,
        f.frame_rate@ == frame_rate@,
{
    Format { width, height, pixel_format: PixelFormat::Bgra8888, frame_rate }
}

/// The descriptor of a device with unique id `id`, localized name `name`,
/// position `position` and formats `formats`.
pub fn device_descriptor(id: String, name: String, position: DevicePosition, formats: Vec<Format>) -> (d: Device)
    ensures
        d.id@ == id@,
        d.name@ == name@,
        d.facing@ == position_facing(position).name(),
        d.formats@ == formats@,
{
    let facing = String::from_str(facing_of_position(position).as_str());
    Device { id, name, facing, formats }
}

/// The first position in `ids` holding `id`.
pub fn find_device(ids: &[String], id: &str) -> (found: Option<usize>)
    ensures
        found is None ==> forall|j: int| 0 <= j < ids@.len() ==> ids@[j]@ != id@,
        found matches Some(i) ==> i < ids@.len() && ids@[i as int]@ == id@ && forall|j: int|
            0 <= j < i ==> ids@[j]@ != id@,
{
    let wanted = String::from_str(id);
    let mut i: usize = 0;
    while i < ids.len()
        invariant
            i <= ids@.len(),
            wanted@ == id@,
            forall|j: int| 0 <= j < i ==> ids@[j]@ != id@,
        decreases ids@.len() - i,
    {
        if ids[i] == wanted {
            return Some(i);
        }
        i += 1;
    }
    None
}

/// The frame for one locked pixel buffer of `width` x `height` BGRA pixels
/// whose rows are `bytes_per_row` bytes apart: the rows packed tightly, or
/// no data when the buffer has no base address. Frames carry no timestamp.
pub fn extract_frame(base: Option<&[u8]>, width: usize, height: usize, bytes_per_row: usize) -> (frame: Frame)
    requires
        (width as int) * (height as int) * 4 <= usize::MAX,
        base is Some && height > 0 ==> (height - 1) * (bytes_per_row as int) + (width as int) * 4 <= base.unwrap()@.len(),
    ensures
        frame.width == width as i32,
        frame.height == height as i32,
        frame.pixel_format == PixelFormat::Bgra8888,
        frame.timestamp_us == 0,
        base is None ==> frame.data@.len() == 0,
        base matches Some(b) ==> frame.data@.len() == (width as int) * (height as int) * 4 && forall|r: int, c: int, k: int|
            0 <= r < height && 0 <= c < width && 0 <= k < 4 ==> #[trigger] pixel_byte(frame.data@, width as int, r, c, k)
                == b@[r * bytes_per_row + c * 4 + k],
{
    let data = match base {
        Some(b) => pack_bgra_rows(b, width, height, bytes_per_row),
        None => Vec::new(),
    };
    Frame { data, width: width as i32, height: height as i32, pixel_format: PixelFormat::Bgra8888, timestamp_us: 0 }
}

} // verus!
