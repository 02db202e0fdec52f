use camera_control::android::{camera_device, image_to_bgra, lens_facing, plane_stride, Plane, RepeatingRequest};
use camera_control::avfoundation::{
    access_step, device_descriptor as av_device, extract_frame as av_frame, facing_of_position, find_device,
    format_descriptor, AccessStep, AuthorizationStatus, DevicePosition,
};
use camera_control::device::{Device, LensFacing, PixelFormat};
use camera_control::media_foundation::{
    device_descriptor as mf_device, end_of_stream, extract_frame as mf_frame, frame_dimensions, open as mf_open,
    row_stride, timestamp_micros, READERF_ENDOFSTREAM,
};

fn device(id: &str) -> Device {
    Device { id: id.to_string(), name: "n".to_string(), facing: "external".to_string(), formats: Vec::new() }
}

#[test]
fn media_foundation_opens_only_listed_devices() {
    let devices = vec![device("\\\\?\\usb#a"), device("\\\\?\\usb#b")];
    assert_eq!(mf_open(&devices, "\\\\?\\usb#b"), Ok("\\\\?\\usb#b".to_string()));
    assert_eq!(mf_open(&devices, "\\\\?\\usb#c"), Err(()));
    assert_eq!(mf_open(&[], "x"), Err(()));
}

#[test]
fn media_foundation_descriptor_falls_back_to_camera() {
    let d = mf_device("link".to_string(), None);
    assert_eq!((d.id.as_str(), d.name.as_str(), d.facing.as_str()), ("link", "Camera", "external"));
    assert!(d.formats.is_empty());
    let named = mf_device("link".to_string(), Some("Integrated Webcam".to_string()));
    assert_eq!(named.name, "Integrated Webcam");
}

#[test]
fn media_foundation_unpacks_frame_size_and_flags() {
    assert_eq!(frame_dimensions((1280u64 << 32) | 720), (1280, 720));
    assert_eq!(frame_dimensions(0), (0, 0));
    assert_eq!(frame_dimensions(u64::MAX), (u32::MAX, u32::MAX));
    assert!(end_of_stream(READERF_ENDOFSTREAM));
    assert!(end_of_stream(READERF_ENDOFSTREAM | 1));
    assert!(!end_of_stream(1 | 4));
}

#[test]
fn media_foundation_stride_defaults_to_four_bytes_per_pixel() {
    assert_eq!(row_stride(None, 640), 2560);
    assert_eq!(row_stride(Some(2624), 640), 2624);
    assert_eq!(row_stride(Some(u32::MAX - 2559), 640), -2560);
}

#[test]
fn media_foundation_timestamps_round_toward_zero() {
    assert_eq!(timestamp_micros(123_456_789), 12_345_678);
    assert_eq!(timestamp_micros(-15), -1);
    assert_eq!(timestamp_micros(9), 0);
}

#[test]
fn media_foundation_frames_flip_bottom_up_rows_and_force_opacity() {
    // Two rows of one BGRX pixel, stored bottom-up (negative stride).
    let buffer = [1, 2, 3, 0, 5, 6, 7, 0];
    let frame = mf_frame(Some(&buffer), 8, 1, 2, -4, 100);
    assert_eq!(frame.data, vec![5, 6, 7, 255, 1, 2, 3, 255]);
    assert_eq!((frame.width, frame.height, frame.pixel_format, frame.timestamp_us), (1, 2, PixelFormat::Bgra8888, 10));
    let top_down = mf_frame(Some(&buffer), 8, 1, 2, 4, 0);
    assert_eq!(top_down.data, vec![1, 2, 3, 255, 5, 6, 7, 255]);
    // A short buffer gives opaque black.
    let short = mf_frame(Some(&buffer), 4, 1, 2, 4, 0);
    assert_eq!(short.data, vec![0, 0, 0, 255, 0, 0, 0, 255]);
    let missing = mf_frame(None, 0, 1, 1, 4, 0);
    assert_eq!(missing.data, vec![0, 0, 0, 255]);
}

#[test]
fn avfoundation_access_follows_authorization() {
    assert_eq!(access_step(AuthorizationStatus::Authorized), AccessStep::Granted);
    assert_eq!(access_step(AuthorizationStatus::NotDetermined), AccessStep::Ask);
    assert_eq!(access_step(AuthorizationStatus::Denied), AccessStep::Refused);
    assert_eq!(access_step(AuthorizationStatus::Restricted), AccessStep::Refused);
}

#[test]
fn avfoundation_describes_devices_by_position() {
    assert_eq!(facing_of_position(DevicePosition::Front), LensFacing::Front);
    assert_eq!(facing_of_position(DevicePosition::Back), LensFacing::Back);
    assert_eq!(facing_of_position(DevicePosition::Unspecified), LensFacing::External);
    let format = format_descriptor(1920, 1080, "30".to_string());
    assert_eq!((format.width, format.height, format.pixel_format), (1920, 1080, PixelFormat::Bgra8888));
    let d = av_device("uid".to_string(), "FaceTime HD".to_string(), DevicePosition::Front, vec![format]);
    assert_eq!((d.id.as_str(), d.name.as_str(), d.facing.as_str(), d.formats.len()), ("uid", "FaceTime HD", "front", 1));
}

#[test]
fn avfoundation_finds_the_first_matching_device() {
    let ids = vec!["a".to_string(), "b".to_string(), "b".to_string()];
    assert_eq!(find_device(&ids, "b"), Some(1));
    assert_eq!(find_device(&ids, "a"), Some(0));
    assert_eq!(find_device(&ids, "c"), None);
}

#[test]
fn avfoundation_frames_drop_row_padding() {
    // Two rows of one pixel, each row padded to 8 bytes.
    let base = [1, 2, 3, 4, 0, 0, 0, 0, 5, 6, 7, 8];
    let frame = av_frame(Some(&base), 1, 2, 8);
    assert_eq!(frame.data, vec![1, 2, 3, 4, 5, 6, 7, 8]);
    assert_eq!((frame.width, frame.height, frame.timestamp_us), (1, 2, 0));
    assert!(av_frame(None, 4, 4, 16).data.is_empty());
}

#[test]
fn android_facing_and_names() {
    assert_eq!(lens_facing(Some(0)), LensFacing::Front);
    assert_eq!(lens_facing(Some(1)), LensFacing::Back);
    assert_eq!(lens_facing(Some(2)), LensFacing::External);
    assert_eq!(lens_facing(None), LensFacing::External);
    let d = camera_device("0".to_string(), LensFacing::Back);
    assert_eq!((d.id.as_str(), d.name.as_str(), d.facing.as_str()), ("0", "Camera 0", "back"));
}

#[test]
fn android_repeating_request_is_issued_once_per_start() {
    let mut request = RepeatingRequest::new();
    assert!(request.start());
    assert!(!request.start());
    request.stop();
    assert!(request.start());
}

#[test]
fn android_plane_strides_are_at_least_one() {
    assert_eq!(plane_stride(0), 1);
    assert_eq!(plane_stride(-3), 1);
    assert_eq!(plane_stride(2), 2);
}

#[test]
fn android_images_convert_or_are_skipped() {
    let y = [16u8, 235];
    let uv = [128u8];
    let plane = |data: &'static [u8], pixel_stride: usize, row_stride: usize| Plane { data, pixel_stride, row_stride };
    let y: &'static [u8] = Box::leak(Box::new(y));
    let uv: &'static [u8] = Box::leak(Box::new(uv));
    let frame = image_to_bgra(
        Some(2),
        Some(1),
        Some(3),
        Some(plane(y, 1, 2)),
        Some(plane(uv, 1, 1)),
        Some(plane(uv, 1, 1)),
        5_000_999,
    )
    .expect("a usable image");
    assert_eq!(frame.data, vec![0, 0, 0, 255, 255, 255, 255, 255]);
    assert_eq!((frame.width, frame.height, frame.timestamp_us), (2, 1, 5_000));
    assert!(image_to_bgra(Some(0), Some(1), Some(3), Some(plane(y, 1, 2)), Some(plane(uv, 1, 1)), Some(plane(uv, 1, 1)), 0)
        .is_none());
    assert!(image_to_bgra(Some(2), Some(1), Some(2), Some(plane(y, 1, 2)), Some(plane(uv, 1, 1)), Some(plane(uv, 1, 1)), 0)
        .is_none());
    assert!(image_to_bgra(Some(2), None, Some(3), Some(plane(y, 1, 2)), Some(plane(uv, 1, 1)), None, 0).is_none());
}
