use camera_control::device::PixelFormat;
use camera_control::pixels::{rgb24_to_bgra, yuv422_to_bgra};
use camera_control::v4l2::{
    after_failed_dequeue, after_poll, buffers_granted, c_field, capture_frame, captured_len, convert_to_bgra,
    device_descriptor, fourcc, ioc, ior, iow, iowr, is_convertible, is_streaming_capture, map_pixel_format,
    named_device, negotiated_stream, order_video_nodes, video_node_index, vidioc_dqbuf, vidioc_enum_fmt,
    vidioc_enum_frameintervals, vidioc_enum_framesizes, vidioc_g_fmt, vidioc_qbuf, vidioc_querybuf,
    vidioc_querycap, vidioc_reqbufs, vidioc_s_fmt, vidioc_streamoff, vidioc_streamon, FormatScan,
    FrameIntervalReply, FrameRateScan, FrameSizeReply, FrameSizeScan, LoopStep, StreamGeometry, IOC_READ,
    MAX_FORMATS, MAX_INTERVALS, MAX_SIZES_PER_FORMAT, V4L2_CAP_DEVICE_CAPS, V4L2_CAP_STREAMING,
    V4L2_CAP_VIDEO_CAPTURE, V4L2_CAP_VIDEO_CAPTURE_MPLANE, V4L2_FRMIVAL_TYPE_DISCRETE, V4L2_FRMSIZE_TYPE_DISCRETE,
    V4L2_PIX_FMT_BGR24, V4L2_PIX_FMT_MJPEG, V4L2_PIX_FMT_RGB24, V4L2_PIX_FMT_UYVY, V4L2_PIX_FMT_YUYV,
};

#[test]
fn ioctl_codes_match_kernel() {
    assert_eq!(vidioc_querycap(), 0x8068_5600);
    assert_eq!(vidioc_enum_fmt(), 0xc040_5602);
    assert_eq!(vidioc_g_fmt(), 0xc0d0_5604);
    assert_eq!(vidioc_s_fmt(), 0xc0d0_5605);
    assert_eq!(vidioc_reqbufs(), 0xc014_5608);
    assert_eq!(vidioc_querybuf(), 0xc058_5609);
    assert_eq!(vidioc_qbuf(), 0xc058_560f);
    assert_eq!(vidioc_dqbuf(), 0xc058_5611);
    assert_eq!(vidioc_streamon(), 0x4004_5612);
    assert_eq!(vidioc_streamoff(), 0x4004_5613);
    assert_eq!(vidioc_enum_framesizes(), 0xc02c_564a);
    assert_eq!(vidioc_enum_frameintervals(), 0xc034_564b);
}

#[test]
fn yuyv_gray_roundtrips_to_neutral_bgra() {
    // Y=mid, U=V=128 (neutral chroma) should yield a near-gray opaque pixel.
    let src = [126u8, 128, 126, 128];
    let out = camera_control::pixels::yuv422_to_bgra(&src, 2, 1, 4, false);
    assert_eq!(out.len(), 2 * 4);
    assert_eq!(out[3], 255);
    // B, G, R all roughly equal for neutral chroma.
    assert!((out[0] as i32 - out[2] as i32).abs() <= 2);
}

#[test]
fn request_code_fields_decode() {
    let code = iowr(0x56, 74, 44);
    assert_eq!(code >> 30, 3);
    assert_eq!((code >> 16) & 0x3fff, 44);
    assert_eq!((code >> 8) & 0xff, 0x56);
    assert_eq!(code & 0xff, 74);
    assert_eq!(ior(0x56, 0, 104), ioc(IOC_READ, 0x56, 0, 104));
    assert_eq!(iow(1, 2, 3), (1 << 30) | (3 << 16) | (1 << 8) | 2);
}

#[test]
fn fourcc_spells_pixel_formats() {
    assert_eq!(fourcc(b'Y', b'U', b'Y', b'V'), V4L2_PIX_FMT_YUYV);
    assert_eq!(fourcc(b'U', b'Y', b'V', b'Y'), V4L2_PIX_FMT_UYVY);
    assert_eq!(fourcc(b'R', b'G', b'B', b'3'), V4L2_PIX_FMT_RGB24);
    assert_eq!(fourcc(b'B', b'G', b'R', b'3'), V4L2_PIX_FMT_BGR24);
    assert_eq!(fourcc(b'M', b'J', b'P', b'G'), V4L2_PIX_FMT_MJPEG);
}

#[test]
fn streaming_capture_prefers_device_caps() {
    let capture_streaming = V4L2_CAP_VIDEO_CAPTURE | V4L2_CAP_STREAMING;
    assert!(is_streaming_capture(capture_streaming, 0));
    assert!(!is_streaming_capture(V4L2_CAP_VIDEO_CAPTURE, 0));
    assert!(!is_streaming_capture(capture_streaming | V4L2_CAP_VIDEO_CAPTURE_MPLANE, 0));
    // With DEVICE_CAPS set, the per-node caps decide: a metadata node is dropped.
    assert!(!is_streaming_capture(capture_streaming | V4L2_CAP_DEVICE_CAPS, 0x0080_0000));
    assert!(is_streaming_capture(V4L2_CAP_DEVICE_CAPS, capture_streaming));
}

#[test]
fn pixel_formats_map_to_wire_formats() {
    assert_eq!(map_pixel_format(V4L2_PIX_FMT_YUYV), Some(PixelFormat::Yuyv422));
    assert_eq!(map_pixel_format(V4L2_PIX_FMT_UYVY), Some(PixelFormat::Yuyv422));
    assert_eq!(map_pixel_format(V4L2_PIX_FMT_RGB24), Some(PixelFormat::Rgba8888));
    assert_eq!(map_pixel_format(V4L2_PIX_FMT_BGR24), Some(PixelFormat::Rgba8888));
    assert_eq!(map_pixel_format(V4L2_PIX_FMT_MJPEG), Some(PixelFormat::Mjpeg));
    assert_eq!(map_pixel_format(0), None);
    assert!(is_convertible(V4L2_PIX_FMT_YUYV));
    assert!(is_convertible(V4L2_PIX_FMT_BGR24));
    assert!(!is_convertible(V4L2_PIX_FMT_MJPEG));
}

#[test]
fn convert_dispatches_by_format() {
    let bgr = [1u8, 2, 3];
    assert_eq!(convert_to_bgra(V4L2_PIX_FMT_BGR24, &bgr, 1, 1, 3), Some(vec![1, 2, 3, 255]));
    assert_eq!(convert_to_bgra(V4L2_PIX_FMT_RGB24, &bgr, 1, 1, 3), Some(vec![3, 2, 1, 255]));
    assert_eq!(convert_to_bgra(V4L2_PIX_FMT_YUYV, &[], 1, 1, 3), None);
    assert_eq!(convert_to_bgra(V4L2_PIX_FMT_MJPEG, &bgr, 1, 1, 3), None);
    let uyvy = [128u8, 235, 128, 16];
    let out = convert_to_bgra(V4L2_PIX_FMT_UYVY, &uyvy, 2, 1, 4).unwrap();
    assert_eq!(out, vec![255, 255, 255, 255, 0, 0, 0, 255]);
}

#[test]
fn c_field_stops_at_the_first_nul() {
    assert_eq!(c_field(b"HD Webcam\0\0junk"), "HD Webcam");
    assert_eq!(c_field(b"no terminator"), "no terminator");
    assert_eq!(c_field(b"\0abc"), "");
    // Invalid UTF-8 is replaced, not dropped.
    assert_eq!(c_field(&[b'a', 0xff, b'b', 0]), "a\u{fffd}b");
}

#[test]
fn video_nodes_are_recognized() {
    assert_eq!(video_node_index("video0"), Some(0));
    assert_eq!(video_node_index("video10"), Some(10));
    assert_eq!(video_node_index("video+7"), Some(7));
    assert_eq!(video_node_index("video4294967295"), Some(4294967295));
    assert_eq!(video_node_index("video4294967296"), None);
    assert_eq!(video_node_index("video"), None);
    assert_eq!(video_node_index("video-1"), None);
    assert_eq!(video_node_index("video1a"), None);
    assert_eq!(video_node_index("vbi0"), None);
    assert_eq!(video_node_index("Video0"), None);
}

#[test]
fn video_nodes_are_ordered_by_index_stably() {
    let nodes = vec![
        (10, "/dev/video10".to_string()),
        (2, "/dev/video2".to_string()),
        (1, "/dev/video01".to_string()),
        (0, "/dev/video0".to_string()),
        (1, "/dev/video1".to_string()),
    ];
    let ordered = order_video_nodes(nodes);
    let paths: Vec<&str> = ordered.iter().map(|(_, p)| p.as_str()).collect();
    assert_eq!(paths, vec!["/dev/video0", "/dev/video01", "/dev/video1", "/dev/video2", "/dev/video10"]);
}

#[test]
fn descriptor_falls_back_to_the_path() {
    let d = device_descriptor("/dev/video0".to_string(), b"Integrated Camera\0\0", Vec::new());
    assert_eq!(d.id, "/dev/video0");
    assert_eq!(d.name, "Integrated Camera");
    assert_eq!(d.facing, "external");
    let d = device_descriptor("/dev/video3".to_string(), &[0u8; 32], Vec::new());
    assert_eq!(d.name, "/dev/video3");
    // A card field with invalid UTF-8 is decoded leniently, not dropped.
    let d = device_descriptor("/dev/video4".to_string(), b"Cam\xff\0", Vec::new());
    assert_eq!(d.name, "Cam\u{fffd}");
}

#[test]
fn named_device_prefers_the_card_name() {
    let d = named_device("/dev/video0".to_string(), "USB Camera".to_string(), Vec::new());
    assert_eq!((d.id.as_str(), d.name.as_str(), d.facing.as_str()), ("/dev/video0", "USB Camera", "external"));
    let d = named_device("/dev/video2".to_string(), String::new(), Vec::new());
    assert_eq!(d.name, "/dev/video2");
}

fn discrete(w: u32, h: u32) -> Option<FrameSizeReply> {
    Some(FrameSizeReply { kind: V4L2_FRMSIZE_TYPE_DISCRETE, discrete_width: w, discrete_height: h, max_width: 0, max_height: 0 })
}

#[test]
fn frame_sizes_end_at_failure_or_range() {
    let mut scan = FrameSizeScan::new();
    assert_eq!(scan.next_index(), 0);
    scan.feed(discrete(640, 480));
    assert_eq!(scan.next_index(), 1);
    scan.feed(Some(FrameSizeReply { kind: 3, discrete_width: 1, discrete_height: 2, max_width: 1920, max_height: 1080 }));
    assert!(scan.is_finished());
    assert_eq!(scan.into_sizes(), vec![(640, 480), (1920, 1080)]);

    let mut scan = FrameSizeScan::new();
    scan.feed(discrete(1, 1));
    scan.feed(None);
    assert!(scan.is_finished());
    assert_eq!(scan.into_sizes(), vec![(1, 1)]);
}

#[test]
fn frame_sizes_are_bounded() {
    let mut scan = FrameSizeScan::new();
    let mut fed = 0;
    while !scan.is_finished() {
        scan.feed(discrete(fed, fed));
        fed += 1;
    }
    assert_eq!(fed as usize, MAX_SIZES_PER_FORMAT);
    assert_eq!(scan.into_sizes().len(), 16);
}

fn interval(numerator: u32, denominator: u32) -> Option<FrameIntervalReply> {
    Some(FrameIntervalReply { kind: V4L2_FRMIVAL_TYPE_DISCRETE, numerator, denominator })
}

#[test]
fn frame_rate_search_keeps_the_highest() {
    let mut scan = FrameRateScan::new();
    scan.feed(interval(1, 15));
    scan.feed(interval(1001, 30000));
    scan.feed(interval(0, 60));
    scan.feed(interval(1, 30));
    scan.feed(interval(2, 60));
    assert_eq!(scan.next_index(), 5);
    assert_eq!(scan.best_interval(), Some((1, 30)));
    scan.feed(Some(FrameIntervalReply { kind: 2, numerator: 1, denominator: 120 }));
    assert!(scan.is_finished());
    assert_eq!(scan.best_interval(), Some((1, 30)));
}

#[test]
fn frame_rate_search_without_usable_intervals() {
    let mut scan = FrameRateScan::new();
    scan.feed(interval(0, 30));
    scan.feed(None);
    assert!(scan.is_finished());
    assert_eq!(scan.best_interval(), None);

    let mut scan = FrameRateScan::new();
    let mut fed = 0;
    while !scan.is_finished() {
        scan.feed(interval(1, 1));
        fed += 1;
    }
    assert_eq!(fed, MAX_INTERVALS);
}

#[test]
fn format_listing_is_bounded() {
    let mut scan = FormatScan::new();
    assert_eq!(scan.next_index(), 0);
    assert_eq!(scan.on_format(Some(V4L2_PIX_FMT_MJPEG)), Some((V4L2_PIX_FMT_MJPEG, PixelFormat::Mjpeg)));
    assert_eq!(scan.next_index(), 1);
    assert_eq!(scan.on_format(Some(0x1234)), None);
    assert!(!scan.is_finished());
    for i in 0..MAX_FORMATS {
        assert!(scan.has_room());
        scan.push(i as u32, 3_000_000_000, PixelFormat::Mjpeg, "30".to_string());
    }
    assert!(!scan.has_room());
    assert!(scan.is_finished());
    let formats = scan.into_formats();
    assert_eq!(formats.len(), 64);
    assert_eq!(formats[5].width, 5);
    assert_eq!(formats[5].height, 3_000_000_000u32 as i32);
}

#[test]
fn format_listing_ends_on_failure() {
    let mut scan = FormatScan::new();
    assert_eq!(scan.on_format(None), None);
    assert!(scan.is_finished());
    assert_eq!(scan.next_index(), 0);
}

#[test]
fn stream_negotiation_refuses_compressed_formats() {
    let g = negotiated_stream(1280, 720, 2560, V4L2_PIX_FMT_YUYV).unwrap();
    assert_eq!(g, StreamGeometry { width: 1280, height: 720, stride: 2560, fourcc: V4L2_PIX_FMT_YUYV });
    let g = negotiated_stream(640, 480, 0, V4L2_PIX_FMT_RGB24).unwrap();
    assert_eq!(g.stride, 640);
    assert_eq!(negotiated_stream(1280, 720, 0, V4L2_PIX_FMT_MJPEG), None);
    assert!(buffers_granted(4));
    assert!(!buffers_granted(0));
}

#[test]
fn capture_loop_steps() {
    assert_eq!(after_poll(-1, false, true), LoopStep::Retry);
    assert_eq!(after_poll(-1, false, false), LoopStep::Stop);
    assert_eq!(after_poll(0, true, false), LoopStep::Retry);
    assert_eq!(after_poll(1, false, false), LoopStep::Retry);
    assert_eq!(after_poll(1, true, false), LoopStep::Dequeue);
    assert_eq!(after_failed_dequeue(true), LoopStep::Retry);
    assert_eq!(after_failed_dequeue(false), LoopStep::Stop);
    assert_eq!(captured_len(0, 4, 100, 4096), Some(100));
    assert_eq!(captured_len(3, 4, 9000, 4096), Some(4096));
    assert_eq!(captured_len(4, 4, 100, 4096), None);
}

#[test]
fn captured_frames_are_bgra_and_timestamped() {
    let g = negotiated_stream(2, 1, 4, V4L2_PIX_FMT_YUYV).unwrap();
    let f = capture_frame(&g, &[126, 128, 126, 128], 3, 250).unwrap();
    assert_eq!(f.width, 2);
    assert_eq!(f.height, 1);
    assert_eq!(f.pixel_format, PixelFormat::Bgra8888);
    assert_eq!(f.timestamp_us, 3_000_250);
    assert_eq!(f.data, vec![128, 128, 128, 255, 128, 128, 128, 255]);
    assert!(capture_frame(&g, &[], 0, 0).is_none());
}

#[test]
fn conversion_goes_through_the_format_converter() {
    let yuyv = [16u8, 128, 235, 128, 81, 90, 81, 240];
    assert_eq!(convert_to_bgra(V4L2_PIX_FMT_YUYV, &yuyv, 2, 2, 4), Some(yuv422_to_bgra(&yuyv, 2, 2, 4, false)));
    assert_eq!(convert_to_bgra(V4L2_PIX_FMT_UYVY, &yuyv, 2, 2, 4), Some(yuv422_to_bgra(&yuyv, 2, 2, 4, true)));
    let rgb = [1u8, 2, 3, 4, 5, 6];
    assert_eq!(convert_to_bgra(V4L2_PIX_FMT_RGB24, &rgb, 1, 2, 3), Some(rgb24_to_bgra(&rgb, 1, 2, 3, false)));
    assert_eq!(convert_to_bgra(V4L2_PIX_FMT_BGR24, &rgb, 1, 2, 3), Some(rgb24_to_bgra(&rgb, 1, 2, 3, true)));
}
