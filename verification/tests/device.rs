use camera_control::device::{devices_to_json, push_json_string, Device, Format, LensFacing, PixelFormat};

#[test]
fn encodes_empty() {
    assert_eq!(devices_to_json(&[]), "[]");
}

#[test]
fn encodes_a_device_with_a_format() {
    let devices = vec![Device {
        id: "cam0".into(),
        name: "Test \"Cam\"".into(),
        facing: "front".into(),
        formats: vec![Format {
            width: 1280,
            height: 720,
            pixel_format: PixelFormat::Bgra8888,
            frame_rate: format!("{}", 30.0f64),
        }],
    }];
    let json = devices_to_json(&devices);
    assert!(json.contains("\"id\":\"cam0\""));
    assert!(json.contains("\"name\":\"Test \\\"Cam\\\"\""));
    assert!(json.contains("\"facing\":\"front\""));
    assert!(json.contains("\"pixel_format\":\"bgra8888\""));
    assert!(json.contains("\"width\":1280"));
}

#[test]
fn encodes_the_exact_document() {
    let devices = vec![
        Device {
            id: "a".into(),
            name: "A".into(),
            facing: "back".into(),
            formats: vec![
                Format { width: -3, height: 0, pixel_format: PixelFormat::Yuyv422, frame_rate: "29.97".into() },
                Format { width: 640, height: 480, pixel_format: PixelFormat::Mjpeg, frame_rate: "0".into() },
            ],
        },
        Device { id: "b".into(), name: "B".into(), facing: "external".into(), formats: vec![] },
    ];
    assert_eq!(
        devices_to_json(&devices),
        "[{\"id\":\"a\",\"name\":\"A\",\"facing\":\"back\",\"formats\":[\
         {\"width\":-3,\"height\":0,\"pixel_format\":\"yuyv422\",\"frame_rate\":29.97},\
         {\"width\":640,\"height\":480,\"pixel_format\":\"mjpeg\",\"frame_rate\":0}]},\
         {\"id\":\"b\",\"name\":\"B\",\"facing\":\"external\",\"formats\":[]}]"
    );
}

#[test]
fn encodes_extreme_dimensions() {
    let devices = vec![Device {
        id: "x".into(),
        name: "x".into(),
        facing: "front".into(),
        formats: vec![Format {
            width: i32::MIN,
            height: i32::MAX,
            pixel_format: PixelFormat::Rgba8888,
            frame_rate: "1".into(),
        }],
    }];
    let json = devices_to_json(&devices);
    assert!(json.contains("\"width\":-2147483648,\"height\":2147483647"));
    assert!(json.contains("\"pixel_format\":\"rgba8888\""));
}

#[test]
fn escapes_every_special_character() {
    let mut out = String::from(">");
    push_json_string(&mut out, "q\"b\\n\nr\rt\tc\u{1}\u{1f}é/");
    assert_eq!(out, ">\"q\\\"b\\\\n\\nr\\rt\\tc\\u0001\\u001fé/\"");
}

#[test]
fn escaped_strings_decode_back() {
    // The encoder's output, read back by a JSON decoder, is the original text.
    let original = "line\nquote\" back\\slash \u{7} tab\t";
    let mut out = String::new();
    push_json_string(&mut out, original);
    let body = &out[1..out.len() - 1];
    let mut decoded = String::new();
    let mut chars = body.chars();
    while let Some(c) = chars.next() {
        if c != '\\' {
            decoded.push(c);
            continue;
        }
        match chars.next().unwrap() {
            '"' => decoded.push('"'),
            '\\' => decoded.push('\\'),
            'n' => decoded.push('\n'),
            'r' => decoded.push('\r'),
            't' => decoded.push('\t'),
            'u' => {
                let hex: String = (0..4).map(|_| chars.next().unwrap()).collect();
                decoded.push(char::from_u32(u32::from_str_radix(&hex, 16).unwrap()).unwrap());
            }
            other => panic!("unexpected escape {other}"),
        }
    }
    assert_eq!(decoded, original);
}

#[test]
fn pixel_format_names_and_codes() {
    assert_eq!(PixelFormat::Rgba8888.as_str(), "rgba8888");
    assert_eq!(PixelFormat::Bgra8888.as_str(), "bgra8888");
    assert_eq!(PixelFormat::Yuyv422.as_str(), "yuyv422");
    assert_eq!(PixelFormat::Mjpeg.as_str(), "mjpeg");
    assert_eq!(PixelFormat::Rgba8888.wire_code(), 0);
    assert_eq!(PixelFormat::Bgra8888.wire_code(), 1);
    assert_eq!(PixelFormat::Yuyv422.wire_code(), 2);
    assert_eq!(PixelFormat::Mjpeg.wire_code(), 3);
}

#[test]
fn lens_facing_names() {
    assert_eq!(LensFacing::Front.as_str(), "front");
    assert_eq!(LensFacing::Back.as_str(), "back");
    assert_eq!(LensFacing::External.as_str(), "external");
}

#[test]
fn the_document_holds_no_control_characters() {
    let devices = vec![Device {
        id: "a\u{0}b".into(),
        name: "tab\there\nnewline".into(),
        facing: "\u{1f}".into(),
        formats: vec![Format { width: -1, height: 2, pixel_format: PixelFormat::Mjpeg, frame_rate: "29.97".into() }],
    }];
    let json = devices_to_json(&devices);
    assert!(json.chars().all(|c| c as u32 >= 0x20));
    assert!(json.contains("\"id\":\"a\\u0000b\""));
    assert!(json.contains("\"facing\":\"\\u001f\""));
}
