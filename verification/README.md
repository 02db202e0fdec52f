# camera_control

Cross-platform camera capture behind a small C interface, with its logic
verified by Verus.

- `src/` is the verified library:
  - `device` — device and format descriptors and their JSON document, with
    proofs that the JSON string escaping decodes back to its input and that
    the document holds no control character where no frame-rate text does;
  - `device_parse` — a reader for the device-list document and the proof
    that it recovers every field of every device;
  - `pixels` — YUYV/UYVY, RGB24/BGR24, 32-bit RGB, and YUV 4:2:0 to BGRA
    conversions, specified byte by byte;
  - `v4l2` — ioctl request codes, fourcc codes, node ordering, the format,
    frame-size and frame-rate scans, stream negotiation and the capture
    loop's decisions;
  - `media_foundation`, `avfoundation`, `android` — what each platform
    backend decides and computes, as plain values;
  - `session` — the handle table behind the C interface, starting, stopping
    and closing sessions, and frame delivery;
  - `text` — decimal text, UTF-8 decoding and integer parsing;
  - `dart_cli`, `rust_math`, `rust_strings` — the small sample libraries of
    the build tooling's example apps.
- `app/` is ordinary Rust around it: the exported C functions, the platform
  I/O (V4L2 ioctls, Media Foundation, AVFoundation, Camera2 NDK, OpenCV) and
  floating-point helpers.
- `tests/` exercises the library on concrete values.
