use camera_control::pixels::{clamp_u8, pack_bgra_rows, rgb24_to_bgra, rgb32_to_bgra, yuv420_to_bgra, yuv422_to_bgra};

#[test]
fn clamps_into_a_byte() {
    assert_eq!(clamp_u8(-5), 0);
    assert_eq!(clamp_u8(0), 0);
    assert_eq!(clamp_u8(200), 200);
    assert_eq!(clamp_u8(255), 255);
    assert_eq!(clamp_u8(256), 255);
}

#[test]
fn yuv_extremes_convert_exactly() {
    // Studio-swing black and white, neutral chroma.
    assert_eq!(yuv422_to_bgra(&[16, 128, 235, 128], 2, 1, 4, false), vec![0, 0, 0, 255, 255, 255, 255, 255]);
    // Saturated chroma: pure-ish red and blue clamp at the byte range.
    assert_eq!(yuv422_to_bgra(&[81, 90, 81, 240], 2, 1, 4, false), vec![0, 0, 255, 255, 0, 0, 255, 255]);
    assert_eq!(yuv422_to_bgra(&[41, 240, 41, 110], 2, 1, 4, false), vec![255, 0, 0, 255, 255, 0, 0, 255]);
}

#[test]
fn uyvy_reads_the_other_byte_order() {
    let yuyv = yuv422_to_bgra(&[16, 128, 235, 128], 2, 1, 4, false);
    let uyvy = yuv422_to_bgra(&[128, 16, 128, 235], 2, 1, 4, true);
    assert_eq!(yuyv, uyvy);
}

#[test]
fn short_rows_and_odd_columns_stay_zero() {
    // Width 3: the third column has no partner and stays zero; the second
    // row is not covered by the source and stays zero.
    let src = [235u8, 128, 235, 128, 99, 99, 99, 99];
    let out = yuv422_to_bgra(&src, 3, 2, 8, false);
    assert_eq!(out.len(), 3 * 2 * 4);
    assert_eq!(&out[0..8], &[255, 255, 255, 255, 255, 255, 255, 255]);
    assert_eq!(&out[8..12], &[0, 0, 0, 0]);
    assert!(out[12..].iter().all(|&b| b == 0));
}

#[test]
fn rgb24_honors_the_stride() {
    // Two rows of one pixel, rows 4 bytes apart (one padding byte).
    let src = [10u8, 20, 30, 0, 40, 50, 60, 0];
    assert_eq!(rgb24_to_bgra(&src, 1, 2, 4, false), vec![30, 20, 10, 255, 60, 50, 40, 255]);
    assert_eq!(rgb24_to_bgra(&src, 1, 2, 4, true), vec![10, 20, 30, 255, 40, 50, 60, 255]);
    // A source too short for the second row leaves it zero.
    assert_eq!(rgb24_to_bgra(&src[..5], 1, 2, 4, false), vec![30, 20, 10, 255, 0, 0, 0, 0]);
}

#[test]
fn rgb32_flips_bottom_up_rows_and_forces_alpha() {
    let src = [1u8, 2, 3, 0, 4, 5, 6, 0];
    assert_eq!(rgb32_to_bgra(Some(&src), 8, 1, 2, 4), vec![1, 2, 3, 255, 4, 5, 6, 255]);
    assert_eq!(rgb32_to_bgra(Some(&src), 8, 1, 2, -4), vec![4, 5, 6, 255, 1, 2, 3, 255]);
    // Too little frame data, or no buffer: opaque black.
    assert_eq!(rgb32_to_bgra(Some(&src), 7, 1, 2, 4), vec![0, 0, 0, 255, 0, 0, 0, 255]);
    assert_eq!(rgb32_to_bgra(None, 0, 1, 1, 4), vec![0, 0, 0, 255]);
}

#[test]
fn packed_rows_drop_padding() {
    let src = [1u8, 2, 3, 4, 9, 9, 5, 6, 7, 8];
    assert_eq!(pack_bgra_rows(&src, 1, 2, 6), vec![1, 2, 3, 4, 5, 6, 7, 8]);
    assert_eq!(pack_bgra_rows(&src, 0, 2, 6), Vec::<u8>::new());
}

#[test]
fn yuv420_subsamples_chroma() {
    // 2x2 image, one chroma sample for the whole block.
    let y = [16u8, 235, 235, 16];
    let u = [128u8];
    let v = [128u8];
    let out = yuv420_to_bgra(&y, 2, 1, &u, &v, 1, 1, 2, 2);
    assert_eq!(out, vec![0, 0, 0, 255, 255, 255, 255, 255, 255, 255, 255, 255, 0, 0, 0, 255]);
}

#[test]
fn uyvy_equals_yuyv_with_byte_pairs_swapped() {
    let uyvy = [90u8, 81, 240, 81, 128, 200, 128, 30];
    let swapped: Vec<u8> = uyvy.chunks(2).flat_map(|p| [p[1], p[0]]).collect();
    assert_eq!(yuv422_to_bgra(&uyvy, 4, 1, 8, true), yuv422_to_bgra(&swapped, 4, 1, 8, false));
}

#[test]
fn rows_need_only_their_packed_width() {
    // A 24-bit row of one pixel takes three bytes; a stride of three is enough.
    assert_eq!(rgb24_to_bgra(&[1, 2, 3, 4, 5, 6], 1, 2, 3, false), vec![3, 2, 1, 255, 6, 5, 4, 255]);
}
