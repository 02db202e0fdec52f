//! Pixel-format conversions into tightly packed, top-down BGRA.
//!
//! Every converter produces `width * height` pixels of four bytes each, in
//! row-major order, blue first and alpha last. Pixels that the source buffer
//! does not cover are left zero, as the capture backends deliver them.

use vstd::prelude::*;

verus! {

/// The value `v` clamped into the byte range `0..=255`.
pub open spec fn clamp_byte(v: int) -> u8 {
    if v < 0 {
        0
    } else if v > 255 {
        255
    } else {
        v as u8
    }
}

/// Byte `k` (0 blue, 1 green, 2 red, 3 alpha) of pixel (`r`, `c`) in a
/// packed BGRA image `width` pixels wide.
pub open spec fn pixel_byte(out: Seq<u8>, width: int, r: int, c: int, k: int) -> u8 {
    out[(r * width + c) * 4 + k]
}

/// `out` is the packed BGRA image `width` by `height` whose byte `k` of
/// pixel (`r`, `c`) is `byte(r, c, k)`.
pub open spec fn is_bgra_image(out: Seq<u8>, width: int, height: int, byte: spec_fn(int, int, int) -> u8) -> bool {
    &&& out.len() == width * height * 4
    &&& forall|r: int, c: int, k: int|
        0 <= r < height && 0 <= c < width && 0 <= k < 4 ==> #[trigger] pixel_byte(out, width, r, c, k) == byte(r, c, k)
}

/// An image is determined by its pixels: two images of one size that agree
/// at every byte of every pixel are the same bytes.
pub proof fn bgra_image_is_unique(
    a: Seq<u8>,
    b: Seq<u8>,
    width: int,
    height: int,
    byte: spec_fn(int, int, int) -> u8,
)
    requires
        width >= 0,
        height >= 0,
        is_bgra_image(a, width, height, byte),
        is_bgra_image(b, width, height, byte),
    ensures
        a == b,
{
    assert forall|i: int| 0 <= i < a.len() implies a[i] == b[i] by {
        let q = i / 4;
        let k = i % 4;
        assert(i == q * 4 + k);
        assert(width > 0 && 0 <= q < width * height) by (nonlinear_arith)
            requires
                0 <= i < width * height * 4,
                q == i / 4,
                width >= 0,
                height >= 0,
        ;
        let r = q / width;
        let c = q % width;
        assert(q == r * width + c && 0 <= c < width && 0 <= r < height) by (nonlinear_arith)
            requires
                0 <= q < width * height,
                width > 0,
                r == q / width,
                c == q % width,
        ;
        assert(pixel_byte(a, width, r, c, k) == byte(r, c, k));
        assert(pixel_byte(b, width, r, c, k) == byte(r, c, k));
    }
    assert(a =~= b);
}

/// Red channel of the BT.601 studio-swing YUV -> RGB conversion.
pub open spec fn yuv_red(y: u8, u: u8, v: u8) -> u8 {
    clamp_byte((298 * (y - 16) + 409 * (v - 128) + 128) / 256)
}

/// Green channel of the BT.601 studio-swing YUV -> RGB conversion.
pub open spec fn yuv_green(y: u8, u: u8, v: u8) -> u8 {
    clamp_byte((298 * (y - 16) - 100 * (u - 128) - 208 * (v - 128) + 128) / 256)
}

/// Blue channel of the BT.601 studio-swing YUV -> RGB conversion.
pub open spec fn yuv_blue(y: u8, u: u8, v: u8) -> u8 {
    clamp_byte((298 * (y - 16) + 516 * (u - 128) + 128) / 256)
}

/// Byte `k` of the opaque BGRA pixel for one YUV sample.
pub open spec fn yuv_bgra(y: u8, u: u8, v: u8, k: int) -> u8 {
    if k == 0 {
        yuv_blue(y, u, v)
    } else if k == 1 {
        yuv_green(y, u, v)
    } else if k == 2 {
        yuv_red(y, u, v)
    } else {
        255
    }
}

/// Neutral chroma (U = V = 128) converts to an opaque gray: blue, green
/// and red are equal, and black and white of the studio range map to the
/// ends of the byte range.
pub proof fn neutral_chroma_is_gray(y: u8)
    ensures
        yuv_bgra(y, 128, 128, 0) == yuv_bgra(y, 128, 128, 1),
        yuv_bgra(y, 128, 128, 1) == yuv_bgra(y, 128, 128, 2),
        yuv_bgra(y, 128, 128, 3) == 255,
        y <= 16 ==> yuv_bgra(y, 128, 128, 0) == 0,
        y >= 235 ==> yuv_bgra(y, 128, 128, 0) == 255,
{
}

/// Clamp an intermediate color value into a byte.
pub fn clamp_u8(v: i32) -> (r: u8)
    ensures
        r == clamp_byte(v as int),
{
    if v < 0 {
        0
    } else if v > 255 {
        255
    } else {
        v as u8
    }
}

proof fn lemma_shr8_is_floor_div(x: i32)
    ensures
        (x >> 8u32) as int == (x as int) / 256,
{
    assert((x >> 8u32) as int == (x as int) / 256) by (bit_vector);
}

/// Pixel (`r`, `c`) comes before pixel (`row`, `col`) in row-major order.
proof fn lemma_earlier_pixel(w: int, r: int, c: int, row: int, col: int)
    requires
        0 <= c < w,
        0 <= r,
        0 <= col,
        r < row || (r == row && c < col),
    ensures
        r * w + c < row * w + col,
{
    if r < row {
        assert(r * w + w <= row * w) by (nonlinear_arith)
            requires
                r < row,
                0 < w,
        ;
    }
}

/// Append the opaque BGRA pixel for one YUV sample.
fn write_yuv_pixel(out: &mut Vec<u8>, y: u8, u: u8, v: u8)
    ensures
        final(out)@ == old(out)@ + seq![
            yuv_bgra(y, u, v, 0),
            yuv_bgra(y, u, v, 1),
            yuv_bgra(y, u, v, 2),
            yuv_bgra(y, u, v, 3),
        ],
{
    let c = y as i32 - 16;
    let d = u as i32 - 128;
    let e = v as i32 - 128;
    let rn = 298 * c + 409 * e + 128;
    let gn = 298 * c - 100 * d - 208 * e + 128;
    let bn = 298 * c + 516 * d + 128;
    let r = rn >> 8;
    let g = gn >> 8;
    let b = bn >> 8;
    proof {
        lemma_shr8_is_floor_div(rn);
        lemma_shr8_is_floor_div(gn);
        lemma_shr8_is_floor_div(bn);
    }
    out.push(clamp_u8(b));
    out.push(clamp_u8(g));
    out.push(clamp_u8(r));
    out.push(255);
}

/// Append `count` fully zero pixels.
fn push_blank_pixels(out: &mut Vec<u8>, count: usize)
    requires
        old(out)@.len() + 4 * count <= usize::MAX,
    ensures
        final(out)@.len() == old(out)@.len() + 4 * count,
        forall|i: int| 0 <= i < old(out)@.len() ==> #[trigger] final(out)@[i] == old(out)@[i],
        forall|i: int| old(out)@.len() <= i < final(out)@.len() ==> #[trigger] final(out)@[i] == 0,
{
    let ghost start = out@;
    let mut n: usize = 0;
    while n < count
        invariant
            n <= count,
            out@.len() == start.len() + 4 * n,
            start.len() + 4 * count <= usize::MAX,
            forall|i: int| 0 <= i < start.len() ==> #[trigger] out@[i] == start[i],
            forall|i: int| start.len() <= i < out@.len() ==> #[trigger] out@[i] == 0,
        decreases count - n,
    {
        out.push(0);
        out.push(0);
        out.push(0);
        out.push(0);
        n += 1;
    }
}

/// `height` rows of `row_bytes` bytes each, `stride` bytes apart, can be
/// addressed with `usize` offsets: the end of the last row is in range.
pub open spec fn rows_addressable(height: int, stride: int, row_bytes: int) -> bool {
    height > 0 ==> (height - 1) * stride + row_bytes <= usize::MAX
}

/// Byte `k` of pixel (`r`, `c`) converted from packed YUV 4:2:2 (YUYV, or
/// UYVY when `uyvy`) whose rows are `stride` bytes apart. A row the source
/// does not fully cover, and the unpaired last column of an odd width, stay
/// zero.
pub open spec fn yuv422_byte(src: Seq<u8>, width: int, stride: int, uyvy: bool, r: int, c: int, k: int) -> u8 {
    let i = r * stride + (c / 2) * 4;
    if r * stride + width * 2 <= src.len() && c < (width / 2) * 2 {
        let y0 = if uyvy { src[i + 1] } else { src[i] };
        let u = if uyvy { src[i] } else { src[i + 1] };
        let y1 = if uyvy { src[i + 3] } else { src[i + 2] };
        let v = if uyvy { src[i + 2] } else { src[i + 3] };
        yuv_bgra(if c % 2 == 0 { y0 } else { y1 }, u, v, k)
    } else {
        0
    }
}

/// `s` with the bytes of each pair (0 and 1, 2 and 3, ...) swapped; an odd
/// last byte stays where it is.
pub open spec fn swap_byte_pairs(s: Seq<u8>) -> Seq<u8> {
    Seq::new(
        s.len(),
        |i: int|
            if i % 2 == 0 {
                if i + 1 < s.len() {
                    s[i + 1]
                } else {
                    s[i]
                }
            } else {
                s[i - 1]
            },
    )
}

/// UYVY is YUYV with the bytes of each pair swapped: with rows an even
/// number of bytes apart, converting a buffer as UYVY gives exactly what
/// converting it with each byte pair swapped as YUYV gives.
pub proof fn uyvy_is_swapped_yuyv(src: Seq<u8>, width: int, stride: int, r: int, c: int, k: int)
    requires
        stride >= 0,
        stride % 2 == 0,
        0 <= r,
        0 <= c < width,
    ensures
        yuv422_byte(src, width, stride, true, r, c, k) == yuv422_byte(swap_byte_pairs(src), width, stride, false, r, c, k),
{
    let sw = swap_byte_pairs(src);
    let i = r * stride + (c / 2) * 4;
    if r * stride + width * 2 <= src.len() && c < (width / 2) * 2 {
        let half = stride / 2;
        let row_start = r * stride;
        assert(row_start == 2 * (r * half) && r * half >= 0) by (nonlinear_arith)
            requires
                stride == 2 * half,
                half >= 0,
                r >= 0,
                row_start == r * stride,
        ;
        let c2 = c / 2;
        assert(c2 * 4 + 4 <= width * 2);
        assert(i == 2 * (r * half + 2 * c2));
        assert(i % 2 == 0);
        assert(sw[i] == src[i + 1]);
        assert(sw[i + 1] == src[i]);
        assert(sw[i + 2] == src[i + 3]);
        assert(sw[i + 3] == src[i + 2]);
    }
}

/// Converting a buffer as UYVY gives the very image that converting it with
/// each byte pair swapped as YUYV gives, with rows an even number of bytes
/// apart: any image `yuv422_to_bgra` promises for the one equals any image
/// it promises for the other.
pub proof fn uyvy_conversion_is_swapped_yuyv_conversion(
    src: Seq<u8>,
    width: int,
    height: int,
    stride: int,
    as_uyvy: Seq<u8>,
    as_yuyv: Seq<u8>,
)
    requires
        width >= 0,
        height >= 0,
        stride >= 0,
        stride % 2 == 0,
        is_bgra_image(as_uyvy, width, height, |r: int, c: int, k: int| yuv422_byte(src, width, stride, true, r, c, k)),
        is_bgra_image(
            as_yuyv,
            width,
            height,
            |r: int, c: int, k: int| yuv422_byte(swap_byte_pairs(src), width, stride, false, r, c, k),
        ),
    ensures
        as_uyvy == as_yuyv,
{
    let byte = |r: int, c: int, k: int| yuv422_byte(src, width, stride, true, r, c, k);
    assert(is_bgra_image(as_yuyv, width, height, byte)) by {
        assert forall|r: int, c: int, k: int|
            0 <= r < height && 0 <= c < width && 0 <= k < 4 implies #[trigger] pixel_byte(as_yuyv, width, r, c, k)
                == byte(r, c, k) by {
            uyvy_is_swapped_yuyv(src, width, stride, r, c, k);
        }
    }
    bgra_image_is_unique(as_uyvy, as_yuyv, width, height, byte);
}

/// Packed YUV 4:2:2 (YUYV, or UYVY when `uyvy`) -> BGRA, two pixels per
/// four-byte macropixel.
pub fn yuv422_to_bgra(src: &[u8], width: u32, height: u32, stride: usize, uyvy: bool) -> (out: Vec<u8>)
    requires
        (width as int) * (height as int) * 4 <= usize::MAX,
        rows_addressable(height as int, stride as int, (width as int) * 2),
    ensures
        out@.len() == (width as int) * (height as int) * 4,
        forall|r: int, c: int, k: int|
            0 <= r < height && 0 <= c < width && 0 <= k < 4 ==> #[trigger] pixel_byte(out@, width as int, r, c, k)
                == yuv422_byte(src@, width as int, stride as int, uyvy, r, c, k),
{
    let w = width as usize;
    let h = height as usize;
    let ghost wi = w as int;
    let mut out: Vec<u8> = Vec::new();
    let mut row: usize = 0;
    while row < h
        invariant
            w == width,
            h == height,
            wi == w as int,
            row <= h,
            wi * (h as int) * 4 <= usize::MAX,
            rows_addressable(h as int, stride as int, wi * 2),
            out@.len() == (row as int) * wi * 4,
            forall|r: int, c: int, k: int|
                0 <= r < row && 0 <= c < wi && 0 <= k < 4 ==> #[trigger] pixel_byte(out@, wi, r, c, k)
                    == yuv422_byte(src@, wi, stride as int, uyvy, r, c, k),
        decreases h - row,
    {
        proof {
            assert((row as int) * (stride as int) <= (h as int - 1) * (stride as int)) by (nonlinear_arith)
                requires
                    row < h,
            ;
            assert(wi * 4 <= wi * (h as int) * 4) by (nonlinear_arith)
                requires
                    row < h,
                    0 <= wi,
            ;
            assert((row as int) * wi * 4 + wi * 4 <= wi * (h as int) * 4) by (nonlinear_arith)
                requires
                    row < h,
                    0 <= wi,
            ;
        }
        let row_off = row * stride;
        let ghost base = out@;
        if row_off + w * 2 <= src.len() {
            let half = w / 2;
            let mut col2: usize = 0;
            while col2 < half
                invariant
                    w == width,
                    wi == w as int,
                    row < h,
                    half == w / 2,
                    half * 2 <= w,
                    w * 4 <= usize::MAX,
                    row_off + w * 2 <= usize::MAX,
                    col2 <= half,
                    row_off == (row as int) * (stride as int),
                    row_off + w * 2 <= src@.len(),
                    out@.len() == ((row as int) * wi + 2 * (col2 as int)) * 4,
                    forall|r: int, c: int, k: int|
                        0 <= c < wi && 0 <= k < 4 && (0 <= r < row || (r == row && c < 2 * col2))
                            ==> #[trigger] pixel_byte(out@, wi, r, c, k)
                            == yuv422_byte(src@, wi, stride as int, uyvy, r, c, k),
                decreases half - col2,
            {
                let i = row_off + col2 * 4;
                let (y0, u, y1, v) = if uyvy {
                    (src[i + 1], src[i], src[i + 3], src[i + 2])
                } else {
                    (src[i], src[i + 1], src[i + 2], src[i + 3])
                };
                let ghost before = out@;
                write_yuv_pixel(&mut out, y0, u, v);
                write_yuv_pixel(&mut out, y1, u, v);
                proof {
                    let col = 2 * (col2 as int);
                    assert forall|r: int, c: int, k: int|
                        0 <= c < wi && 0 <= k < 4 && (0 <= r < row || (r == row && c < col + 2))
                            implies #[trigger] pixel_byte(out@, wi, r, c, k)
                            == yuv422_byte(src@, wi, stride as int, uyvy, r, c, k) by {
                        if r < row || c < col {
                            lemma_earlier_pixel(wi, r, c, row as int, col);
                            assert(pixel_byte(out@, wi, r, c, k) == pixel_byte(before, wi, r, c, k));
                        } else {
                            assert(c / 2 == col2);
                        }
                    }
                }
                col2 += 1;
            }
            if w % 2 == 1 {
                let ghost before = out@;
                push_blank_pixels(&mut out, 1);
                proof {
                    assert forall|r: int, c: int, k: int|
                        0 <= c < wi && 0 <= k < 4 && 0 <= r < row + 1
                            implies #[trigger] pixel_byte(out@, wi, r, c, k)
                            == yuv422_byte(src@, wi, stride as int, uyvy, r, c, k) by {
                        if r < row || c < wi - 1 {
                            lemma_earlier_pixel(wi, r, c, row as int, wi - 1);
                            assert(pixel_byte(out@, wi, r, c, k) == pixel_byte(before, wi, r, c, k));
                        }
                    }
                }
            }
        } else {
            push_blank_pixels(&mut out, w);
            proof {
                assert forall|r: int, c: int, k: int|
                    0 <= c < wi && 0 <= k < 4 && 0 <= r < row + 1
                        implies #[trigger] pixel_byte(out@, wi, r, c, k)
                        == yuv422_byte(src@, wi, stride as int, uyvy, r, c, k) by {
                    if r < row {
                        lemma_earlier_pixel(wi, r, c, row as int, 0);
                        assert(pixel_byte(out@, wi, r, c, k) == pixel_byte(base, wi, r, c, k));
                    }
                }
            }
        }
        proof {
            assert(out@.len() == (row as int + 1) * wi * 4) by (nonlinear_arith)
                requires
                    out@.len() == (row as int) * wi * 4 + wi * 4,
            ;
        }
        row += 1;
    }
    proof {
        assert((h as int) * wi * 4 == (width as int) * (height as int) * 4) by (nonlinear_arith)
            requires
                h == height,
                wi == width,
        ;
    }
    out
}

/// Byte `k` of pixel (`r`, `c`) converted from packed 24-bit RGB (BGR when
/// `bgr`) whose rows are `stride` bytes apart. A row the source does not fully
/// cover stays zero.
pub open spec fn rgb24_byte(src: Seq<u8>, width: int, stride: int, bgr: bool, r: int, c: int, k: int) -> u8 {
    let i = r * stride + c * 3;
    if r * stride + width * 3 <= src.len() {
        let red = if bgr { src[i + 2] } else { src[i] };
        let blue = if bgr { src[i] } else { src[i + 2] };
        if k == 0 {
            blue
        } else if k == 1 {
            src[i + 1]
        } else if k == 2 {
            red
        } else {
            255
        }
    } else {
        0
    }
}

/// Packed 24-bit RGB (or BGR when `bgr`) -> BGRA.
pub fn rgb24_to_bgra(src: &[u8], width: u32, height: u32, stride: usize, bgr: bool) -> (out: Vec<u8>)
    requires
        (width as int) * (height as int) * 4 <= usize::MAX,
        rows_addressable(height as int, stride as int, (width as int) * 3),
    ensures
        out@.len() == (width as int) * (height as int) * 4,
        forall|r: int, c: int, k: int|
            0 <= r < height && 0 <= c < width && 0 <= k < 4 ==> #[trigger] pixel_byte(out@, width as int, r, c, k)
                == rgb24_byte(src@, width as int, stride as int, bgr, r, c, k),
{
    let w = width as usize;
    let h = height as usize;
    let ghost wi = w as int;
    let mut out: Vec<u8> = Vec::new();
    let mut row: usize = 0;
    while row < h
        invariant
            w == width,
            h == height,
            wi == w as int,
            row <= h,
            wi * (h as int) * 4 <= usize::MAX,
            rows_addressable(h as int, stride as int, wi * 3),
            out@.len() == (row as int) * wi * 4,
            forall|r: int, c: int, k: int|
                0 <= r < row && 0 <= c < wi && 0 <= k < 4 ==> #[trigger] pixel_byte(out@, wi, r, c, k)
                    == rgb24_byte(src@, wi, stride as int, bgr, r, c, k),
        decreases h - row,
    {
        proof {
            assert((row as int) * (stride as int) <= (h as int - 1) * (stride as int)) by (nonlinear_arith)
                requires
                    row < h,
            ;
            assert(wi * 4 <= wi * (h as int) * 4) by (nonlinear_arith)
                requires
                    row < h,
                    0 <= wi,
            ;
            assert((row as int) * wi * 4 + wi * 4 <= wi * (h as int) * 4) by (nonlinear_arith)
                requires
                    row < h,
                    0 <= wi,
            ;
        }
        let row_off = row * stride;
        let ghost base = out@;
        if row_off + w * 3 <= src.len() {
            let mut col: usize = 0;
            while col < w
                invariant
                    w == width,
                    wi == w as int,
                    row < h,
                    col <= w,
                    w * 4 <= usize::MAX,
                    row_off + w * 3 <= usize::MAX,
                    row_off == (row as int) * (stride as int),
                    row_off + w * 3 <= src@.len(),
                    out@.len() == ((row as int) * wi + (col as int)) * 4,
                    forall|r: int, c: int, k: int|
                        0 <= c < wi && 0 <= k < 4 && (0 <= r < row || (r == row && c < col))
                            ==> #[trigger] pixel_byte(out@, wi, r, c, k)
                            == rgb24_byte(src@, wi, stride as int, bgr, r, c, k),
                decreases w - col,
            {
                let i = row_off + col * 3;
                let (r, g, b) = if bgr {
                    (src[i + 2], src[i + 1], src[i])
                } else {
                    (src[i], src[i + 1], src[i + 2])
                };
                let ghost before = out@;
                out.push(b);
                out.push(g);
                out.push(r);
                out.push(255);
                proof {
                    assert forall|rr: int, c: int, k: int|
                        0 <= c < wi && 0 <= k < 4 && (0 <= rr < row || (rr == row && c < col + 1))
                            implies #[trigger] pixel_byte(out@, wi, rr, c, k)
                            == rgb24_byte(src@, wi, stride as int, bgr, rr, c, k) by {
                        if rr < row || c < col {
                            lemma_earlier_pixel(wi, rr, c, row as int, col as int);
                            assert(pixel_byte(out@, wi, rr, c, k) == pixel_byte(before, wi, rr, c, k));
                        }
                    }
                }
                col += 1;
            }
        } else {
            push_blank_pixels(&mut out, w);
            proof {
                assert forall|r: int, c: int, k: int|
                    0 <= c < wi && 0 <= k < 4 && 0 <= r < row + 1
                        implies #[trigger] pixel_byte(out@, wi, r, c, k)
                        == rgb24_byte(src@, wi, stride as int, bgr, r, c, k) by {
                    if r < row {
                        lemma_earlier_pixel(wi, r, c, row as int, 0);
                        assert(pixel_byte(out@, wi, r, c, k) == pixel_byte(base, wi, r, c, k));
                    }
                }
            }
        }
        proof {
            assert(out@.len() == (row as int + 1) * wi * 4) by (nonlinear_arith)
                requires
                    out@.len() == (row as int) * wi * 4 + wi * 4,
            ;
        }
        row += 1;
    }
    proof {
        assert((h as int) * wi * 4 == (width as int) * (height as int) * 4) by (nonlinear_arith)
            requires
                h == height,
                wi == width,
        ;
    }
    out
}

/// The distance in bytes between rows of a buffer whose signed stride is
/// `stride` (negative for bottom-up storage).
pub open spec fn stride_magnitude(stride: i32) -> int {
    if stride < 0 {
        -(stride as int)
    } else {
        stride as int
    }
}

/// The distance in bytes between rows of a buffer whose signed stride is
/// `stride`.
pub fn stride_magnitude_of(stride: i32) -> (m: usize)
    ensures
        m as int == stride_magnitude(stride),
{
    if stride < 0 {
        (-(stride as i64)) as usize
    } else {
        stride as usize
    }
}

/// Whether a locked RGB32 buffer holding `filled` bytes of frame data is
/// large enough to copy `height` rows from.
pub open spec fn rgb32_copyable(src: Option<Seq<u8>>, filled: int, height: int, stride: i32) -> bool {
    src is Some && filled >= stride_magnitude(stride) * height
}

/// Byte `k` of pixel (`r`, `c`) read out of a 32-bit RGB (BGRX) buffer with
/// signed row stride `stride`, flipped so the result is top-down, with the
/// padding byte forced to opaque. A missing or short buffer yields opaque
/// black.
pub open spec fn rgb32_byte(src: Option<Seq<u8>>, filled: int, height: int, stride: i32, r: int, c: int, k: int) -> u8 {
    let src_row = if stride < 0 { height - 1 - r } else { r };
    if k == 3 {
        255
    } else if rgb32_copyable(src, filled, height, stride) {
        src.unwrap()[src_row * stride_magnitude(stride) + c * 4 + k]
    } else {
        0
    }
}

/// Copy a BGRX buffer with a signed row stride into top-down BGRA, forcing
/// every pixel opaque. A negative stride means the rows are stored
/// bottom-up. `src` is the locked buffer (absent when locking gave no
/// memory) and `filled` the number of bytes of frame data it holds; rows
/// are copied only when `filled` covers every row.
pub fn rgb32_to_bgra(src: Option<&[u8]>, filled: usize, width: u32, height: u32, stride: i32) -> (out: Vec<u8>)
    requires
        (width as int) * (height as int) * 4 <= usize::MAX,
        rgb32_copyable(
            match src {
                Some(s) => Some(s@),
                None => None,
            },
            filled as int,
            height as int,
            stride,
        ) && height > 0 ==> (height - 1) * stride_magnitude(stride) + (width as int) * 4 <= src.unwrap()@.len(),
    ensures
        out@.len() == (width as int) * (height as int) * 4,
        forall|r: int, c: int, k: int|
            0 <= r < height && 0 <= c < width && 0 <= k < 4 ==> #[trigger] pixel_byte(out@, width as int, r, c, k)
                == rgb32_byte(
                match src {
                    Some(s) => Some(s@),
                    None => None,
                },
                filled as int,
                height as int,
                stride,
                r,
                c,
                k,
            ),
{
    let ghost srcv: Option<Seq<u8>> = match src {
        Some(s) => Some(s@),
        None => None,
    };
    let w = width as usize;
    let h = height as usize;
    let ghost wi = w as int;
    let src_stride = stride_magnitude_of(stride);
    let bottom_up = stride < 0;
    let copy = match src {
        Some(_) => match src_stride.checked_mul(h) {
            Some(needed) => needed <= filled,
            None => false,
        },
        None => false,
    };
    proof {
        assert((src_stride as int) * (h as int) == stride_magnitude(stride) * (height as int)) by (nonlinear_arith)
            requires
                src_stride == stride_magnitude(stride),
                h == height,
        ;
    }
    let mut out: Vec<u8> = Vec::new();
    let mut row: usize = 0;
    while row < h
        invariant
            w == width,
            h == height,
            wi == w as int,
            row <= h,
            src_stride == stride_magnitude(stride),
            bottom_up == (stride < 0),
            copy == rgb32_copyable(srcv, filled as int, h as int, stride),
            srcv == match src {
                Some(s) => Some(s@),
                None => None::<Seq<u8>>,
            },
            copy && h > 0 ==> (h - 1) * (src_stride as int) + wi * 4 <= src.unwrap()@.len(),
            wi * (h as int) * 4 <= usize::MAX,
            out@.len() == (row as int) * wi * 4,
            forall|r: int, c: int, k: int|
                0 <= r < row && 0 <= c < wi && 0 <= k < 4 ==> #[trigger] pixel_byte(out@, wi, r, c, k)
                    == rgb32_byte(srcv, filled as int, h as int, stride, r, c, k),
        decreases h - row,
    {
        proof {
            assert((row as int) * wi * 4 + wi * 4 <= wi * (h as int) * 4) by (nonlinear_arith)
                requires
                    row < h,
                    0 <= wi,
            ;
        }
        let ghost base = out@;
        if copy {
            let s = src.unwrap();
            let slen = s.len();
            let src_row = if bottom_up { h - 1 - row } else { row };
            proof {
                assert((src_row as int) * (src_stride as int) <= ((h - 1) as int) * (src_stride as int)) by (nonlinear_arith)
                    requires
                        src_row <= h - 1,
            ;
            }
            let row_start = src_row * src_stride;
            let mut col: usize = 0;
            while col < w
                invariant
                    w == width,
                    wi == w as int,
                    row < h,
                    col <= w,
                    s@ == srcv.unwrap(),
                    copy == rgb32_copyable(srcv, filled as int, h as int, stride),
                    copy,
                    src_row == (if stride < 0 { h - 1 - row } else { row as int }),
                    src_stride == stride_magnitude(stride),
                    row_start == (src_row as int) * (src_stride as int),
                    row_start + wi * 4 <= s@.len(),
                    s@.len() <= usize::MAX,
                    out@.len() == ((row as int) * wi + (col as int)) * 4,
                    forall|r: int, c: int, k: int|
                        0 <= c < wi && 0 <= k < 4 && (0 <= r < row || (r == row && c < col))
                            ==> #[trigger] pixel_byte(out@, wi, r, c, k)
                            == rgb32_byte(srcv, filled as int, h as int, stride, r, c, k),
                decreases w - col,
            {
                let i = row_start + col * 4;
                let ghost before = out@;
                out.push(s[i]);
                out.push(s[i + 1]);
                out.push(s[i + 2]);
                out.push(255);
                proof {
                    assert forall|rr: int, c: int, k: int|
                        0 <= c < wi && 0 <= k < 4 && (0 <= rr < row || (rr == row && c < col + 1))
                            implies #[trigger] pixel_byte(out@, wi, rr, c, k)
                            == rgb32_byte(srcv, filled as int, h as int, stride, rr, c, k) by {
                        if rr < row || c < col {
                            lemma_earlier_pixel(wi, rr, c, row as int, col as int);
                            assert(pixel_byte(out@, wi, rr, c, k) == pixel_byte(before, wi, rr, c, k));
                        }
                    }
                }
                col += 1;
            }
        } else {
            let mut col: usize = 0;
            while col < w
                invariant
                    w == width,
                    wi == w as int,
                    row < h,
                    col <= w,
                    !copy,
                    copy == rgb32_copyable(srcv, filled as int, h as int, stride),
                    out@.len() == ((row as int) * wi + (col as int)) * 4,
                    (row as int) * wi * 4 + wi * 4 <= usize::MAX,
                    forall|r: int, c: int, k: int|
                        0 <= c < wi && 0 <= k < 4 && (0 <= r < row || (r == row && c < col))
                            ==> #[trigger] pixel_byte(out@, wi, r, c, k)
                            == rgb32_byte(srcv, filled as int, h as int, stride, r, c, k),
                decreases w - col,
            {
                let ghost before = out@;
                out.push(0);
                out.push(0);
                out.push(0);
                out.push(255);
                proof {
                    assert forall|rr: int, c: int, k: int|
                        0 <= c < wi && 0 <= k < 4 && (0 <= rr < row || (rr == row && c < col + 1))
                            implies #[trigger] pixel_byte(out@, wi, rr, c, k)
                            == rgb32_byte(srcv, filled as int, h as int, stride, rr, c, k) by {
                        if rr < row || c < col {
                            lemma_earlier_pixel(wi, rr, c, row as int, col as int);
                            assert(pixel_byte(out@, wi, rr, c, k) == pixel_byte(before, wi, rr, c, k));
                        }
                    }
                }
                col += 1;
            }
        }
        proof {
            assert(out@.len() == (row as int + 1) * wi * 4) by (nonlinear_arith)
                requires
                    out@.len() == (row as int) * wi * 4 + wi * 4,
            ;
        }
        row += 1;
    }
    proof {
        assert((h as int) * wi * 4 == (width as int) * (height as int) * 4) by (nonlinear_arith)
            requires
                h == height,
                wi == width,
        ;
    }
    out
}

/// Copy `height` rows of `width` BGRA pixels out of a buffer whose rows are
/// `bytes_per_row` bytes apart (the row padding is dropped).
pub fn pack_bgra_rows(src: &[u8], width: usize, height: usize, bytes_per_row: usize) -> (out: Vec<u8>)
    requires
        (width as int) * (height as int) * 4 <= usize::MAX,
        height > 0 ==> (height - 1) * (bytes_per_row as int) + (width as int) * 4 <= src@.len(),
    ensures
        out@.len() == (width as int) * (height as int) * 4,
        forall|r: int, c: int, k: int|
            0 <= r < height && 0 <= c < width && 0 <= k < 4 ==> #[trigger] pixel_byte(out@, width as int, r, c, k)
                == src@[r * bytes_per_row + c * 4 + k],
{
    let ghost wi = width as int;
    let slen = src.len();
    let mut out: Vec<u8> = Vec::new();
    let mut row: usize = 0;
    while row < height
        invariant
            wi == width as int,
            row <= height,
            slen == src@.len(),
            wi * (height as int) * 4 <= usize::MAX,
            height > 0 ==> (height - 1) * (bytes_per_row as int) + wi * 4 <= src@.len(),
            out@.len() == (row as int) * wi * 4,
            forall|r: int, c: int, k: int|
                0 <= r < row && 0 <= c < wi && 0 <= k < 4 ==> #[trigger] pixel_byte(out@, wi, r, c, k)
                    == src@[r * bytes_per_row + c * 4 + k],
        decreases height - row,
    {
        proof {
            assert((row as int) * wi * 4 + wi * 4 <= wi * (height as int) * 4) by (nonlinear_arith)
                requires
                    row < height,
                    0 <= wi,
            ;
            assert((row as int) * (bytes_per_row as int) <= (height - 1) * (bytes_per_row as int)) by (nonlinear_arith)
                requires
                    row < height,
            ;
        }
        let row_start = row * bytes_per_row;
        let mut col: usize = 0;
        while col < width
            invariant
                wi == width as int,
                row < height,
                col <= width,
                slen == src@.len(),
                row_start == (row as int) * (bytes_per_row as int),
                row_start + wi * 4 <= src@.len(),
                out@.len() == ((row as int) * wi + (col as int)) * 4,
                forall|r: int, c: int, k: int|
                    0 <= c < wi && 0 <= k < 4 && (0 <= r < row || (r == row && c < col))
                        ==> #[trigger] pixel_byte(out@, wi, r, c, k) == src@[r * bytes_per_row + c * 4 + k],
            decreases width - col,
        {
            let i = row_start + col * 4;
            let ghost before = out@;
            out.push(src[i]);
            out.push(src[i + 1]);
            out.push(src[i + 2]);
            out.push(src[i + 3]);
            proof {
                assert forall|rr: int, c: int, k: int|
                    0 <= c < wi && 0 <= k < 4 && (0 <= rr < row || (rr == row && c < col + 1))
                        implies #[trigger] pixel_byte(out@, wi, rr, c, k) == src@[rr * bytes_per_row + c * 4 + k] by {
                    if rr < row || c < col {
                        lemma_earlier_pixel(wi, rr, c, row as int, col as int);
                        assert(pixel_byte(out@, wi, rr, c, k) == pixel_byte(before, wi, rr, c, k));
                    }
                }
            }
            col += 1;
        }
        proof {
            assert(out@.len() == (row as int + 1) * wi * 4) by (nonlinear_arith)
                requires
                    out@.len() == (row as int) * wi * 4 + wi * 4,
            ;
        }
        row += 1;
    }
    proof {
        assert((height as int) * wi * 4 == wi * (height as int) * 4) by (nonlinear_arith);
    }
    out
}

/// Byte `k` of pixel (`r`, `c`) converted from a three-plane YUV 4:2:0
/// image: luma sampled at every pixel, the two chroma planes (which share
/// their strides) at every other row and column.
pub open spec fn yuv420_byte(
    y: Seq<u8>,
    y_row_stride: int,
    y_pixel_stride: int,
    u: Seq<u8>,
    v: Seq<u8>,
    uv_row_stride: int,
    uv_pixel_stride: int,
    r: int,
    c: int,
    k: int,
) -> u8 {
    let yi = r * y_row_stride + c * y_pixel_stride;
    let uvi = (r / 2) * uv_row_stride + (c / 2) * uv_pixel_stride;
    yuv_bgra(y[yi], u[uvi], v[uvi], k)
}

/// Three-plane YUV 4:2:0 (the Camera2 YUV_420_888 layout) -> BGRA.
pub fn yuv420_to_bgra(
    y: &[u8],
    y_row_stride: usize,
    y_pixel_stride: usize,
    u: &[u8],
    v: &[u8],
    uv_row_stride: usize,
    uv_pixel_stride: usize,
    width: usize,
    height: usize,
) -> (out: Vec<u8>)
    requires
        (width as int) * (height as int) * 4 <= usize::MAX,
        width > 0 && height > 0 ==> (height - 1) * (y_row_stride as int) + (width - 1) * (y_pixel_stride as int) < y@.len(),
        width > 0 && height > 0 ==> ((height - 1) / 2) * (uv_row_stride as int) + ((width - 1) / 2) * (uv_pixel_stride as int) < u@.len(),
        width > 0 && height > 0 ==> ((height - 1) / 2) * (uv_row_stride as int) + ((width - 1) / 2) * (uv_pixel_stride as int) < v@.len(),
    ensures
        out@.len() == (width as int) * (height as int) * 4,
        forall|r: int, c: int, k: int|
            0 <= r < height && 0 <= c < width && 0 <= k < 4 ==> #[trigger] pixel_byte(out@, width as int, r, c, k)
                == yuv420_byte(
                y@,
                y_row_stride as int,
                y_pixel_stride as int,
                u@,
                v@,
                uv_row_stride as int,
                uv_pixel_stride as int,
                r,
                c,
                k,
            ),
{
    let ghost wi = width as int;
    let ylen = y.len();
    let ulen = u.len();
    let vlen = v.len();
    let mut out: Vec<u8> = Vec::new();
    let mut row: usize = 0;
    while row < height
        invariant
            wi == width as int,
            row <= height,
            ylen == y@.len(),
            ulen == u@.len(),
            vlen == v@.len(),
            wi * (height as int) * 4 <= usize::MAX,
            width > 0 && height > 0 ==> (height - 1) * (y_row_stride as int) + (width - 1) * (y_pixel_stride as int) < y@.len(),
            width > 0 && height > 0 ==> ((height - 1) / 2) * (uv_row_stride as int) + ((width - 1) / 2) * (uv_pixel_stride as int) < u@.len(),
            width > 0 && height > 0 ==> ((height - 1) / 2) * (uv_row_stride as int) + ((width - 1) / 2) * (uv_pixel_stride as int) < v@.len(),
            out@.len() == (row as int) * wi * 4,
            forall|r: int, c: int, k: int|
                0 <= r < row && 0 <= c < wi && 0 <= k < 4 ==> #[trigger] pixel_byte(out@, wi, r, c, k)
                    == yuv420_byte(y@, y_row_stride as int, y_pixel_stride as int, u@, v@, uv_row_stride as int, uv_pixel_stride as int, r, c, k),
        decreases height - row,
    {
        proof {
            assert((row as int) * wi * 4 + wi * 4 <= wi * (height as int) * 4) by (nonlinear_arith)
                requires
                    row < height,
                    0 <= wi,
            ;
        }
        let mut col: usize = 0;
        while col < width
            invariant
                wi == width as int,
                row < height,
                col <= width,
                ylen == y@.len(),
                ulen == u@.len(),
                vlen == v@.len(),
                width > 0 && height > 0 ==> (height - 1) * (y_row_stride as int) + (width - 1) * (y_pixel_stride as int) < y@.len(),
                width > 0 && height > 0 ==> ((height - 1) / 2) * (uv_row_stride as int) + ((width - 1) / 2) * (uv_pixel_stride as int) < u@.len(),
                width > 0 && height > 0 ==> ((height - 1) / 2) * (uv_row_stride as int) + ((width - 1) / 2) * (uv_pixel_stride as int) < v@.len(),
                out@.len() == ((row as int) * wi + (col as int)) * 4,
                forall|r: int, c: int, k: int|
                    0 <= c < wi && 0 <= k < 4 && (0 <= r < row || (r == row && c < col))
                        ==> #[trigger] pixel_byte(out@, wi, r, c, k)
                        == yuv420_byte(y@, y_row_stride as int, y_pixel_stride as int, u@, v@, uv_row_stride as int, uv_pixel_stride as int, r, c, k),
            decreases width - col,
        {
            proof {
                let hr = (height - 1) as int;
                let wc = (width - 1) as int;
                assert((row as int) * (y_row_stride as int) + (col as int) * (y_pixel_stride as int)
                    <= hr * (y_row_stride as int) + wc * (y_pixel_stride as int)) by (nonlinear_arith)
                    requires
                        row <= hr,
                        col <= wc,
                ;
                assert(((row / 2) as int) * (uv_row_stride as int) + ((col / 2) as int) * (uv_pixel_stride as int)
                    <= (hr / 2) * (uv_row_stride as int) + (wc / 2) * (uv_pixel_stride as int)) by (nonlinear_arith)
                    requires
                        row <= hr,
                        col <= wc,
                ;
            }
            let yi = row * y_row_stride + col * y_pixel_stride;
            let uvi = (row / 2) * uv_row_stride + (col / 2) * uv_pixel_stride;
            let ghost before = out@;
            write_yuv_pixel(&mut out, y[yi], u[uvi], v[uvi]);
            proof {
                assert forall|rr: int, c: int, k: int|
                    0 <= c < wi && 0 <= k < 4 && (0 <= rr < row || (rr == row && c < col + 1))
                        implies #[trigger] pixel_byte(out@, wi, rr, c, k)
                        == yuv420_byte(y@, y_row_stride as int, y_pixel_stride as int, u@, v@, uv_row_stride as int, uv_pixel_stride as int, rr, c, k) by {
                    if rr < row || c < col {
                        lemma_earlier_pixel(wi, rr, c, row as int, col as int);
                        assert(pixel_byte(out@, wi, rr, c, k) == pixel_byte(before, wi, rr, c, k));
                    }
                }
            }
            col += 1;
        }
        proof {
            assert(out@.len() == (row as int + 1) * wi * 4) by (nonlinear_arith)
                requires
                    out@.len() == (row as int) * wi * 4 + wi * 4,
            ;
        }
        row += 1;
    }
    proof {
        assert((height as int) * wi * 4 == wi * (height as int) * 4) by (nonlinear_arith);
    }
    out
}


/// `v` limited to the byte range `0..=255`.
pub open spec fn in_byte_range(v: int) -> int {
    if v < 0 {
        0
    } else if v > 255 {
        255
    } else {
        v
    }
}

/// The packed BGRA layout: pixel (`r`, `c`) of an image `width` pixels wide
/// is the four bytes from `4 * (r * width + c)`, blue, green, red, alpha.
pub proof fn bgra_layout(out: Seq<u8>, width: int, r: int, c: int, k: int)
    ensures
        pixel_byte(out, width, r, c, k) == out[4 * width * r + 4 * c + k],
{
    assert((r * width + c) * 4 + k == 4 * width * r + 4 * c + k) by (nonlinear_arith);
}

/// One YUV sample in BT.601 studio swing, as opaque BGRA: blue from luma
/// and U, green from luma, U and V, red from luma and V, each limited to
/// a byte, and alpha 255.
pub proof fn bt601_sample(y: u8, u: u8, v: u8)
    ensures
        yuv_bgra(y, u, v, 0) as int == in_byte_range((298 * (y as int - 16) + 516 * (u as int - 128) + 128) / 256),
        yuv_bgra(y, u, v, 1) as int == in_byte_range(
            (298 * (y as int - 16) - 100 * (u as int - 128) - 208 * (v as int - 128) + 128) / 256,
        ),
        yuv_bgra(y, u, v, 2) as int == in_byte_range((298 * (y as int - 16) + 409 * (v as int - 128) + 128) / 256),
        yuv_bgra(y, u, v, 3) == 255,
{
}

/// A pixel of a three-plane YUV 4:2:0 image converts from its luma sample
/// (row `r`, column `c` of the Y plane) and the chroma samples shared by
/// its 2x2 block (row `r / 2`, column `c / 2`): U from the U plane drives
/// blue, V from the V plane drives red.
pub proof fn yuv420_pixel(
    y: Seq<u8>,
    y_row_stride: int,
    y_pixel_stride: int,
    u: Seq<u8>,
    v: Seq<u8>,
    uv_row_stride: int,
    uv_pixel_stride: int,
    r: int,
    c: int,
)
    ensures
        ({
            let luma = y[r * y_row_stride + c * y_pixel_stride] as int - 16;
            let cb = u[(r / 2) * uv_row_stride + (c / 2) * uv_pixel_stride] as int - 128;
            let cr = v[(r / 2) * uv_row_stride + (c / 2) * uv_pixel_stride] as int - 128;
            &&& yuv420_byte(y, y_row_stride, y_pixel_stride, u, v, uv_row_stride, uv_pixel_stride, r, c, 0) as int
                == in_byte_range((298 * luma + 516 * cb + 128) / 256)
            &&& yuv420_byte(y, y_row_stride, y_pixel_stride, u, v, uv_row_stride, uv_pixel_stride, r, c, 1) as int
                == in_byte_range((298 * luma - 100 * cb - 208 * cr + 128) / 256)
            &&& yuv420_byte(y, y_row_stride, y_pixel_stride, u, v, uv_row_stride, uv_pixel_stride, r, c, 2) as int
                == in_byte_range((298 * luma + 409 * cr + 128) / 256)
            &&& yuv420_byte(y, y_row_stride, y_pixel_stride, u, v, uv_row_stride, uv_pixel_stride, r, c, 3) == 255
        }),
{
    let yi = r * y_row_stride + c * y_pixel_stride;
    let uvi = (r / 2) * uv_row_stride + (c / 2) * uv_pixel_stride;
    bt601_sample(y[yi], u[uvi], v[uvi]);
}

/// A pixel of packed YUV 4:2:2 converts from the four-byte macropixel that
/// starts at `r * stride + 4 * (c / 2)`: in YUYV order luma, U, luma, V, in
/// UYVY order U, luma, V, luma, the first luma for even columns and the
/// second for odd ones. A row the source does not cover up to `2 * width`
/// bytes, and the unpaired last column of an odd width, are zero.
pub proof fn yuv422_pixel(src: Seq<u8>, width: int, stride: int, uyvy: bool, r: int, c: int)
    requires
        0 <= c,
    ensures
        r * stride + 2 * width <= src.len() && c < width - width % 2 ==> ({
            let i = r * stride + 4 * (c / 2);
            let luma = src[i + (if uyvy { 1int } else { 0int }) + 2 * (c % 2)] as int - 16;
            let cb = src[i + (if uyvy { 0int } else { 1int })] as int - 128;
            let cr = src[i + (if uyvy { 2int } else { 3int })] as int - 128;
            &&& yuv422_byte(src, width, stride, uyvy, r, c, 0) as int == in_byte_range((298 * luma + 516 * cb + 128) / 256)
            &&& yuv422_byte(src, width, stride, uyvy, r, c, 1) as int == in_byte_range(
                (298 * luma - 100 * cb - 208 * cr + 128) / 256,
            )
            &&& yuv422_byte(src, width, stride, uyvy, r, c, 2) as int == in_byte_range((298 * luma + 409 * cr + 128) / 256)
            &&& yuv422_byte(src, width, stride, uyvy, r, c, 3) == 255
        }),
        !(r * stride + 2 * width <= src.len() && c < width - width % 2) ==> forall|k: int|
            #[trigger] yuv422_byte(src, width, stride, uyvy, r, c, k) == 0,
{
    let i = r * stride + (c / 2) * 4;
    assert(r * stride + 4 * (c / 2) == i);
    if r * stride + 2 * width <= src.len() && c < width - width % 2 {
        assert(c < (width / 2) * 2);
        let y0 = if uyvy { src[i + 1] } else { src[i] };
        let u = if uyvy { src[i] } else { src[i + 1] };
        let y1 = if uyvy { src[i + 3] } else { src[i + 2] };
        let v = if uyvy { src[i + 2] } else { src[i + 3] };
        bt601_sample(if c % 2 == 0 { y0 } else { y1 }, u, v);
    } else {
        assert(!(c < (width / 2) * 2) || !(r * stride + width * 2 <= src.len()));
    }
}

/// A pixel of packed 24-bit RGB converts from the three bytes at
/// `r * stride + 3 * c`: in RGB3 order red, green, blue, in BGR3 order
/// blue, green, red; alpha is 255. A row the source does not cover up to
/// `3 * width` bytes is zero.
pub proof fn rgb24_pixel(src: Seq<u8>, width: int, stride: int, bgr: bool, r: int, c: int)
    ensures
        r * stride + 3 * width <= src.len() ==> {
            let i = r * stride + 3 * c;
            &&& rgb24_byte(src, width, stride, bgr, r, c, 0) == if bgr { src[i] } else { src[i + 2] }
            &&& rgb24_byte(src, width, stride, bgr, r, c, 1) == src[i + 1]
            &&& rgb24_byte(src, width, stride, bgr, r, c, 2) == if bgr { src[i + 2] } else { src[i] }
            &&& rgb24_byte(src, width, stride, bgr, r, c, 3) == 255
        },
        !(r * stride + 3 * width <= src.len()) ==> forall|k: int| #[trigger] rgb24_byte(src, width, stride, bgr, r, c, k) == 0,
{
}

/// A pixel of a 32-bit RGB (BGRX) buffer converts from the four bytes at
/// `row * |stride| + 4 * c`, where `row` is `r` for a top-down buffer
/// (stride not negative) and `height - 1 - r` for a bottom-up one: blue,
/// green and red are copied and alpha is 255. A missing buffer, or one
/// holding fewer than `|stride| * height` bytes of frame data, gives
/// opaque black.
pub proof fn rgb32_pixel(src: Option<Seq<u8>>, filled: int, height: int, stride: i32, r: int, c: int)
    ensures
        ({
            let magnitude = if stride < 0 { -(stride as int) } else { stride as int };
            let row = if stride < 0 { height - 1 - r } else { r };
            let copied = src is Some && filled >= magnitude * height;
            &&& forall|k: int| 0 <= k < 3 && copied ==> #[trigger] rgb32_byte(src, filled, height, stride, r, c, k)
                == src.unwrap()[row * magnitude + 4 * c + k]
            &&& forall|k: int| 0 <= k < 3 && !copied ==> #[trigger] rgb32_byte(src, filled, height, stride, r, c, k) == 0
            &&& rgb32_byte(src, filled, height, stride, r, c, 3) == 255
        }),
{
}

} // verus!
