//! The resampling steps of the multi-scale saliency map: halving a greyscale
//! image by 2×2 averaging, and nearest-neighbour upsampling back to full size.

use vstd::prelude::*;

verus! {

/// The side of the half-size image: `n / 2`, and at least 1.
pub open spec fn half_dim(n: int) -> int {
    if n / 2 >= 1 {
        n / 2
    } else {
        1
    }
}

/// The value of pixel `(x, y)` of the half-size image: the average (rounded
/// down) of the 2×2 block at `(2x, 2y)`, clamped to the image and leaving out
/// the block's pixels that fall outside it.
pub open spec fn downsampled_px(src: Seq<u8>, w: int, h: int, x: int, y: int) -> u8 {
    let sy = if 2 * y < h - 1 { 2 * y } else { h - 1 };
    let sx = if 2 * x < w - 1 { 2 * x } else { w - 1 };
    let right = sx + 1 < w;
    let below = sy + 1 < h;
    let sum = src[sy * w + sx] + (if right { src[sy * w + sx + 1] as int } else { 0 }) + (if below {
        src[(sy + 1) * w + sx] as int
    } else {
        0
    }) + (if right && below {
        src[(sy + 1) * w + sx + 1] as int
    } else {
        0
    });
    let cnt = 1 + (if right { 1int } else { 0 }) + (if below { 1int } else { 0 }) + (if right
        && below {
        1int
    } else {
        0
    });
    (sum / cnt) as u8
}

proof fn lemma_row_index(x: int, y: int, w: int, h: int)
    requires
        0 <= x < w,
        0 <= y < h,
    ensures
        0 <= y * w + x < w * h,
        y * w + x < h * w,
        (y + 1) * w == y * w + w,
        w * h == h * w,
{
    assert(w * h == h * w) by (nonlinear_arith);
    assert(0 <= y * w + x < w * h) by (nonlinear_arith)
        requires
            0 <= x < w,
            0 <= y < h,
    ;
    assert((y + 1) * w == y * w + w) by (nonlinear_arith);
}

/// Halve a greyscale `w × h` image by 2×2 averaging.
pub fn downsample2(src: &[u8], w: usize, h: usize) -> (dst: Vec<u8>)
    requires
        1 <= w,
        1 <= h,
        w * h <= src.len(),
    ensures
        dst@.len() == half_dim(w as int) * half_dim(h as int),
        forall|x: int, y: int|
            0 <= x < half_dim(w as int) && 0 <= y < half_dim(h as int) ==> #[trigger] dst@[y
                * half_dim(w as int) + x] == downsampled_px(src@, w as int, h as int, x, y),
{
    let nw = if w / 2 >= 1 { w / 2 } else { 1 };
    let nh = if h / 2 >= 1 { h / 2 } else { 1 };
    let ghost sl = src@;
    assert(nw * nh <= w * h) by (nonlinear_arith)
        requires
            1 <= nw <= w,
            1 <= nh <= h,
    ;
    let mut dst: Vec<u8> = Vec::new();
    let mut y: usize = 0;
    while y < nh
        invariant
            sl == src@,
            1 <= w,
            1 <= h,
            w * h <= src.len(),
            nw == half_dim(w as int),
            nh == half_dim(h as int),
            nw * nh <= w * h,
            y <= nh,
            dst@.len() == y * nw,
            forall|xx: int, yy: int|
                0 <= xx < nw && 0 <= yy < y ==> #[trigger] dst@[yy * nw + xx] == downsampled_px(
                    sl,
                    w as int,
                    h as int,
                    xx,
                    yy,
                ),
        decreases nh - y,
    {
        let mut x: usize = 0;
        proof {
            lemma_row_index(0, y as int, nw as int, nh as int);
        }
        while x < nw
            invariant
                sl == src@,
                1 <= w,
                1 <= h,
                w * h <= src.len(),
                nw == half_dim(w as int),
                nh == half_dim(h as int),
                nw * nh <= w * h,
                y < nh,
                x <= nw,
                dst@.len() == y * nw + x,
                forall|xx: int, yy: int|
                    0 <= xx < nw && 0 <= yy < y ==> #[trigger] dst@[yy * nw + xx]
                        == downsampled_px(sl, w as int, h as int, xx, yy),
                forall|xx: int| 0 <= xx < x ==> #[trigger] dst@[y * nw + xx] == downsampled_px(
                    sl,
                    w as int,
                    h as int,
                    xx,
                    y as int,
                ),
            decreases nw - x,
        {
            let sy = if y * 2 < h - 1 { y * 2 } else { h - 1 };
            let sx = if x * 2 < w - 1 { x * 2 } else { w - 1 };
            proof {
                lemma_row_index(sx as int, sy as int, w as int, h as int);
                if sy + 1 < h {
                    lemma_row_index(sx as int, sy + 1, w as int, h as int);
                }
                if sx + 1 < w {
                    lemma_row_index(sx + 1, sy as int, w as int, h as int);
                }
                if sx + 1 < w && sy + 1 < h {
                    lemma_row_index(sx + 1, sy + 1, w as int, h as int);
                }
                lemma_row_index(x as int, y as int, nw as int, nh as int);
            }
            let mut sum: u32 = src[sy * w + sx] as u32;
            let mut cnt: u32 = 1;
            if sx + 1 < w {
                sum = sum + src[sy * w + sx + 1] as u32;
                cnt = cnt + 1;
            }
            if sy + 1 < h {
                sum = sum + src[(sy + 1) * w + sx] as u32;
                cnt = cnt + 1;
            }
            if sx + 1 < w && sy + 1 < h {
                sum = sum + src[(sy + 1) * w + sx + 1] as u32;
                cnt = cnt + 1;
            }
            let v = (sum / cnt) as u8;
            assert(v == downsampled_px(sl, w as int, h as int, x as int, y as int));
            let ghost before = dst@;
            dst.push(v);
            proof {
                assert forall|xx: int, yy: int|
                    0 <= xx < nw && 0 <= yy < y implies #[trigger] dst@[yy * nw + xx]
                    == downsampled_px(sl, w as int, h as int, xx, yy) by {
                    lemma_row_index(xx, yy, nw as int, y as int);
                    assert(dst@[yy * nw + xx] == before[yy * nw + xx]);
                }
                assert forall|xx: int| 0 <= xx < x + 1 implies #[trigger] dst@[y * nw + xx]
                    == downsampled_px(sl, w as int, h as int, xx, y as int) by {
                    if xx < x {
                        assert(dst@[y * nw + xx] == before[y * nw + xx]);
                    }
                }
            }
            x = x + 1;
        }
        proof {
            assert((y + 1) * nw == y * nw + nw) by (nonlinear_arith);
            assert forall|xx: int, yy: int|
                0 <= xx < nw && 0 <= yy < y + 1 implies #[trigger] dst@[yy * nw + xx]
                == downsampled_px(sl, w as int, h as int, xx, yy) by {
                if yy == y {
                    assert(dst@[y * nw + xx] == downsampled_px(sl, w as int, h as int, xx, y as int));
                }
            }
        }
        y = y + 1;
    }
    assert(nh * nw == nw * nh) by (nonlinear_arith);
    dst
}

/// The source index that destination `(x, y)` takes in nearest-neighbour
/// upsampling from `sw × sh` to `dw × dh`.
pub open spec fn up_src(x: int, y: int, sw: int, sh: int, dw: int, dh: int) -> int {
    (y * sh / dh) * sw + x * sw / dw
}

/// Nearest-neighbour upsampling of a row-major `sw × sh` grid to `dw × dh`:
/// destination `(x, y)` takes source `(x * sw / dw, y * sh / dh)`. An empty
/// destination needs nothing of the source.
pub fn upsample2<T: Copy>(src: &[T], sw: usize, sh: usize, dw: usize, dh: usize) -> (dst: Vec<T>)
    requires
        1 <= dw && 1 <= dh ==> 1 <= sw && 1 <= sh && sw * sh <= src.len(),
        dw * sw <= usize::MAX,
        dh * sh <= usize::MAX,
        dw * dh <= usize::MAX,
    ensures
        dst@.len() == dw * dh,
        forall|x: int, y: int|
            0 <= x < dw && 0 <= y < dh ==> #[trigger] dst@[y * dw + x] == src@[up_src(x, y, sw as int, sh as int, dw as int, dh as int)],
{
    let mut dst: Vec<T> = Vec::new();
    if dw == 0 || dh == 0 {
        assert(dw * dh == 0);
        return dst;
    }
    let mut y: usize = 0;
    while y < dh
        invariant
            1 <= sw,
            1 <= sh,
            sw * sh <= src.len(),
            dw * sw <= usize::MAX,
            dh * sh <= usize::MAX,
            dw * dh <= usize::MAX,
            y <= dh,
            dst@.len() == y * dw,
            forall|xx: int, yy: int|
                0 <= xx < dw && 0 <= yy < y ==> #[trigger] dst@[yy * dw + xx] == src@[up_src(xx, yy, sw as int, sh as int, dw as int, dh as int)],
        decreases dh - y,
    {
        let mut x: usize = 0;
        proof {
            assert(y * sh <= dh * sh) by (nonlinear_arith)
                requires
                    y < dh,
            ;
            assert(y * sh / (dh as int) < sh) by (nonlinear_arith)
                requires
                    y < dh,
                    1 <= sh,
            ;
        }
        let sy = (y * sh) / dh;
        let sy = if sy < sh - 1 { sy } else { sh - 1 };
        assert(sy == y * sh / (dh as int));
        while x < dw
            invariant
                1 <= sw,
                1 <= sh,
                sw * sh <= src.len(),
                dw * sw <= usize::MAX,
                dh * sh <= usize::MAX,
                dw * dh <= usize::MAX,
                y < dh,
                sy == y * sh / (dh as int),
                sy < sh,
                x <= dw,
                dst@.len() == y * dw + x,
                forall|xx: int, yy: int|
                    0 <= xx < dw && 0 <= yy < y ==> #[trigger] dst@[yy * dw + xx] == src@[up_src(xx, yy, sw as int, sh as int, dw as int, dh as int)],
                forall|xx: int|
                    0 <= xx < x ==> #[trigger] dst@[y * dw + xx] == src@[sy * sw + xx * sw / (dw as int)],
            decreases dw - x,
        {
            proof {
                assert(x * sw <= dw * sw) by (nonlinear_arith)
                    requires
                        x < dw,
                ;
                assert(x * sw / (dw as int) < sw) by (nonlinear_arith)
                    requires
                        x < dw,
                        1 <= sw,
                ;
            }
            let sx = (x * sw) / dw;
            let sx = if sx < sw - 1 { sx } else { sw - 1 };
            assert(sx == x * sw / (dw as int));
            proof {
                lemma_row_index(sx as int, sy as int, sw as int, sh as int);
                lemma_row_index(x as int, y as int, dw as int, dh as int);
            }
            let ghost before = dst@;
            dst.push(src[sy * sw + sx]);
            proof {
                assert forall|xx: int, yy: int|
                    0 <= xx < dw && 0 <= yy < y implies #[trigger] dst@[yy * dw + xx] == src@[up_src(xx, yy, sw as int, sh as int, dw as int, dh as int)] by {
                    lemma_row_index(xx, yy, dw as int, y as int);
                    assert(dst@[yy * dw + xx] == before[yy * dw + xx]);
                }
                assert forall|xx: int| 0 <= xx < x + 1 implies #[trigger] dst@[y * dw + xx]
                    == src@[sy * sw + xx * sw / (dw as int)] by {
                    if xx < x {
                        assert(dst@[y * dw + xx] == before[y * dw + xx]);
                    }
                }
            }
            x = x + 1;
        }
        proof {
            assert((y + 1) * dw == y * dw + dw) by (nonlinear_arith);
        }
        y = y + 1;
    }
    assert(dh * dw == dw * dh) by (nonlinear_arith);
    dst
}

} // verus!
