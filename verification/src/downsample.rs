use vstd::prelude::*;

use crate::buffer::RgbBuf;
use crate::trace::EdgePoint;

use image::imageops::FilterType;

verus! {

/// Images whose width or height reaches this many pixels are shrunk before
/// edge analysis.
pub const DOWNSAMPLE_THRESHOLD: u32 = 2000;

/// The length, in pixels, that the longer side of a shrunk image is given.
pub const DOWNSAMPLE_TARGET: u32 = 1920;

/// The width of the working image: the target for a landscape image, and
/// otherwise the width scaled by `target / height`, at least one pixel.
pub open spec fn spec_down_width(w: int, h: int, target: int) -> int {
    if w > h {
        target
    } else if w * target / h < 1 {
        1
    } else {
        w * target / h
    }
}

/// The height of the working image, scaled like the width.
pub open spec fn spec_down_height(w: int, h: int, target: int) -> int {
    if w > h {
        if h * target / w < 1 {
            1
        } else {
            h * target / w
        }
    } else {
        target
    }
}

/// The pixel data of a Lanczos-resampled RGB image. The result depends only
/// on the source pixels and the two sizes.
pub uninterp spec fn lanczos_rgb(data: Seq<u8>, w: int, h: int, nw: int, nh: int) -> Seq<u8>;

/// Relies on image's `imageops::resize` with the `Lanczos3` filter: the
/// result has exactly the requested dimensions, three bytes per pixel, and
/// is a function of the source pixels and the sizes alone.
#[verifier::external_body]
fn resize_rgb(img: &RgbBuf, nw: u32, nh: u32) -> (r: RgbBuf)
    requires
        img.wf(),
        img.width >= 1,
        img.height >= 1,
        1 <= nw,
        1 <= nh,
        3 * nw * nh <= usize::MAX,
    ensures
        r.wf(),
        r.width == nw,
        r.height == nh,
        r.data@ == lanczos_rgb(img.data@, img.width as int, img.height as int, nw as int, nh as int),
{
    let src: image::RgbImage = image::RgbImage::from_raw(
        img.width,
        img.height,
        img.data.clone(),
    ).unwrap();
    let out = image::imageops::resize(&src, nw, nh, FilterType::Lanczos3);
    RgbBuf { width: nw, height: nh, data: out.into_raw() }
}

/// The factors that map coordinates of the working image back to the
/// original image, one exact ratio per axis: `num` is the original side,
/// `den` the downsampled side.
#[derive(Clone, Copy, Debug, PartialEq, Eq, Structural)]
pub struct ScaleBack {
    pub num_x: u32,
    pub den_x: u32,
    pub num_y: u32,
    pub den_y: u32,
}

/// Shrinks an oversized image before analysis: an image whose width and
/// height both stay below `threshold` passes through unchanged, and any
/// other is resampled so that its longer side equals the fixed target,
/// preserving aspect ratio. Returns the working image and, when shrinking
/// happened, the per-axis scale-back factors.
pub fn downsample_if_needed(img: &RgbBuf, threshold: u32) -> (r: (RgbBuf, Option<ScaleBack>))
    requires
        img.wf(),
        img.width >= 1,
        img.height >= 1,
        threshold >= 1,
    ensures
        r.0.wf(),
        img.width < threshold && img.height < threshold ==> {
            &&& r.1 is None
            &&& r.0.width == img.width
            &&& r.0.height == img.height
            &&& r.0.data@ == img.data@
        },
        !(img.width < threshold && img.height < threshold) ==> {
            let nw = spec_down_width(img.width as int, img.height as int, DOWNSAMPLE_TARGET as int);
            let nh = spec_down_height(
                img.width as int,
                img.height as int,
                DOWNSAMPLE_TARGET as int,
            );
            &&& r.0.width == nw
            &&& r.0.height == nh
            &&& r.0.data@ == lanczos_rgb(img.data@, img.width as int, img.height as int, nw, nh)
            &&& r.1 == Some(
                ScaleBack {
                    num_x: img.width,
                    den_x: r.0.width,
                    num_y: img.height,
                    den_y: r.0.height,
                },
            )
            &&& 1 <= r.0.width <= DOWNSAMPLE_TARGET
            &&& 1 <= r.0.height <= DOWNSAMPLE_TARGET
        },
{
    let w = img.width;
    let h = img.height;
    if w < threshold && h < threshold {
        let copy = RgbBuf { width: w, height: h, data: img.data.clone() };
        return (copy, None);
    }
    let target = DOWNSAMPLE_TARGET;
    let nw: u32;
    let nh: u32;
    if w > h {
        nw = target;
        let scaled: u64 = (h as u64) * (target as u64) / (w as u64);
        nh = if scaled < 1 {
            1
        } else {
            scaled as u32
        };
        proof {
            assert((h as int) * (target as int) / (w as int) <= target) by (nonlinear_arith)
                requires
                    0 < h <= w,
                    0 < target,
            ;
        }
    } else {
        nh = target;
        let scaled: u64 = (w as u64) * (target as u64) / (h as u64);
        nw = if scaled < 1 {
            1
        } else {
            scaled as u32
        };
        proof {
            assert((w as int) * (target as int) / (h as int) <= target) by (nonlinear_arith)
                requires
                    0 < w <= h,
                    0 < target,
            ;
        }
    }
    let down = resize_rgb(img, nw, nh);
    let sb = ScaleBack { num_x: w, den_x: nw, num_y: h, den_y: nh };
    (down, Some(sb))
}

/// Division rounded to the nearest integer, halves away from zero.
pub open spec fn round_div(a: int, b: int) -> int {
    (a + b / 2) / b
}

/// One coordinate mapped back to original image space: the rounded product
/// with the exact ratio `num / den`, clamped into `[0, num)`.
pub open spec fn spec_scale_coord(v: u32, num: u32, den: u32) -> int {
    let scaled = round_div((v as int) * (num as int), den as int);
    if scaled > num - 1 {
        num - 1
    } else {
        scaled
    }
}

/// Maps one coordinate of the working image back to original image space.
fn scale_coord(v: u32, num: u32, den: u32) -> (r: u32)
    requires
        1 <= den,
        1 <= num,
    ensures
        r == spec_scale_coord(v, num, den),
        r < num,
{
    proof {
        assert((v as int) * (num as int) <= 0xffff_ffffu32 * 0xffff_ffffu32) by (nonlinear_arith)
            requires
                0 <= v <= 0xffff_ffffu32,
                0 <= num <= 0xffff_ffffu32,
        ;
    }
    let scaled: u64 = ((v as u64) * (num as u64) + (den as u64) / 2) / (den as u64);
    if scaled > (num - 1) as u64 {
        num - 1
    } else {
        scaled as u32
    }
}

/// Law: a coordinate equal to the downsampled side maps back exactly to the
/// original side — the scale-back ratio undoes the downsampling of lengths
/// without drift.
pub proof fn lemma_scale_back_round_trip(num: u32, den: u32)
    requires
        1 <= den,
    ensures
        round_div((den as int) * (num as int), den as int) == num,
{
    let d = den as int;
    let n = num as int;
    assert((d * n + d / 2) / d == n) by (nonlinear_arith)
        requires
            1 <= d,
            0 <= n,
    ;
}

/// Rescales every traced point back to original image space, rounding to
/// the nearest pixel and clamping to the image bounds; without scale-back
/// factors the points pass through unchanged.
pub fn scale_back_edges(edges: &mut Vec<Vec<EdgePoint>>, scale: Option<ScaleBack>)
    requires
        scale is Some ==> 1 <= scale->0.den_x && 1 <= scale->0.num_x && 1 <= scale->0.den_y && 1
            <= scale->0.num_y,
    ensures
        scale is None ==> final(edges)@ == old(edges)@,
        scale is Some ==> {
            let sb = scale->0;
            &&& final(edges)@.len() == old(edges)@.len()
            &&& forall|i: int|
                0 <= i < old(edges)@.len() ==> #[trigger] final(edges)@[i]@.len()
                    == old(edges)@[i]@.len()
            &&& forall|i: int, j: int|
                0 <= i < old(edges)@.len() && 0 <= j < old(edges)@[i]@.len() ==> {
                    &&& #[trigger] final(edges)@[i]@[j].x == spec_scale_coord(
                        old(edges)@[i]@[j].x,
                        sb.num_x,
                        sb.den_x,
                    )
                    &&& final(edges)@[i]@[j].y == spec_scale_coord(
                        old(edges)@[i]@[j].y,
                        sb.num_y,
                        sb.den_y,
                    )
                    &&& final(edges)@[i]@[j].x < sb.num_x
                    &&& final(edges)@[i]@[j].y < sb.num_y
                }
        },
{
    let sb = match scale {
        Some(sb) => sb,
        None => {
            return ;
        },
    };
    let n = edges.len();
    let mut i: usize = 0;
    while i < n
        invariant
            n == edges@.len(),
            edges@.len() == old(edges)@.len(),
            i <= n,
            1 <= sb.den_x && 1 <= sb.num_x && 1 <= sb.den_y && 1 <= sb.num_y,
            forall|k: int| i <= k < n ==> #[trigger] edges@[k]@ == old(edges)@[k]@,
            forall|k: int|
                0 <= k < i ==> #[trigger] edges@[k]@.len() == old(edges)@[k]@.len(),
            forall|k: int, j: int|
                0 <= k < i && 0 <= j < old(edges)@[k]@.len() ==> {
                    &&& #[trigger] edges@[k]@[j].x == spec_scale_coord(
                        old(edges)@[k]@[j].x,
                        sb.num_x,
                        sb.den_x,
                    )
                    &&& edges@[k]@[j].y == spec_scale_coord(
                        old(edges)@[k]@[j].y,
                        sb.num_y,
                        sb.den_y,
                    )
                    &&& edges@[k]@[j].x < sb.num_x
                    &&& edges@[k]@[j].y < sb.num_y
                },
        decreases n - i,
    {
        let m = edges[i].len();
        let mut scaled: Vec<EdgePoint> = Vec::new();
        let mut j: usize = 0;
        while j < m
            invariant
                n == edges@.len(),
                i < n,
                m == edges@[i as int]@.len(),
                edges@[i as int]@ == old(edges)@[i as int]@,
                j <= m,
                1 <= sb.den_x && 1 <= sb.num_x && 1 <= sb.den_y && 1 <= sb.num_y,
                scaled@.len() == j,
                forall|q: int|
                    0 <= q < j ==> {
                        &&& #[trigger] scaled@[q].x == spec_scale_coord(
                            edges@[i as int]@[q].x,
                            sb.num_x,
                            sb.den_x,
                        )
                        &&& scaled@[q].y == spec_scale_coord(
                            edges@[i as int]@[q].y,
                            sb.num_y,
                            sb.den_y,
                        )
                        &&& scaled@[q].x < sb.num_x
                        &&& scaled@[q].y < sb.num_y
                    },
            decreases m - j,
        {
            let p = edges[i][j];
            let nx = scale_coord(p.x, sb.num_x, sb.den_x);
            let ny = scale_coord(p.y, sb.num_y, sb.den_y);
            scaled.push(EdgePoint { x: nx, y: ny });
            j = j + 1;
        }
        edges.set(i, scaled);
        i = i + 1;
    }
}

} // verus!
