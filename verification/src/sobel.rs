use vstd::prelude::*;

use crate::buffer::GrayBuf;
use crate::buffer::lemma_pixel_index_bound;
use crate::buffer::pixel_index;
use crate::cancel::CancelFlag;
use crate::error::AnalysisError;

use rayon::iter::IntoParallelIterator;
use rayon::iter::ParallelIterator;

verus! {

/// `r` is the integer square root of `n`: the largest integer whose square
/// does not exceed `n`.
pub open spec fn is_isqrt(n: int, r: int) -> bool {
    0 <= r && r * r <= n && n < (r + 1) * (r + 1)
}

/// The integer square root, as a function.
pub open spec fn spec_isqrt(n: nat) -> nat
    decreases n,
{
    if n == 0 {
        0
    } else {
        let p = spec_isqrt((n - 1) as nat);
        if (p + 1) * (p + 1) <= n {
            p + 1
        } else {
            p
        }
    }
}

pub proof fn lemma_isqrt_bracket(n: nat)
    ensures
        is_isqrt(n as int, spec_isqrt(n) as int),
    decreases n,
{
    if n != 0 {
        lemma_isqrt_bracket((n - 1) as nat);
        let p = spec_isqrt((n - 1) as nat);
        if (p + 1) * (p + 1) <= n {
            assert((p + 1 + 1) * (p + 1 + 1) > n) by (nonlinear_arith)
                requires
                    0 <= p,
                    n - 1 < (p + 1) * (p + 1),
            ;
        }
    }
}

pub proof fn lemma_isqrt_unique(n: int, r: int)
    requires
        is_isqrt(n, r),
        0 <= n,
    ensures
        r == spec_isqrt(n as nat),
{
    lemma_isqrt_bracket(n as nat);
    let s = spec_isqrt(n as nat) as int;
    assert(r == s) by (nonlinear_arith)
        requires
            0 <= r && r * r <= n && n < (r + 1) * (r + 1),
            0 <= s && s * s <= n && n < (s + 1) * (s + 1),
    ;
}

/// Computes the integer square root by binary search.
pub fn isqrt_u32(n: u32) -> (r: u32)
    ensures
        r == spec_isqrt(n as nat),
        is_isqrt(n as int, r as int),
{
    let mut lo: u32 = 0;
    let mut hi: u32 = 65536;
    assert(n < 65536u32 * 65536u32) by (nonlinear_arith)
        requires
            n <= u32::MAX,
    ;
    while lo + 1 < hi
        invariant
            lo < hi <= 65536,
            lo * lo <= n,
            n < hi * hi,
        decreases hi - lo,
    {
        let mid: u32 = lo + (hi - lo) / 2;
        assert((mid as int) * (mid as int) <= 65536 * 65536) by (nonlinear_arith)
            requires
                0 <= mid <= 65536,
        ;
        let sq: u64 = (mid as u64) * (mid as u64);
        if sq <= n as u64 {
            lo = mid;
        } else {
            hi = mid;
        }
    }
    proof {
        lemma_isqrt_unique(n as int, lo as int);
    }
    lo
}

/// Horizontal Sobel response at an interior pixel: the 3x3 kernel
/// `[[-1, 0, 1], [-2, 0, 2], [-1, 0, 1]]` applied around `(x, y)`.
pub open spec fn spec_sobel_gx(img: GrayBuf, x: int, y: int) -> int {
    img.spec_at(x + 1, y - 1) - img.spec_at(x - 1, y - 1) + 2 * img.spec_at(x + 1, y) - 2
        * img.spec_at(x - 1, y) + img.spec_at(x + 1, y + 1) - img.spec_at(x - 1, y + 1)
}

/// Vertical Sobel response at an interior pixel: the 3x3 kernel
/// `[[-1, -2, -1], [0, 0, 0], [1, 2, 1]]` applied around `(x, y)`.
pub open spec fn spec_sobel_gy(img: GrayBuf, x: int, y: int) -> int {
    img.spec_at(x - 1, y + 1) + 2 * img.spec_at(x, y + 1) + img.spec_at(x + 1, y + 1)
        - img.spec_at(x - 1, y - 1) - 2 * img.spec_at(x, y - 1) - img.spec_at(x + 1, y - 1)
}

/// Gradient magnitude at `(x, y)`: zero on the image border, and otherwise
/// the integer square root of `gx^2 + gy^2`, saturated at 255.
pub open spec fn spec_sobel_mag(img: GrayBuf, x: int, y: int) -> u8 {
    if 1 <= x < img.width - 1 && 1 <= y < img.height - 1 {
        let m = spec_isqrt((spec_sobel_gx(img, x, y) * spec_sobel_gx(img, x, y) + spec_sobel_gy(
            img,
            x,
            y,
        ) * spec_sobel_gy(img, x, y)) as nat);
        if m > 255 {
            255u8
        } else {
            m as u8
        }
    } else {
        0u8
    }
}

/// How many interior (non-border) rows an image of height `h` has.
pub open spec fn interior_rows(h: int) -> int {
    if h >= 2 {
        h - 2
    } else {
        0
    }
}

/// One interior row of the gradient-magnitude map, with zeros in the first
/// and last column.
pub open spec fn spec_sobel_row(img: GrayBuf, y: int) -> Seq<u8> {
    Seq::new(img.width as nat, |x: int| spec_sobel_mag(img, x, y))
}

/// The whole gradient-magnitude map, in row-major order.
pub open spec fn spec_sobel_map(img: GrayBuf) -> Seq<u8> {
    Seq::new(
        (img.width * img.height) as nat,
        |i: int| spec_sobel_mag(img, i % (img.width as int), i / (img.width as int)),
    )
}

/// Computes one interior row of the gradient-magnitude map, first honouring
/// the cancellation flag as the parallel workers do.
pub fn sobel_row_checked(img: &GrayBuf, y: u32, flag: &CancelFlag) -> (r: Result<
    Vec<u8>,
    AnalysisError,
>)
    requires
        img.wf(),
        img.width >= 1,
        1 <= y,
        y + 1 < img.height,
    ensures
        flag.cancelled ==> r == Result::<Vec<u8>, AnalysisError>::Err(AnalysisError::Cancelled),
        !flag.cancelled ==> r is Ok && r->Ok_0@ == spec_sobel_row(*img, y as int),
{
    if flag.is_set() {
        return Err(AnalysisError::Cancelled);
    }
    let w = img.width;
    let mut row: Vec<u8> = Vec::new();
    row.push(0);
    let mut x: u32 = 1;
    while x < w - 1
        invariant
            img.wf(),
            1 <= y,
            y + 1 < img.height,
            w == img.width >= 1,
            1 <= x <= w,
            w >= 2 ==> x <= w - 1,
            w == 1 ==> x == 1,
            row@.len() == x,
            forall|j: int| 0 <= j < x ==> row@[j] == spec_sobel_mag(*img, j, y as int),
        decreases w - x,
    {
        let a = img.at(x - 1, y - 1) as i32;
        let b = img.at(x, y - 1) as i32;
        let c = img.at(x + 1, y - 1) as i32;
        let d = img.at(x - 1, y) as i32;
        let f = img.at(x + 1, y) as i32;
        let g = img.at(x - 1, y + 1) as i32;
        let h = img.at(x, y + 1) as i32;
        let i = img.at(x + 1, y + 1) as i32;
        let gx: i32 = c - a + 2 * f - 2 * d + i - g;
        let gy: i32 = g + 2 * h + i - a - 2 * b - c;
        assert(0 <= gx * gx <= 1040400 && 0 <= gy * gy <= 1040400) by (nonlinear_arith)
            requires
                -1020 <= gx <= 1020,
                -1020 <= gy <= 1020,
        ;
        let mag_sq: i32 = gx * gx + gy * gy;
        let m = isqrt_u32(mag_sq as u32);
        let v: u8 = if m > 255 {
            255
        } else {
            m as u8
        };
        row.push(v);
        x = x + 1;
    }
    if w > 1 {
        row.push(0);
    }
    proof {
        assert(row@ =~= spec_sobel_row(*img, y as int));
    }
    Ok(row)
}

/// Relies on rayon: mapping an indexed range in parallel and collecting into
/// `Result` yields exactly the per-index results in index order when all of
/// them are `Ok`, and otherwise one of the produced errors. Here every
/// per-row result is determined by the flag alone, so the collected outcome
/// is fully determined too.
#[verifier::external_body]
fn par_sobel_rows(img: &GrayBuf, flag: &CancelFlag) -> (r: Result<Vec<Vec<u8>>, AnalysisError>)
    requires
        img.wf(),
        img.width >= 1,
        img.height >= 1,
    ensures
        r is Err ==> flag.cancelled && img.height > 2 && r->Err_0 == AnalysisError::Cancelled,
        r is Ok ==> !(flag.cancelled && img.height > 2),
        r is Ok ==> r->Ok_0@.len() == interior_rows(img.height as int) && (forall|i: int|
            0 <= i < r->Ok_0@.len() ==> r->Ok_0@[i]@ == spec_sobel_row(*img, i + 1)),
{
    (1..img.height.saturating_sub(1)).into_par_iter().map(
        |y| sobel_row_checked(img, y, flag),
    ).collect()
}

/// Applies the 3x3 Sobel operator to a grayscale image, row-parallel and
/// cooperatively cancellable.
///
/// Border pixels are left at magnitude zero; every interior pixel holds
/// `min(255, isqrt(gx^2 + gy^2))`. A pre-set flag yields `Cancelled` instead
/// of a partial map whenever there is at least one interior row.
pub fn apply_sobel_filter(img: &GrayBuf, flag: &CancelFlag) -> (r: Result<GrayBuf, AnalysisError>)
    requires
        img.wf(),
        img.height >= 1,
        img.width >= 1,
    ensures
        flag.cancelled && img.height > 2 ==> r == Result::<GrayBuf, AnalysisError>::Err(
            AnalysisError::Cancelled,
        ),
        !(flag.cancelled && img.height > 2) ==> r is Ok && {
            let out = r->Ok_0;
            &&& out.wf()
            &&& out.width == img.width
            &&& out.height == img.height
            &&& out.data@ == spec_sobel_map(*img)
        },
{
    let w = img.width;
    let h = img.height;
    let rows = match par_sobel_rows(img, flag) {
        Ok(rows) => rows,
        Err(e) => {
            return Err(e);
        },
    };
    proof {
        assert(img.data.len() == img.data@.len());
    }
    let total: usize = (w as usize) * (h as usize);
    let mut data: Vec<u8> = Vec::new();
    while data.len() < total
        invariant
            total == (w as int) * (h as int),
            data@.len() <= total,
            forall|k: int| 0 <= k < data@.len() ==> data@[k] == 0u8,
        decreases total - data@.len(),
    {
        data.push(0);
    }
    let mut y: u32 = 1;
    while y < h - 1
        invariant
            img.wf(),
            w == img.width >= 1,
            h == img.height >= 1,
            1 <= y,
            h > 2 ==> y <= h - 1,
            rows@.len() == interior_rows(h as int),
            forall|i: int| 0 <= i < rows@.len() ==> rows@[i]@ == spec_sobel_row(*img, i + 1),
            data@.len() == (w as int) * (h as int),
            forall|k: int|
                0 <= k < data@.len() ==> data@[k] == (if k / (w as int) < y && 1 <= k / (
                w as int
                ) {
                    spec_sobel_mag(*img, k % (w as int), k / (w as int))
                } else {
                    0u8
                }),
        decreases h - y,
    {
        let row = &rows[(y - 1) as usize];
        proof {
            assert(rows@[y - 1]@ == spec_sobel_row(*img, y as int));
        }
        let mut x: u32 = 0;
        while x < w
            invariant
                img.wf(),
                w == img.width >= 1,
                h == img.height >= 1,
                1 <= y,
                y + 1 < h,
                x <= w,
                row@ == spec_sobel_row(*img, y as int),
                data@.len() == (w as int) * (h as int),
                forall|k: int|
                    0 <= k < data@.len() ==> data@[k] == (if k / (w as int) < y && 1 <= k / (
                    w as int
                    ) || (k / (w as int) == y && k % (w as int) < x) {
                        spec_sobel_mag(*img, k % (w as int), k / (w as int))
                    } else {
                        0u8
                    }),
            decreases w - x,
        {
            proof {
                lemma_pixel_index_bound(x as int, y as int, w as int, h as int);
                assert(pixel_index(x as int, y as int, w as int) % (w as int) == x as int
                    && pixel_index(x as int, y as int, w as int) / (w as int) == y as int)
                    by (nonlinear_arith)
                    requires
                        0 <= x < w,
                        0 <= y,
                        pixel_index(x as int, y as int, w as int) == (y as int) * (w as int) + (
                        x as int
                        ),
                ;
            }
            proof {
                assert(data.len() == data@.len());
            }
            let idx: usize = (y as usize) * (w as usize) + (x as usize);
            let ghost pre = data@;
            data.set(idx, row[x as usize]);
            proof {
                let wi = w as int;
                assert(data@ == pre.update(idx as int, row@[x as int]));
                assert forall|k: int|
                    0 <= k < data@.len() implies data@[k] == (if k / wi < y && 1 <= k / wi || (k
                    / wi == y && k % wi < x + 1) {
                    spec_sobel_mag(*img, k % wi, k / wi)
                } else {
                    0u8
                }) by {
                    if k == idx as int {
                        assert(k % wi == x as int && k / wi == y as int);
                        assert(data@[k] == row@[x as int]);
                        assert(row@[x as int] == spec_sobel_mag(*img, x as int, y as int));
                    } else {
                        assert(data@[k] == pre[k]);
                        if k / wi == y as int && k % wi == x as int {
                            vstd::arithmetic::div_mod::lemma_fundamental_div_mod(k, wi);
                            assert(k == idx as int);
                        }
                    }
                }
            }
            x = x + 1;
        }
        y = y + 1;
    }
    proof {
        assert(forall|k: int|
            0 <= k < data@.len() ==> data@[k] == (if 1 <= k / (w as int) < h - 1 {
                spec_sobel_mag(*img, k % (w as int), k / (w as int))
            } else {
                0u8
            }));
        lemma_sobel_fill_complete(*img, data@, h as int, w as int);
        assert(data@ =~= spec_sobel_map(*img));
    }
    Ok(GrayBuf::new(w, h, data))
}

/// After the fill loop every cell agrees with the Sobel map: rows written by
/// the loop carry the computed magnitudes, and the rows it never visits are
/// border rows whose magnitude is zero by definition.
proof fn lemma_sobel_fill_complete(img: GrayBuf, data: Seq<u8>, h: int, w: int)
    requires
        img.wf(),
        w == img.width >= 1,
        h == img.height >= 1,
        data.len() == w * h,
        forall|k: int|
            0 <= k < data.len() ==> data[k] == (if 1 <= k / w < h - 1 {
                spec_sobel_mag(img, k % w, k / w)
            } else {
                0u8
            }),
    ensures
        forall|k: int| 0 <= k < data.len() ==> data[k] == spec_sobel_map(img)[k],
{
    assert forall|k: int| 0 <= k < data.len() implies data[k] == spec_sobel_map(img)[k] by {
        assert(0 <= k % w < w && 0 <= k / w < h) by (nonlinear_arith)
            requires
                0 <= k < w * h,
                w >= 1,
        ;
        if !(1 <= k / w < h - 1) {
            assert(spec_sobel_mag(img, k % w, k / w) == 0u8);
        }
    }
}

} // verus!
