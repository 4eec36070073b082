use vstd::prelude::*;

use crate::buffer::LoadedImage;
use crate::buffer::RgbBuf;
use crate::buffer::lemma_pixel_index_bound;
use crate::buffer::pixel_index;
use crate::cancel::CancelFlag;
use crate::cancel::CancelRegistry;
use crate::cancel::key_of;
use crate::cancel::lemma_fresh_entry_state;
use crate::cancel::lemma_register_unregister_net;
use crate::cancel::supersedes;
use crate::error::AnalysisError;

use rayon::iter::IntoParallelIterator;
use rayon::iter::ParallelIterator;

verus! {

/// Luminance of an RGB pixel under the ITU-R BT.709 weights, truncated (not
/// rounded) to an integer bin: `floor((2126*r + 7152*g + 722*b) / 10000)`.
pub open spec fn spec_luminance(r: u8, g: u8, b: u8) -> int {
    (2126 * r + 7152 * g + 722 * b) / 10000
}

pub proof fn lemma_luminance_range(r: u8, g: u8, b: u8)
    ensures
        0 <= spec_luminance(r, g, b) <= 255,
{
    assert(2126 * r + 7152 * g + 722 * b <= 2550000);
}

/// Computes the BT.709 luminance bin of one pixel.
pub fn luminance(r: u8, g: u8, b: u8) -> (y: u8)
    ensures
        y == spec_luminance(r, g, b),
{
    proof {
        lemma_luminance_range(r, g, b);
    }
    let weighted: u32 = 2126 * (r as u32) + 7152 * (g as u32) + 722 * (b as u32);
    (weighted / 10000) as u8
}

/// The pixels of channel `c` (0 = red, 1 = green, 2 = blue), flattened in
/// row-major order.
pub open spec fn channel_values(img: RgbBuf, c: int) -> Seq<u8> {
    Seq::new((img.width * img.height) as nat, |p: int| img.data@[3 * p + c])
}

/// The luminance bin of every pixel, flattened in row-major order.
pub open spec fn luminance_values(img: RgbBuf) -> Seq<u8> {
    Seq::new(
        (img.width * img.height) as nat,
        |p: int|
            spec_luminance(img.data@[3 * p], img.data@[3 * p + 1], img.data@[3 * p + 2]) as u8,
    )
}

/// How many of the first `n` values equal `v`.
pub open spec fn count_prefix(vals: Seq<u8>, v: u8, n: int) -> int
    decreases n,
{
    if n <= 0 {
        0
    } else {
        count_prefix(vals, v, n - 1) + if vals[n - 1] == v {
            1int
        } else {
            0int
        }
    }
}

pub proof fn lemma_count_prefix_range(vals: Seq<u8>, v: u8, a: int, b: int)
    requires
        a <= b,
    ensures
        0 <= count_prefix(vals, v, b) - count_prefix(vals, v, a) <= b - a,
    decreases b - a,
{
    if a < b {
        lemma_count_prefix_range(vals, v, a, b - 1);
    }
}

pub proof fn lemma_count_prefix_bounds(vals: Seq<u8>, v: u8, n: int)
    requires
        0 <= n,
    ensures
        0 <= count_prefix(vals, v, n) <= n,
{
    lemma_count_prefix_range(vals, v, 0, n);
}

/// A full 256-bin histogram of `vals` up to index `n`: bin `v` holds
/// `count_prefix(vals, v, n)`.
pub open spec fn is_histogram_of(hist: Seq<u32>, vals: Seq<u8>, n: int) -> bool {
    hist.len() == 256 && forall|v: int|
        0 <= v < 256 ==> hist[v] == count_prefix(vals, v as u8, n)
}

/// The total of all bins.
pub open spec fn spec_sum_bins(s: Seq<u32>) -> int
    decreases s.len(),
{
    if s.len() == 0 {
        0
    } else {
        spec_sum_bins(s.drop_last()) + s.last()
    }
}

/// The total of bins `0 .. vu` of the value counts of `vals` up to `n`.
pub open spec fn sum_counts(vals: Seq<u8>, n: int, vu: int) -> int
    decreases vu,
{
    if vu <= 0 {
        0
    } else {
        sum_counts(vals, n, vu - 1) + count_prefix(vals, (vu - 1) as u8, n)
    }
}

proof fn lemma_sum_counts_zero(vals: Seq<u8>, vu: int)
    ensures
        sum_counts(vals, 0, vu) == 0,
    decreases vu,
{
    if vu > 0 {
        lemma_sum_counts_zero(vals, vu - 1);
    }
}

proof fn lemma_sum_counts_step(vals: Seq<u8>, n: int, vu: int)
    requires
        1 <= n,
        0 <= vu <= 256,
    ensures
        sum_counts(vals, n, vu) == sum_counts(vals, n - 1, vu) + if vals[n - 1] < vu {
            1int
        } else {
            0int
        },
    decreases vu,
{
    if vu > 0 {
        lemma_sum_counts_step(vals, n, vu - 1);
    }
}

proof fn lemma_sum_counts_total(vals: Seq<u8>, n: int)
    requires
        0 <= n,
    ensures
        sum_counts(vals, n, 256) == n,
    decreases n,
{
    if n == 0 {
        lemma_sum_counts_zero(vals, 256);
    } else {
        lemma_sum_counts_total(vals, n - 1);
        lemma_sum_counts_step(vals, n, 256);
    }
}

proof fn lemma_bins_sum_prefix(hist: Seq<u32>, vals: Seq<u8>, n: int, vu: int)
    requires
        is_histogram_of(hist, vals, n),
        0 <= vu <= 256,
    ensures
        spec_sum_bins(hist.take(vu)) == sum_counts(vals, n, vu),
    decreases vu,
{
    if vu == 0 {
        assert(hist.take(0).len() == 0);
    } else {
        lemma_bins_sum_prefix(hist, vals, n, vu - 1);
        assert(hist.take(vu).drop_last() =~= hist.take(vu - 1));
        assert(hist.take(vu).last() == hist[vu - 1]);
    }
}

/// Law: every value lands in exactly one bin, so the bins of a histogram of
/// the first `n` values sum to exactly `n` — no value is dropped or counted
/// twice across the parallel row partition.
pub proof fn lemma_histogram_sum(hist: Seq<u32>, vals: Seq<u8>, n: int)
    requires
        is_histogram_of(hist, vals, n),
        0 <= n,
    ensures
        spec_sum_bins(hist) == n,
{
    lemma_bins_sum_prefix(hist, vals, n, 256);
    assert(hist.take(256) =~= hist);
    lemma_sum_counts_total(vals, n);
}

/// A fresh vector of 256 zeroed bins.
fn zero_bins() -> (r: Vec<u32>)
    ensures
        r@.len() == 256,
        forall|v: int| 0 <= v < 256 ==> r@[v] == 0u32,
{
    let mut bins: Vec<u32> = Vec::new();
    while bins.len() < 256
        invariant
            bins@.len() <= 256,
            forall|v: int| 0 <= v < bins@.len() ==> bins@[v] == 0u32,
        decreases 256 - bins@.len(),
    {
        bins.push(0);
    }
    bins
}

/// Adds one observation of value `v` to its bin.
fn bump(hist: &mut Vec<u32>, v: u8)
    requires
        old(hist)@.len() == 256,
        old(hist)@[v as int] < u32::MAX,
    ensures
        final(hist)@ == old(hist)@.update(v as int, (old(hist)@[v as int] + 1) as u32),
{
    let cur = hist[v as usize];
    hist.set(v as usize, cur + 1);
}

/// Index-wise sum of one row's bins into the running totals.
fn add_bins(total: &mut Vec<u32>, row: &Vec<u32>)
    requires
        old(total)@.len() == 256,
        row@.len() == 256,
        forall|v: int| 0 <= v < 256 ==> old(total)@[v] + row@[v] <= u32::MAX,
    ensures
        final(total)@.len() == 256,
        forall|v: int| 0 <= v < 256 ==> final(total)@[v] == old(total)@[v] + row@[v],
{
    let mut v: usize = 0;
    while v < 256
        invariant
            total@.len() == 256,
            row@.len() == 256,
            v <= 256,
            forall|u: int| 0 <= u < 256 ==> old(total)@[u] + row@[u] <= u32::MAX,
            forall|u: int| v <= u < 256 ==> total@[u] == old(total)@[u],
            forall|u: int| 0 <= u < v ==> total@[u] == old(total)@[u] + row@[u],
        decreases 256 - v,
    {
        let cur = total[v];
        total.set(v, cur + row[v]);
        v = v + 1;
    }
}

/// `hist` holds, per value, how many of `vals[a .. b]` equal it: the bins of
/// one row of the partition.
pub open spec fn is_row_hist(hist: Seq<u32>, vals: Seq<u8>, a: int, b: int) -> bool {
    hist.len() == 256 && forall|v: int|
        0 <= v < 256 ==> hist[v] == count_prefix(vals, v as u8, b) - count_prefix(vals, v as u8, a)
}

/// The per-channel bins of row `i` of an RGB partition.
pub open spec fn rgb_row_ok(img: RgbBuf, rows: Seq<(Vec<u32>, Vec<u32>, Vec<u32>)>, i: int) -> bool {
    let a = i * img.width;
    let b = i * img.width + img.width;
    &&& is_row_hist(rows[i].0@, channel_values(img, 0), a, b)
    &&& is_row_hist(rows[i].1@, channel_values(img, 1), a, b)
    &&& is_row_hist(rows[i].2@, channel_values(img, 2), a, b)
}

/// Counts one row's red, green and blue values, first honouring the
/// cancellation flag on every hundredth row as the parallel workers do.
pub fn rgb_hist_row(img: &RgbBuf, y: u32, flag: &CancelFlag) -> (r: Result<
    (Vec<u32>, Vec<u32>, Vec<u32>),
    AnalysisError,
>)
    requires
        img.wf(),
        y < img.height,
    ensures
        flag.cancelled && y % 100 == 0 ==> r is Err && r->Err_0 == AnalysisError::Cancelled,
        !(flag.cancelled && y % 100 == 0) ==> r is Ok && {
            let a = (y as int) * img.width;
            let b = (y as int) * img.width + img.width;
            &&& is_row_hist(r->Ok_0.0@, channel_values(*img, 0), a, b)
            &&& is_row_hist(r->Ok_0.1@, channel_values(*img, 1), a, b)
            &&& is_row_hist(r->Ok_0.2@, channel_values(*img, 2), a, b)
        },
{
    if y % 100 == 0 && flag.is_set() {
        return Err(AnalysisError::Cancelled);
    }
    let w = img.width;
    let ghost a = (y as int) * (w as int);
    let mut hr = zero_bins();
    let mut hg = zero_bins();
    let mut hb = zero_bins();
    let mut x: u32 = 0;
    while x < w
        invariant
            img.wf(),
            y < img.height,
            w == img.width,
            x <= w,
            a == (y as int) * (w as int),
            is_row_hist(hr@, channel_values(*img, 0), a, a + x),
            is_row_hist(hg@, channel_values(*img, 1), a, a + x),
            is_row_hist(hb@, channel_values(*img, 2), a, a + x),
        decreases w - x,
    {
        let (pr, pg, pb) = img.pixel(x, y);
        proof {
            lemma_pixel_index_bound(x as int, y as int, w as int, img.height as int);
            lemma_count_prefix_range(channel_values(*img, 0), pr, a, a + x);
            lemma_count_prefix_range(channel_values(*img, 1), pg, a, a + x);
            lemma_count_prefix_range(channel_values(*img, 2), pb, a, a + x);
        }
        bump(&mut hr, pr);
        bump(&mut hg, pg);
        bump(&mut hb, pb);
        proof {
            let p = a + x;
            assert(channel_values(*img, 0)[p] == img.spec_channel(x as int, y as int, 0));
            assert(channel_values(*img, 1)[p] == img.spec_channel(x as int, y as int, 1));
            assert(channel_values(*img, 2)[p] == img.spec_channel(x as int, y as int, 2));
        }
        x = x + 1;
    }
    Ok((hr, hg, hb))
}

/// Relies on rayon: mapping an indexed range in parallel and collecting into
/// `Result` yields exactly the per-index results in index order when all of
/// them are `Ok`, and otherwise one of the produced errors. Here every
/// per-row result is determined by the flag alone (row zero polls it), so the
/// collected outcome is fully determined too.
#[verifier::external_body]
fn par_rgb_rows(img: &RgbBuf, flag: &CancelFlag) -> (r: Result<
    Vec<(Vec<u32>, Vec<u32>, Vec<u32>)>,
    AnalysisError,
>)
    requires
        img.wf(),
    ensures
        r is Err ==> flag.cancelled && img.height >= 1 && r->Err_0 == AnalysisError::Cancelled,
        r is Ok ==> !(flag.cancelled && img.height >= 1),
        r is Ok ==> r->Ok_0@.len() == img.height && (forall|i: int|
            0 <= i < r->Ok_0@.len() ==> rgb_row_ok(*img, r->Ok_0@, i)),
{
    (0..img.height).into_par_iter().map(|y| rgb_hist_row(img, y, flag)).collect()
}

/// Computes the 256-bin red, green and blue distributions of an image,
/// row-parallel and cooperatively cancellable.
///
/// On success each channel's bin `v` counts exactly the pixels whose channel
/// value is `v`. A pre-set flag yields `Cancelled` instead of a partial
/// histogram whenever the image has at least one row.
pub fn calculate_rgb_histogram(img: &RgbBuf, flag: &CancelFlag) -> (r: Result<
    (Vec<u32>, Vec<u32>, Vec<u32>),
    AnalysisError,
>)
    requires
        img.wf(),
        img.width * img.height <= u32::MAX,
    ensures
        r is Err <==> flag.cancelled && img.height >= 1,
        r is Err ==> r->Err_0 == AnalysisError::Cancelled,
        r is Ok ==> {
            let n = (img.width * img.height) as int;
            &&& is_histogram_of(r->Ok_0.0@, channel_values(*img, 0), n)
            &&& is_histogram_of(r->Ok_0.1@, channel_values(*img, 1), n)
            &&& is_histogram_of(r->Ok_0.2@, channel_values(*img, 2), n)
        },
{
    let w = img.width;
    let h = img.height;
    let rows = match par_rgb_rows(img, flag) {
        Ok(rows) => rows,
        Err(e) => {
            return Err(e);
        },
    };
    let mut hr = zero_bins();
    let mut hg = zero_bins();
    let mut hb = zero_bins();
    let mut i: usize = 0;
    while i < rows.len()
        invariant
            img.wf(),
            w == img.width,
            h == img.height,
            img.width * img.height <= u32::MAX,
            rows@.len() == h,
            forall|j: int| 0 <= j < rows@.len() ==> rgb_row_ok(*img, rows@, j),
            i <= h,
            is_row_hist(hr@, channel_values(*img, 0), 0, i * (w as int)),
            is_row_hist(hg@, channel_values(*img, 1), 0, i * (w as int)),
            is_row_hist(hb@, channel_values(*img, 2), 0, i * (w as int)),
        decreases rows@.len() - i,
    {
        proof {
            assert(rgb_row_ok(*img, rows@, i as int));
            assert((i as int) * (w as int) + w == ((i as int) + 1) * (w as int)) by (nonlinear_arith);
            assert(((i as int) + 1) * (w as int) <= (h as int) * (w as int)) by (nonlinear_arith)
                requires
                    i + 1 <= h,
                    w >= 0,
            ;
            assert((h as int) * (w as int) == (w as int) * (h as int)) by (nonlinear_arith);
            lemma_rgb_merge_bounds(*img, hr@, hg@, hb@, rows@, i as int);
        }
        let row = &rows[i];
        add_bins(&mut hr, &row.0);
        add_bins(&mut hg, &row.1);
        add_bins(&mut hb, &row.2);
        i = i + 1;
    }
    proof {
        assert((h as int) * (w as int) == (w as int) * (h as int)) by (nonlinear_arith);
    }
    Ok((hr, hg, hb))
}

/// The luminance bins of row `i` of a partition.
pub open spec fn lum_row_ok(img: RgbBuf, rows: Seq<Vec<u32>>, i: int) -> bool {
    is_row_hist(rows[i]@, luminance_values(img), i * img.width, i * img.width + img.width)
}

/// Counts one row's luminance bins, first honouring the cancellation flag on
/// every hundredth row as the parallel workers do.
pub fn luminance_hist_row(img: &RgbBuf, y: u32, flag: &CancelFlag) -> (r: Result<
    Vec<u32>,
    AnalysisError,
>)
    requires
        img.wf(),
        y < img.height,
    ensures
        flag.cancelled && y % 100 == 0 ==> r is Err && r->Err_0 == AnalysisError::Cancelled,
        !(flag.cancelled && y % 100 == 0) ==> r is Ok && is_row_hist(
            r->Ok_0@,
            luminance_values(*img),
            (y as int) * img.width,
            (y as int) * img.width + img.width,
        ),
{
    if y % 100 == 0 && flag.is_set() {
        return Err(AnalysisError::Cancelled);
    }
    let w = img.width;
    let ghost a = (y as int) * (w as int);
    let mut hy = zero_bins();
    let mut x: u32 = 0;
    while x < w
        invariant
            img.wf(),
            y < img.height,
            w == img.width,
            x <= w,
            a == (y as int) * (w as int),
            is_row_hist(hy@, luminance_values(*img), a, a + x),
        decreases w - x,
    {
        let (pr, pg, pb) = img.pixel(x, y);
        let bin = luminance(pr, pg, pb);
        proof {
            lemma_pixel_index_bound(x as int, y as int, w as int, img.height as int);
            lemma_luminance_range(pr, pg, pb);
            lemma_count_prefix_range(luminance_values(*img), bin, a, a + x);
            assert(luminance_values(*img)[a + x] == bin);
        }
        bump(&mut hy, bin);
        x = x + 1;
    }
    Ok(hy)
}

/// Relies on rayon: mapping an indexed range in parallel and collecting into
/// `Result` yields exactly the per-index results in index order when all of
/// them are `Ok`, and otherwise one of the produced errors. Here every
/// per-row result is determined by the flag alone (row zero polls it), so the
/// collected outcome is fully determined too.
#[verifier::external_body]
fn par_luminance_rows(img: &RgbBuf, flag: &CancelFlag) -> (r: Result<Vec<Vec<u32>>, AnalysisError>)
    requires
        img.wf(),
    ensures
        r is Err ==> flag.cancelled && img.height >= 1 && r->Err_0 == AnalysisError::Cancelled,
        r is Ok ==> !(flag.cancelled && img.height >= 1),
        r is Ok ==> r->Ok_0@.len() == img.height && (forall|i: int|
            0 <= i < r->Ok_0@.len() ==> lum_row_ok(*img, r->Ok_0@, i)),
{
    (0..img.height).into_par_iter().map(|y| luminance_hist_row(img, y, flag)).collect()
}

/// Computes the 256-bin luminance distribution of an image, row-parallel and
/// cooperatively cancellable.
///
/// On success bin `v` counts exactly the pixels whose BT.709 luminance,
/// truncated to an integer, is `v`. A pre-set flag yields `Cancelled`
/// instead of a partial histogram whenever the image has at least one row.
pub fn calculate_luminance_histogram(img: &RgbBuf, flag: &CancelFlag) -> (r: Result<
    Vec<u32>,
    AnalysisError,
>)
    requires
        img.wf(),
        img.width * img.height <= u32::MAX,
    ensures
        r is Err <==> flag.cancelled && img.height >= 1,
        r is Err ==> r->Err_0 == AnalysisError::Cancelled,
        r is Ok ==> is_histogram_of(
            r->Ok_0@,
            luminance_values(*img),
            (img.width * img.height) as int,
        ),
{
    let w = img.width;
    let h = img.height;
    let rows = match par_luminance_rows(img, flag) {
        Ok(rows) => rows,
        Err(e) => {
            return Err(e);
        },
    };
    let mut hy = zero_bins();
    let mut i: usize = 0;
    while i < rows.len()
        invariant
            img.wf(),
            w == img.width,
            h == img.height,
            img.width * img.height <= u32::MAX,
            rows@.len() == h,
            forall|j: int| 0 <= j < rows@.len() ==> lum_row_ok(*img, rows@, j),
            i <= h,
            is_row_hist(hy@, luminance_values(*img), 0, i * (w as int)),
        decreases rows@.len() - i,
    {
        proof {
            assert(lum_row_ok(*img, rows@, i as int));
            assert((i as int) * (w as int) + w == ((i as int) + 1) * (w as int)) by (nonlinear_arith);
            assert(((i as int) + 1) * (w as int) <= (h as int) * (w as int)) by (nonlinear_arith)
                requires
                    i + 1 <= h,
                    w >= 0,
            ;
            assert((h as int) * (w as int) == (w as int) * (h as int)) by (nonlinear_arith);
            lemma_lum_merge_bounds(*img, hy@, rows@, i as int);
        }
        let row = &rows[i];
        add_bins(&mut hy, row);
        i = i + 1;
    }
    proof {
        assert((h as int) * (w as int) == (w as int) * (h as int)) by (nonlinear_arith);
    }
    Ok(hy)
}

/// The running luminance totals plus the next row's bins stay within `u32`,
/// because together they count at most all pixels of the image.
proof fn lemma_lum_merge_bounds(img: RgbBuf, hy: Seq<u32>, rows: Seq<Vec<u32>>, i: int)
    requires
        img.wf(),
        img.width * img.height <= u32::MAX,
        0 <= i < rows.len(),
        rows.len() == img.height,
        lum_row_ok(img, rows, i),
        is_row_hist(hy, luminance_values(img), 0, i * img.width),
    ensures
        forall|v: int| 0 <= v < 256 ==> hy[v] + rows[i]@[v] <= u32::MAX,
{
    let w = img.width as int;
    let h = img.height as int;
    assert(0 <= i * w && i * w + w == (i + 1) * w && (i + 1) * w <= h * w) by (nonlinear_arith)
        requires
            0 <= i,
            i + 1 <= h,
            0 <= w,
    ;
    assert(h * w == w * h) by (nonlinear_arith);
    assert forall|v: int| 0 <= v < 256 implies hy[v] + rows[i]@[v] <= u32::MAX by {
        lemma_count_prefix_bounds(luminance_values(img), v as u8, i * w + w);
        lemma_count_prefix_range(luminance_values(img), v as u8, i * w, i * w + w);
        lemma_count_prefix_bounds(luminance_values(img), v as u8, i * w);
    }
}

/// The per-channel intensity distribution of one image: separate red,
/// green and blue bins, or a single set of luminance bins.
#[derive(Debug)]
pub enum HistogramData {
    RGB { r: Vec<u32>, g: Vec<u32>, b: Vec<u32> },
    Luminance { y: Vec<u32> },
}

/// The outcome of a histogram request: the image's size, the mode it was
/// computed in, and the 256-bin counts.
#[derive(Debug)]
pub struct HistogramResult {
    pub width: u32,
    pub height: u32,
    pub histogram_type: String,
    pub data: HistogramData,
}

/// The coalescing base key of a histogram request: the caller-supplied
/// correlation id when present, else the image path, a colon, and the mode
/// string.
pub open spec fn spec_histogram_base_key(path: Seq<char>, mode: Seq<char>, rid: Option<String>) -> Seq<
    char,
> {
    match rid {
        Option::Some(id) => id@,
        Option::None => path + seq![':'] + mode,
    }
}

/// Builds the base key of a histogram request.
fn histogram_base_key(image_path: &str, display_type: &str, request_id: Option<String>) -> (r:
    String)
    ensures
        r@ == spec_histogram_base_key(image_path@, display_type@, request_id),
{
    match request_id {
        Some(id) => id,
        None => {
            let mut s = image_path.to_owned();
            s.append(":");
            s.append(display_type);
            proof {
                reveal_strlit(":");
                assert(s@ =~= image_path@ + seq![':'] + display_type@);
            }
            s
        },
    }
}

/// Runs a histogram request end to end: derives the base key, registers a
/// fresh identity (superseding earlier requests with the same base key),
/// computes the requested distribution of the decoded image, and removes
/// the registry entry on every return path.
///
/// The mode must be `"rgb"` or `"luminance"`; any other string is rejected
/// as invalid, with the registry still cleaned up. The image itself is
/// supplied by the caller as a decoding outcome.
pub fn calculate_histogram(
    registry: &mut CancelRegistry,
    image_path: &str,
    input: LoadedImage,
    display_type: &str,
    request_id: Option<String>,
) -> (r: Result<HistogramResult, AnalysisError>)
    requires
        old(registry).wf(),
        old(registry).counter < u64::MAX,
        input is Decoded ==> input->Decoded_0.wf() && input->Decoded_0.width
            * input->Decoded_0.height <= u32::MAX,
    ensures
        final(registry).wf(),
        final(registry).counter == old(registry).counter + 1,
        final(registry).entries@.len() == old(registry).entries@.len(),
        forall|i: int|
            #![trigger final(registry).entries@[i]]
            0 <= i < old(registry).entries@.len() ==> {
                let e_old = old(registry).entries@[i];
                let e_new = final(registry).entries@[i];
                &&& e_new.base@ == e_old.base@
                &&& e_new.seq == e_old.seq
                &&& e_new.cancelled == (e_old.cancelled || supersedes(
                    spec_histogram_base_key(image_path@, display_type@, request_id),
                    key_of(e_old.base@, e_old.seq),
                ))
            },
        input is Missing ==> r == Result::<HistogramResult, AnalysisError>::Err(
            AnalysisError::FileNotFound,
        ),
        input is Failed ==> r is Err && r->Err_0 == AnalysisError::DecodeFailed(input->Failed_0),
        input is Decoded && display_type@ != "rgb"@ && display_type@ != "luminance"@ ==> r is Err
            && r->Err_0 is InvalidMode && r->Err_0->InvalidMode_0@ == display_type@,
        input is Decoded && (display_type@ == "rgb"@ || display_type@ == "luminance"@) ==> r is Ok
            && {
            let img = input->Decoded_0;
            let res = r->Ok_0;
            let n = (img.width * img.height) as int;
            &&& res.width == img.width
            &&& res.height == img.height
            &&& res.histogram_type@ == display_type@
            &&& display_type@ == "rgb"@ ==> res.data is RGB && is_histogram_of(
                res.data->RGB_r@,
                channel_values(img, 0),
                n,
            ) && is_histogram_of(res.data->RGB_g@, channel_values(img, 1), n) && is_histogram_of(
                res.data->RGB_b@,
                channel_values(img, 2),
                n,
            )
            &&& display_type@ == "luminance"@ ==> res.data is Luminance && is_histogram_of(
                res.data->Luminance_y@,
                luminance_values(img),
                n,
            )
        },
{
    proof {
        reveal_strlit("rgb");
        reveal_strlit("luminance");
        assert("rgb"@.len() == 3);
        assert("luminance"@.len() == 9);
        assert("rgb"@ != "luminance"@);
    }
    let base = histogram_base_key(image_path, display_type, request_id);
    let ghost pre = *registry;
    let id = registry.register(base.as_str());
    let ghost mid = *registry;
    proof {
        lemma_fresh_entry_state(pre, mid, base@, id);
    }
    let img = match input {
        LoadedImage::Missing => {
            registry.unregister(&id);
            proof {
                lemma_register_unregister_net(pre, mid, registry.entries@, base@, id);
            }
            return Err(AnalysisError::FileNotFound);
        },
        LoadedImage::Failed(reason) => {
            registry.unregister(&id);
            proof {
                lemma_register_unregister_net(pre, mid, registry.entries@, base@, id);
            }
            return Err(AnalysisError::DecodeFailed(reason));
        },
        LoadedImage::Decoded(img) => img,
    };
    if registry.is_cancelled(&id) {
        registry.unregister(&id);
        proof {
            lemma_register_unregister_net(pre, mid, registry.entries@, base@, id);
        }
        return Err(AnalysisError::Cancelled);
    }
    let flag = CancelFlag { cancelled: registry.is_cancelled(&id) };
    let dt = display_type.to_owned();
    let data: HistogramData;
    if dt == "rgb".to_owned() {
        match calculate_rgb_histogram(&img, &flag) {
            Ok(bins) => {
                let (hr, hg, hb) = bins;
                data = HistogramData::RGB { r: hr, g: hg, b: hb };
            },
            Err(e) => {
                registry.unregister(&id);
                proof {
                    lemma_register_unregister_net(pre, mid, registry.entries@, base@, id);
                }
                return Err(e);
            },
        }
    } else if dt == "luminance".to_owned() {
        match calculate_luminance_histogram(&img, &flag) {
            Ok(hy) => {
                data = HistogramData::Luminance { y: hy };
            },
            Err(e) => {
                registry.unregister(&id);
                proof {
                    lemma_register_unregister_net(pre, mid, registry.entries@, base@, id);
                }
                return Err(e);
            },
        }
    } else {
        registry.unregister(&id);
        proof {
            lemma_register_unregister_net(pre, mid, registry.entries@, base@, id);
        }
        return Err(AnalysisError::InvalidMode(dt));
    }
    registry.unregister(&id);
    proof {
        lemma_register_unregister_net(pre, mid, registry.entries@, base@, id);
    }
    Ok(HistogramResult { width: img.width, height: img.height, histogram_type: dt, data })
}

/// The running totals plus the next row's bins stay within `u32`, because
/// together they count at most all pixels of the image.
proof fn lemma_rgb_merge_bounds(
    img: RgbBuf,
    hr: Seq<u32>,
    hg: Seq<u32>,
    hb: Seq<u32>,
    rows: Seq<(Vec<u32>, Vec<u32>, Vec<u32>)>,
    i: int,
)
    requires
        img.wf(),
        img.width * img.height <= u32::MAX,
        0 <= i < rows.len(),
        rows.len() == img.height,
        rgb_row_ok(img, rows, i),
        is_row_hist(hr, channel_values(img, 0), 0, i * img.width),
        is_row_hist(hg, channel_values(img, 1), 0, i * img.width),
        is_row_hist(hb, channel_values(img, 2), 0, i * img.width),
    ensures
        forall|v: int| 0 <= v < 256 ==> hr[v] + rows[i].0@[v] <= u32::MAX,
        forall|v: int| 0 <= v < 256 ==> hg[v] + rows[i].1@[v] <= u32::MAX,
        forall|v: int| 0 <= v < 256 ==> hb[v] + rows[i].2@[v] <= u32::MAX,
{
    let w = img.width as int;
    let h = img.height as int;
    assert(0 <= i * w && i * w + w == (i + 1) * w && (i + 1) * w <= h * w) by (nonlinear_arith)
        requires
            0 <= i,
            i + 1 <= h,
            0 <= w,
    ;
    assert(h * w == w * h) by (nonlinear_arith);
    assert forall|v: int| 0 <= v < 256 implies hr[v] + rows[i].0@[v] <= u32::MAX by {
        lemma_count_prefix_bounds(channel_values(img, 0), v as u8, i * w + w);
        lemma_count_prefix_range(channel_values(img, 0), v as u8, i * w, i * w + w);
        lemma_count_prefix_bounds(channel_values(img, 0), v as u8, i * w);
    }
    assert forall|v: int| 0 <= v < 256 implies hg[v] + rows[i].1@[v] <= u32::MAX by {
        lemma_count_prefix_bounds(channel_values(img, 1), v as u8, i * w + w);
        lemma_count_prefix_range(channel_values(img, 1), v as u8, i * w, i * w + w);
        lemma_count_prefix_bounds(channel_values(img, 1), v as u8, i * w);
    }
    assert forall|v: int| 0 <= v < 256 implies hb[v] + rows[i].2@[v] <= u32::MAX by {
        lemma_count_prefix_bounds(channel_values(img, 2), v as u8, i * w + w);
        lemma_count_prefix_range(channel_values(img, 2), v as u8, i * w, i * w + w);
        lemma_count_prefix_bounds(channel_values(img, 2), v as u8, i * w);
    }
}

} // verus!
