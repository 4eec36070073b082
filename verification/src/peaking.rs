use vstd::prelude::*;

use crate::buffer::GrayBuf;
use crate::buffer::LoadedImage;
use crate::buffer::RgbBuf;
use crate::cancel::CancelFlag;
use crate::cancel::CancelRegistry;
use crate::cancel::key_of;
use crate::cancel::lemma_fresh_entry_state;
use crate::cancel::lemma_register_unregister_net;
use crate::cancel::spec_decimal;
use crate::cancel::supersedes;
use crate::cancel::u64_to_decimal;
use crate::downsample::DOWNSAMPLE_TARGET;
use crate::downsample::DOWNSAMPLE_THRESHOLD;
use crate::downsample::ScaleBack;
use crate::downsample::downsample_if_needed;
use crate::downsample::lanczos_rgb;
use crate::downsample::scale_back_edges;
use crate::downsample::spec_down_height;
use crate::downsample::spec_down_width;
use crate::downsample::spec_scale_coord;
use crate::error::AnalysisError;
use crate::histogram::luminance;
use crate::histogram::luminance_values;
use crate::sobel::apply_sobel_filter;
use crate::sobel::spec_sobel_map;
use crate::trace::EdgePoint;
use crate::trace::GLOBAL_POINT_BUDGET;
use crate::trace::extract_edge_points;
use crate::trace::lemma_thinning_drops_whole_components;
use crate::trace::spec_edge_components;
use crate::trace::spec_thin;
use crate::trace::spec_total_points;
use crate::trace::thin_edges;
use crate::trace::views_of;

verus! {

/// The outcome of a focus-peaking request: the original image's size and
/// the traced edge components, each an ordered list of points in original
/// image space.
#[derive(Debug)]
pub struct PeakingResult {
    pub width: u32,
    pub height: u32,
    pub edges: Vec<Vec<EdgePoint>>,
}

/// Converts an RGB image to grayscale, one BT.709 luminance byte per pixel.
pub fn to_grayscale(img: &RgbBuf) -> (r: GrayBuf)
    requires
        img.wf(),
    ensures
        r.wf(),
        r.width == img.width,
        r.height == img.height,
        r.data@ == luminance_values(*img),
{
    proof {
        assert(img.data.len() == img.data@.len());
        assert(3 * (img.width as int) * (img.height as int) == 3 * ((img.width as int) * (
        img.height as int))) by (nonlinear_arith);
    }
    let total: usize = (img.width as usize) * (img.height as usize);
    let mut data: Vec<u8> = Vec::new();
    let mut p: usize = 0;
    while p < total
        invariant
            img.wf(),
            img.data@.len() == 3 * ((img.width as int) * (img.height as int)),
            total == (img.width as int) * (img.height as int),
            p <= total,
            data@.len() == p,
            forall|k: int| 0 <= k < p ==> data@[k] == luminance_values(*img)[k],
        decreases total - p,
    {
        proof {
            assert(img.data.len() == img.data@.len());
        }
        let base: usize = 3 * p;
        let y = luminance(img.data[base], img.data[base + 1], img.data[base + 2]);
        data.push(y);
        p = p + 1;
    }
    proof {
        assert(data@ =~= luminance_values(*img));
    }
    GrayBuf::new(img.width, img.height, data)
}

/// The coalescing base key of a peaking request: the caller-supplied
/// correlation id when present, else the image path, a colon, and the
/// threshold in decimal.
pub open spec fn spec_peaking_base_key(path: Seq<char>, threshold: u8, rid: Option<String>) -> Seq<
    char,
> {
    match rid {
        Option::Some(id) => id@,
        Option::None => path + seq![':'] + spec_decimal(threshold as nat),
    }
}

/// `working` is the image that analysis runs on, and `scale` the matching
/// scale-back factors: the picture itself when both sides are below the
/// downsampling threshold, and otherwise its Lanczos resampling with the
/// longer side at the fixed target.
pub open spec fn spec_working_image(img: RgbBuf, working: RgbBuf, scale: Option<ScaleBack>) -> bool {
    if img.width < DOWNSAMPLE_THRESHOLD && img.height < DOWNSAMPLE_THRESHOLD {
        &&& scale is None
        &&& working.width == img.width
        &&& working.height == img.height
        &&& working.data@ == img.data@
    } else {
        let nw = spec_down_width(img.width as int, img.height as int, DOWNSAMPLE_TARGET as int);
        let nh = spec_down_height(img.width as int, img.height as int, DOWNSAMPLE_TARGET as int);
        &&& working.width == nw
        &&& working.height == nh
        &&& working.data@ == lanczos_rgb(img.data@, img.width as int, img.height as int, nw, nh)
        &&& scale == Some(
            ScaleBack {
                num_x: img.width,
                den_x: working.width,
                num_y: img.height,
                den_y: working.height,
            },
        )
    }
}

/// The traced components mapped back to original image space: unchanged
/// when no downsampling happened, and otherwise each coordinate rescaled by
/// the exact per-axis ratio, rounded and clamped.
pub open spec fn scaled_components(comps: Seq<Seq<(u32, u32)>>, scale: Option<ScaleBack>) -> Seq<
    Seq<EdgePoint>,
> {
    Seq::new(
        comps.len(),
        |i: int|
            Seq::new(
                comps[i].len(),
                |j: int|
                    match scale {
                        Option::None => EdgePoint { x: comps[i][j].0, y: comps[i][j].1 },
                        Option::Some(sb) => EdgePoint {
                            x: spec_scale_coord(comps[i][j].0, sb.num_x, sb.den_x) as u32,
                            y: spec_scale_coord(comps[i][j].1, sb.num_y, sb.den_y) as u32,
                        },
                    },
            ),
    )
}

/// What a peaking request returns: the scaled-back components, thinned by
/// the global point budget when their total exceeds it.
pub open spec fn spec_final_edges(comps: Seq<Seq<(u32, u32)>>, scale: Option<ScaleBack>) -> Seq<
    Seq<EdgePoint>,
> {
    let sc = scaled_components(comps, scale);
    if spec_total_points(sc) <= GLOBAL_POINT_BUDGET {
        sc
    } else {
        spec_thin(sc, spec_total_points(sc), GLOBAL_POINT_BUDGET as int)
    }
}

/// `out` is the full peaking pipeline applied to `img`: downsample if
/// oversized, convert to grayscale, take the Sobel map, trace its
/// components at the threshold, scale the points back, and thin by the
/// global budget.
pub open spec fn peaking_edges_ok(img: RgbBuf, threshold: u8, out: Seq<Seq<EdgePoint>>) -> bool {
    exists|working: RgbBuf, gray: GrayBuf, mag: GrayBuf, scale: Option<ScaleBack>|
        #![trigger spec_working_image(img, working, scale), spec_sobel_map(gray), spec_edge_components(mag, threshold)]
        {
            &&& spec_working_image(img, working, scale)
            &&& gray.width == working.width
            &&& gray.height == working.height
            &&& gray.data@ == luminance_values(working)
            &&& mag.width == gray.width
            &&& mag.height == gray.height
            &&& mag.data@ == spec_sobel_map(gray)
            &&& out == spec_final_edges(spec_edge_components(mag, threshold), scale)
        }
}

/// Builds the base key of a peaking request.
fn peaking_base_key(image_path: &str, threshold: u8, request_id: Option<String>) -> (r: String)
    ensures
        r@ == spec_peaking_base_key(image_path@, threshold, request_id),
{
    match request_id {
        Some(id) => id,
        None => {
            let mut s = image_path.to_owned();
            s.append(":");
            let d = u64_to_decimal(threshold as u64);
            s.append(d.as_str());
            proof {
                reveal_strlit(":");
                assert(s@ =~= image_path@ + seq![':'] + spec_decimal(threshold as nat));
            }
            s
        },
    }
}

/// Runs a focus-peaking request end to end: derives the base key, registers
/// a fresh identity (superseding earlier requests with the same base key),
/// analyses the decoded image, and removes the registry entry on every
/// return path.
///
/// The image itself is supplied by the caller as a decoding outcome; a
/// missing file or a failed decode becomes the matching error, with the
/// registry still cleaned up.
pub fn focus_peaking(
    registry: &mut CancelRegistry,
    image_path: &str,
    input: LoadedImage,
    threshold: u8,
    request_id: Option<String>,
) -> (r: Result<PeakingResult, AnalysisError>)
    requires
        old(registry).wf(),
        old(registry).counter < u64::MAX,
        input is Decoded ==> input->Decoded_0.wf() && input->Decoded_0.width >= 1
            && input->Decoded_0.height >= 1,
    ensures
        final(registry).wf(),
        final(registry).counter == old(registry).counter + 1,
        final(registry).entries@.len() == old(registry).entries@.len(),
        forall|i: int|
            #![trigger final(registry).entries@[i]]
            0 <= i < old(registry).entries@.len() ==> {
                let e_old = old(registry).entries@[i];
                let e_new = final(registry).entries@[i];
                &&& e_new.base@ == e_old.base@
                &&& e_new.seq == e_old.seq
                &&& e_new.cancelled == (e_old.cancelled || supersedes(
                    spec_peaking_base_key(image_path@, threshold, request_id),
                    key_of(e_old.base@, e_old.seq),
                ))
            },
        input is Missing ==> r == Result::<PeakingResult, AnalysisError>::Err(
            AnalysisError::FileNotFound,
        ),
        input is Failed ==> r is Err && r->Err_0 == AnalysisError::DecodeFailed(input->Failed_0),
        input is Decoded ==> r is Ok && {
            let img = input->Decoded_0;
            let res = r->Ok_0;
            &&& res.width == img.width
            &&& res.height == img.height
            &&& peaking_edges_ok(img, threshold, views_of(res.edges@))
            &&& crate::trace::all_points_in(res.edges@, img.width as int, img.height as int)
        },
{
    let base = peaking_base_key(image_path, threshold, request_id);
    let ghost pre = *registry;
    let id = registry.register(base.as_str());
    let ghost mid = *registry;
    proof {
        lemma_fresh_entry_state(pre, mid, base@, id);
    }
    let img = match input {
        LoadedImage::Missing => {
            registry.unregister(&id);
            proof {
                lemma_register_unregister_net(pre, mid, registry.entries@, base@, id);
            }
            return Err(AnalysisError::FileNotFound);
        },
        LoadedImage::Failed(reason) => {
            registry.unregister(&id);
            proof {
                lemma_register_unregister_net(pre, mid, registry.entries@, base@, id);
            }
            return Err(AnalysisError::DecodeFailed(reason));
        },
        LoadedImage::Decoded(img) => img,
    };
    let original_width = img.width;
    let original_height = img.height;
    if registry.is_cancelled(&id) {
        registry.unregister(&id);
        proof {
            lemma_register_unregister_net(pre, mid, registry.entries@, base@, id);
        }
        return Err(AnalysisError::Cancelled);
    }
    let (working, scale) = downsample_if_needed(&img, DOWNSAMPLE_THRESHOLD);
    let gray = to_grayscale(&working);
    let flag = CancelFlag { cancelled: registry.is_cancelled(&id) };
    let mag = match apply_sobel_filter(&gray, &flag) {
        Ok(mag) => mag,
        Err(e) => {
            registry.unregister(&id);
            proof {
                lemma_register_unregister_net(pre, mid, registry.entries@, base@, id);
            }
            return Err(e);
        },
    };
    let mut edges = match extract_edge_points(&mag, threshold, &flag) {
        Ok(edges) => edges,
        Err(e) => {
            registry.unregister(&id);
            proof {
                lemma_register_unregister_net(pre, mid, registry.entries@, base@, id);
            }
            return Err(e);
        },
    };
    let ghost comps = spec_edge_components(mag, threshold);
    let ghost pre_edges = edges@;
    scale_back_edges(&mut edges, scale);
    proof {
        assert forall|i: int| 0 <= i < edges@.len() implies #[trigger] edges@[i]@
            =~= scaled_components(comps, scale)[i] by {
            assert(edges@[i]@.len() == comps[i].len());
            assert forall|j: int| 0 <= j < comps[i].len() implies edges@[i]@[j]
                == scaled_components(comps, scale)[i][j] by {
                assert(pre_edges[i]@[j].x == comps[i][j].0 && pre_edges[i]@[j].y == comps[i][j].1);
                if scale is Some {
                    assert(edges@[i]@[j].x == spec_scale_coord(
                        pre_edges[i]@[j].x,
                        scale->0.num_x,
                        scale->0.den_x,
                    ));
                    assert(edges@[i]@[j].y == spec_scale_coord(
                        pre_edges[i]@[j].y,
                        scale->0.num_y,
                        scale->0.den_y,
                    ));
                } else {
                    assert(edges@[i]@[j] == pre_edges[i]@[j]);
                }
            }
        }
        assert(views_of(edges@) =~= scaled_components(comps, scale));
        assert forall|i: int, j: int|
            0 <= i < edges@.len() && 0 <= j < edges@[i]@.len() implies edges@[i]@[j].x < img.width
            && edges@[i]@[j].y < img.height by {
            if scale is Some {
                assert(edges@[i]@[j].x < scale->0.num_x && edges@[i]@[j].y < scale->0.num_y);
            } else {
                assert(edges@[i]@[j] == pre_edges[i]@[j]);
            }
        }
        assert(crate::trace::all_points_in(edges@, img.width as int, img.height as int));
    }
    let ghost scaled_edges = edges@;
    let final_edges = thin_edges(edges);
    proof {
        assert(views_of(final_edges@) == spec_final_edges(comps, scale));
        assert(peaking_edges_ok(img, threshold, views_of(final_edges@))) by {
            assert(spec_working_image(img, working, scale));
        }
        let total = spec_total_points(views_of(scaled_edges));
        if total <= GLOBAL_POINT_BUDGET {
            assert(final_edges@ == scaled_edges);
        } else {
            let tv = spec_thin(views_of(scaled_edges), total, GLOBAL_POINT_BUDGET as int);
            lemma_thinning_drops_whole_components(
                views_of(scaled_edges),
                total,
                GLOBAL_POINT_BUDGET as int,
            );
            assert forall|i: int, j: int|
                0 <= i < final_edges@.len() && 0 <= j
                    < final_edges@[i]@.len() implies final_edges@[i]@[j].x < img.width
                && final_edges@[i]@[j].y < img.height by {
                assert(final_edges@[i]@ == views_of(final_edges@)[i]);
                assert(views_of(final_edges@)[i] == tv[i]);
                let k = choose|k: int|
                    0 <= k < views_of(scaled_edges).len() && tv[i] == views_of(scaled_edges)[k];
                assert(final_edges@[i]@ == scaled_edges[k]@);
                assert(scaled_edges[k]@[j].x < img.width && scaled_edges[k]@[j].y < img.height);
            }
        }
        assert(crate::trace::all_points_in(
            final_edges@,
            img.width as int,
            img.height as int,
        ));
    }
    registry.unregister(&id);
    proof {
        lemma_register_unregister_net(pre, mid, registry.entries@, base@, id);
    }
    Ok(PeakingResult { width: original_width, height: original_height, edges: final_edges })
}

} // verus!
