use vstd::prelude::*;

use crate::buffer::GrayBuf;
use crate::cancel::CancelFlag;
use crate::error::AnalysisError;

verus! {

/// One point of a traced edge, in pixel coordinates of the analysed image.
#[derive(Clone, Copy, Debug, PartialEq, Eq, Structural)]
pub struct EdgePoint {
    pub x: u32,
    pub y: u32,
}

/// The hard cap on a single component's traced points: once a component
/// grows beyond this many points its expansion stops, bounding memory and
/// time on pathological all-above-threshold images.
pub const COMPONENT_POINT_CAP: usize = 5000;

/// How many of the first `n` cells are marked.
pub open spec fn count_true(s: Seq<bool>, n: int) -> int
    decreases n,
{
    if n <= 0 {
        0
    } else {
        count_true(s, n - 1) + if s[n - 1] {
            1int
        } else {
            0int
        }
    }
}

pub proof fn lemma_count_true_bounds(s: Seq<bool>, n: int)
    requires
        0 <= n,
    ensures
        0 <= count_true(s, n) <= n,
    decreases n,
{
    if n > 0 {
        lemma_count_true_bounds(s, n - 1);
    }
}

/// Marking an unmarked cell raises the count by exactly one.
pub proof fn lemma_count_true_update(s: Seq<bool>, i: int, n: int)
    requires
        0 <= i < s.len(),
        0 <= n <= s.len(),
        !s[i],
    ensures
        count_true(s.update(i, true), n) == count_true(s, n) + if i < n {
            1int
        } else {
            0int
        },
    decreases n,
{
    if n > 0 {
        lemma_count_true_update(s, i, n - 1);
    }
}

/// The termination measure of a flood fill: every visit of an unmarked cell
/// pushes at most four neighbours while marking one cell for good.
pub open spec fn trace_measure(visited: Seq<bool>, stack: Seq<(u32, u32)>) -> int {
    5 * (visited.len() - count_true(visited, visited.len() as int)) + stack.len()
}

/// The neighbour `(nx, ny)`, as a pushable singleton, when it lies in the
/// grid, is not yet visited, and its gradient magnitude reaches the
/// threshold; empty otherwise.
pub open spec fn maybe_neighbor(
    img: GrayBuf,
    threshold: u8,
    visited: Seq<bool>,
    nx: int,
    ny: int,
) -> Seq<(u32, u32)> {
    if 0 <= nx < img.width && 0 <= ny < img.height && !visited[ny * img.width + nx]
        && img.spec_at(nx, ny) >= threshold {
        seq![(nx as u32, ny as u32)]
    } else {
        Seq::empty()
    }
}

/// The four-neighbour pushes of `(x, y)`, in the order the tracer makes
/// them: left, right, up, down.
pub open spec fn neighbor_pushes(
    img: GrayBuf,
    threshold: u8,
    visited: Seq<bool>,
    x: int,
    y: int,
) -> Seq<(u32, u32)> {
    maybe_neighbor(img, threshold, visited, x - 1, y) + maybe_neighbor(
        img,
        threshold,
        visited,
        x + 1,
        y,
    ) + maybe_neighbor(img, threshold, visited, x, y - 1) + maybe_neighbor(
        img,
        threshold,
        visited,
        x,
        y + 1,
    )
}

/// One connected component traced depth-first from the pending stack: cells
/// are popped, marked, appended to the component in visitation order, and
/// their qualifying neighbours pushed, until the stack empties or the
/// component exceeds the point cap. Returns the visited marks and the
/// component's points.
pub open spec fn spec_trace(
    img: GrayBuf,
    threshold: u8,
    visited: Seq<bool>,
    stack: Seq<(u32, u32)>,
    acc: Seq<(u32, u32)>,
) -> (Seq<bool>, Seq<(u32, u32)>)
    decreases trace_measure(visited, stack),
    when visited.len() == img.width * img.height
    via spec_trace_decreases
{
    if stack.len() == 0 {
        (visited, acc)
    } else {
        let p = stack.last();
        let rest = stack.drop_last();
        let x = p.0 as int;
        let y = p.1 as int;
        if x >= img.width || y >= img.height || visited[y * img.width + x] {
            spec_trace(img, threshold, visited, rest, acc)
        } else {
            let visited2 = visited.update(y * img.width + x, true);
            let acc2 = acc.push((p.0, p.1));
            let stack2 = rest + neighbor_pushes(img, threshold, visited2, x, y);
            if acc2.len() > COMPONENT_POINT_CAP {
                (visited2, acc2)
            } else {
                spec_trace(img, threshold, visited2, stack2, acc2)
            }
        }
    }
}

#[via_fn]
proof fn spec_trace_decreases(
    img: GrayBuf,
    threshold: u8,
    visited: Seq<bool>,
    stack: Seq<(u32, u32)>,
    acc: Seq<(u32, u32)>,
) {
    let n = visited.len() as int;
    lemma_count_true_bounds(visited, n);
    if stack.len() > 0 {
        let p = stack.last();
        let x = p.0 as int;
        let y = p.1 as int;
        if !(x >= img.width || y >= img.height || visited[y * img.width + x]) {
            let idx = y * img.width + x;
            assert(0 <= idx < visited.len()) by (nonlinear_arith)
                requires
                    0 <= x < img.width,
                    0 <= y < img.height,
                    idx == y * img.width + x,
                    visited.len() == img.width * img.height,
            ;
            let visited2 = visited.update(idx, true);
            lemma_count_true_update(visited, idx, n);
            lemma_count_true_bounds(visited2, n);
        }
    }
}

/// The neighbour lies in the grid, is unvisited, and reaches the threshold.
fn neighbor_qualifies(mag: &GrayBuf, visited: &Vec<bool>, nx: u32, ny: u32, threshold: u8) -> (r:
    bool)
    requires
        mag.wf(),
        visited@.len() == mag.width * mag.height,
        nx < mag.width,
        ny < mag.height,
    ensures
        r == (!visited@[(ny as int) * mag.width + nx] && mag.spec_at(nx as int, ny as int)
            >= threshold),
{
    proof {
        crate::buffer::lemma_pixel_index_bound(
            nx as int,
            ny as int,
            mag.width as int,
            mag.height as int,
        );
        assert(visited.len() == visited@.len());
    }
    let nidx: usize = (ny as usize) * (mag.width as usize) + (nx as usize);
    !visited[nidx] && mag.at(nx, ny) >= threshold
}

/// Traces one connected edge component depth-first from
/// `(start_x, start_y)` over 4-connected neighbours whose magnitude reaches
/// `threshold`, marking cells visited and appending points in visitation
/// order; expansion stops once the component exceeds the point cap.
pub fn trace_edge(
    mag: &GrayBuf,
    visited: &mut Vec<bool>,
    start_x: u32,
    start_y: u32,
    threshold: u8,
) -> (edge: Vec<EdgePoint>)
    requires
        mag.wf(),
        old(visited)@.len() == mag.width * mag.height,
        start_x < mag.width,
        start_y < mag.height,
    ensures
        final(visited)@.len() == old(visited)@.len(),
        ({
            let r = spec_trace(
                *mag,
                threshold,
                old(visited)@,
                seq![(start_x, start_y)],
                Seq::empty(),
            );
            &&& final(visited)@ == r.0
            &&& edge@.len() == r.1.len()
            &&& (forall|i: int|
                0 <= i < edge@.len() ==> edge@[i].x == r.1[i].0 && edge@[i].y == r.1[i].1)
            &&& (forall|i: int|
                0 <= i < edge@.len() ==> edge@[i].x < mag.width && edge@[i].y < mag.height)
            &&& edge@.len() <= 1 + COMPONENT_POINT_CAP
        }),
{
    let w = mag.width;
    let h = mag.height;
    let ghost target = spec_trace(
        *mag,
        threshold,
        old(visited)@,
        seq![(start_x, start_y)],
        Seq::empty(),
    );
    let mut stack: Vec<(u32, u32)> = Vec::new();
    stack.push((start_x, start_y));
    let mut edge: Vec<EdgePoint> = Vec::new();
    let ghost mut acc: Seq<(u32, u32)> = Seq::empty();
    proof {
        assert(stack@ =~= seq![(start_x, start_y)]);
    }
    while stack.len() != 0
        invariant_except_break
            mag.wf(),
            w == mag.width,
            h == mag.height,
            visited@.len() == w * h,
            forall|i: int| 0 <= i < stack@.len() ==> stack@[i].0 < w && stack@[i].1 < h,
            edge@.len() == acc.len(),
            forall|i: int| 0 <= i < acc.len() ==> edge@[i].x == acc[i].0 && edge@[i].y == acc[i].1,
            forall|i: int| 0 <= i < acc.len() ==> acc[i].0 < w && acc[i].1 < h,
            acc.len() <= COMPONENT_POINT_CAP,
            spec_trace(*mag, threshold, visited@, stack@, acc) == target,
        ensures
            mag.wf(),
            w == mag.width,
            h == mag.height,
            visited@.len() == w * h,
            edge@.len() == acc.len(),
            forall|i: int| 0 <= i < acc.len() ==> edge@[i].x == acc[i].0 && edge@[i].y == acc[i].1,
            forall|i: int| 0 <= i < acc.len() ==> acc[i].0 < w && acc[i].1 < h,
            acc.len() <= 1 + COMPONENT_POINT_CAP,
            (visited@, acc) == target,
        decreases trace_measure(visited@, stack@),
    {
        let ghost stack_pre = stack@;
        let ghost visited_pre = visited@;
        let p = stack.pop().unwrap();
        let x = p.0;
        let y = p.1;
        proof {
            crate::buffer::lemma_pixel_index_bound(x as int, y as int, w as int, h as int);
            assert(visited.len() == visited@.len());
            lemma_count_true_bounds(visited@, visited@.len() as int);
        }
        let idx: usize = (y as usize) * (w as usize) + (x as usize);
        if visited[idx] {
            proof {
                assert(spec_trace(*mag, threshold, visited@, stack_pre, acc) == spec_trace(
                    *mag,
                    threshold,
                    visited@,
                    stack@,
                    acc,
                ));
            }
            continue;
        }
        visited.set(idx, true);
        edge.push(EdgePoint { x, y });
        let ghost acc_pre = acc;
        proof {
            acc = acc.push((x, y));
            lemma_count_true_update(visited_pre, idx as int, visited_pre.len() as int);
            lemma_count_true_bounds(visited@, visited@.len() as int);
        }
        let ghost rest = stack@;
        let ghost n1 = maybe_neighbor(*mag, threshold, visited@, x as int - 1, y as int);
        let ghost n2 = maybe_neighbor(*mag, threshold, visited@, x as int + 1, y as int);
        let ghost n3 = maybe_neighbor(*mag, threshold, visited@, x as int, y as int - 1);
        let ghost n4 = maybe_neighbor(*mag, threshold, visited@, x as int, y as int + 1);
        if x > 0 && neighbor_qualifies(mag, visited, x - 1, y, threshold) {
            stack.push((x - 1, y));
        }
        proof {
            assert(stack@ =~= rest + n1);
        }
        let ghost s1 = stack@;
        if x + 1 < w && neighbor_qualifies(mag, visited, x + 1, y, threshold) {
            stack.push((x + 1, y));
        }
        proof {
            assert(stack@ =~= s1 + n2);
        }
        let ghost s2 = stack@;
        if y > 0 && neighbor_qualifies(mag, visited, x, y - 1, threshold) {
            stack.push((x, y - 1));
        }
        proof {
            assert(stack@ =~= s2 + n3);
        }
        let ghost s3 = stack@;
        if y + 1 < h && neighbor_qualifies(mag, visited, x, y + 1, threshold) {
            stack.push((x, y + 1));
        }
        proof {
            assert(stack@ =~= s3 + n4);
            assert(stack@ =~= rest + neighbor_pushes(
                *mag,
                threshold,
                visited@,
                x as int,
                y as int,
            ));
            assert(spec_trace(*mag, threshold, visited_pre, stack_pre, acc_pre) == (if acc.len()
                > COMPONENT_POINT_CAP {
                (visited@, acc)
            } else {
                spec_trace(*mag, threshold, visited@, stack@, acc)
            }));
        }
        if edge.len() > COMPONENT_POINT_CAP {
            break;
        }
    }
    proof {
        assert(visited@ == target.0);
        assert(acc == target.1);
        assert forall|i: int| 0 <= i < edge@.len() implies edge@[i].x == target.1[i].0
            && edge@[i].y == target.1[i].1 by {
            assert(edge@[i].x == acc[i].0 && edge@[i].y == acc[i].1);
        }
    }
    edge
}

/// The scan of the gradient map in row-major order, from position `(x, y)`:
/// every unvisited cell at or above the threshold seeds a depth-first trace,
/// and components longer than one point are collected in discovery order.
pub open spec fn spec_extract(
    img: GrayBuf,
    threshold: u8,
    visited: Seq<bool>,
    x: int,
    y: int,
    edges: Seq<Seq<(u32, u32)>>,
) -> Seq<Seq<(u32, u32)>>
    decreases img.height - y, img.width - x,
{
    if y >= img.height {
        edges
    } else if x >= img.width {
        spec_extract(img, threshold, visited, 0, y + 1, edges)
    } else {
        if !visited[y * img.width + x] && img.spec_at(x, y) >= threshold {
            let r = spec_trace(img, threshold, visited, seq![(x as u32, y as u32)], Seq::empty());
            let edges2 = if r.1.len() > 1 {
                edges.push(r.1)
            } else {
                edges
            };
            spec_extract(img, threshold, r.0, x + 1, y, edges2)
        } else {
            spec_extract(img, threshold, visited, x + 1, y, edges)
        }
    }
}

/// The edge components of a gradient map: the scan started on a fresh
/// visited grid.
pub open spec fn spec_edge_components(img: GrayBuf, threshold: u8) -> Seq<Seq<(u32, u32)>> {
    spec_extract(
        img,
        threshold,
        Seq::new((img.width * img.height) as nat, |i: int| false),
        0,
        0,
        Seq::empty(),
    )
}

/// `e` holds exactly the points `p`, coordinate for coordinate.
pub open spec fn points_match(e: Seq<EdgePoint>, p: Seq<(u32, u32)>) -> bool {
    e.len() == p.len() && forall|j: int| 0 <= j < e.len() ==> e[j].x == p[j].0 && e[j].y == p[j].1
}

/// `v` holds exactly the components `s`, point for point.
pub open spec fn edges_match(v: Seq<Vec<EdgePoint>>, s: Seq<Seq<(u32, u32)>>) -> bool {
    v.len() == s.len() && forall|i: int| 0 <= i < v.len() ==> points_match(v[i]@, s[i])
}

/// Every point of every component lies inside the `w` by `h` grid.
pub open spec fn all_points_in(v: Seq<Vec<EdgePoint>>, w: int, h: int) -> bool {
    forall|i: int, j: int|
        0 <= i < v.len() && 0 <= j < v[i]@.len() ==> v[i]@[j].x < w && v[i]@[j].y < h
}

/// Scans the gradient map for connected edge components at or above
/// `threshold`, cooperatively cancellable once every hundred rows.
///
/// Components of a single point are discarded; longer ones are returned in
/// discovery order with points in visitation order, every point inside the
/// image.
pub fn extract_edge_points(mag: &GrayBuf, threshold: u8, flag: &CancelFlag) -> (r: Result<
    Vec<Vec<EdgePoint>>,
    AnalysisError,
>)
    requires
        mag.wf(),
    ensures
        r is Err <==> flag.cancelled && mag.height >= 1,
        r is Err ==> r->Err_0 == AnalysisError::Cancelled,
        r is Ok ==> edges_match(r->Ok_0@, spec_edge_components(*mag, threshold)),
        r is Ok ==> all_points_in(r->Ok_0@, mag.width as int, mag.height as int),
        r is Ok ==> forall|i: int| 0 <= i < r->Ok_0@.len() ==> #[trigger] r->Ok_0@[i]@.len() <= 1
            + COMPONENT_POINT_CAP,
{
    let w = mag.width;
    let h = mag.height;
    proof {
        assert(mag.data.len() == mag.data@.len());
    }
    let total: usize = (w as usize) * (h as usize);
    let mut visited: Vec<bool> = Vec::new();
    while visited.len() < total
        invariant
            visited@.len() <= total,
            forall|k: int| 0 <= k < visited@.len() ==> visited@[k] == false,
        decreases total - visited@.len(),
    {
        visited.push(false);
    }
    proof {
        assert(visited@ =~= Seq::new((w * h) as nat, |i: int| false));
    }
    let ghost target = spec_edge_components(*mag, threshold);
    let mut edges: Vec<Vec<EdgePoint>> = Vec::new();
    let ghost mut gedges: Seq<Seq<(u32, u32)>> = Seq::empty();
    let mut y: u32 = 0;
    while y < h
        invariant
            mag.wf(),
            w == mag.width,
            h == mag.height,
            y <= h,
            y > 0 ==> !flag.cancelled,
            visited@.len() == w * h,
            edges_match(edges@, gedges),
            all_points_in(edges@, w as int, h as int),
            forall|i: int|
                0 <= i < edges@.len() ==> #[trigger] edges@[i]@.len() <= 1 + COMPONENT_POINT_CAP,
            spec_extract(*mag, threshold, visited@, 0, y as int, gedges) == target,
        decreases h - y,
    {
        if y % 100 == 0 && flag.is_set() {
            return Err(AnalysisError::Cancelled);
        }
        let mut x: u32 = 0;
        while x < w
            invariant
                mag.wf(),
                w == mag.width,
                h == mag.height,
                y < h,
                x <= w,
                visited@.len() == w * h,
                edges_match(edges@, gedges),
                all_points_in(edges@, w as int, h as int),
                forall|i: int|
                    0 <= i < edges@.len() ==> #[trigger] edges@[i]@.len() <= 1
                        + COMPONENT_POINT_CAP,
                spec_extract(*mag, threshold, visited@, x as int, y as int, gedges) == target,
            decreases w - x,
        {
            proof {
                crate::buffer::lemma_pixel_index_bound(x as int, y as int, w as int, h as int);
                assert(visited.len() == visited@.len());
            }
            let idx: usize = (y as usize) * (w as usize) + (x as usize);
            if !visited[idx] && mag.at(x, y) >= threshold {
                let ghost v_pre = visited@;
                let ghost g_pre = gedges;
                let ghost r = spec_trace(
                    *mag,
                    threshold,
                    v_pre,
                    seq![(x, y)],
                    Seq::<(u32, u32)>::empty(),
                );
                let edge = trace_edge(mag, &mut visited, x, y, threshold);
                if edge.len() > 1 {
                    edges.push(edge);
                    proof {
                        gedges = gedges.push(r.1);
                    }
                }
                proof {
                    assert(spec_extract(*mag, threshold, v_pre, x as int, y as int, g_pre)
                        == spec_extract(
                        *mag,
                        threshold,
                        visited@,
                        x as int + 1,
                        y as int,
                        gedges,
                    ));
                }
            }
            x = x + 1;
        }
        y = y + 1;
    }
    Ok(edges)
}

/// The global budget on the total number of edge points returned by one
/// peaking request; when it is exceeded, whole minor components are dropped.
pub const GLOBAL_POINT_BUDGET: usize = 10000;

/// The components' point lists.
pub open spec fn views_of(edges: Seq<Vec<EdgePoint>>) -> Seq<Seq<EdgePoint>> {
    edges.map_values(|v: Vec<EdgePoint>| v@)
}

/// The total number of points across all components.
pub open spec fn spec_total_points(edges: Seq<Seq<EdgePoint>>) -> int
    decreases edges.len(),
{
    if edges.len() == 0 {
        0
    } else {
        spec_total_points(edges.drop_last()) + edges.last().len()
    }
}

/// The components kept by the thinning policy when the budget is exceeded:
/// exactly those whose length times the budget reaches twice the total, in
/// their original order and at full length.
pub open spec fn spec_thin(edges: Seq<Seq<EdgePoint>>, total: int, budget: int) -> Seq<
    Seq<EdgePoint>,
>
    decreases edges.len(),
{
    if edges.len() == 0 {
        Seq::empty()
    } else {
        let rest = spec_thin(edges.drop_last(), total, budget);
        if edges.last().len() * budget >= 2 * total {
            rest.push(edges.last())
        } else {
            rest
        }
    }
}

/// Law: thinning never truncates. Every kept component is one of the
/// original components, unchanged; a component is kept exactly when its
/// length times the budget reaches twice the total point count, and every
/// qualifying component is kept.
pub proof fn lemma_thinning_drops_whole_components(
    edges: Seq<Seq<EdgePoint>>,
    total: int,
    budget: int,
)
    ensures
        forall|i: int|
            0 <= i < spec_thin(edges, total, budget).len() ==> (exists|j: int|
                0 <= j < edges.len() && #[trigger] spec_thin(edges, total, budget)[i] == edges[j]),
        forall|i: int|
            0 <= i < spec_thin(edges, total, budget).len() ==> #[trigger] spec_thin(
                edges,
                total,
                budget,
            )[i].len() * budget >= 2 * total,
        forall|j: int|
            0 <= j < edges.len() && #[trigger] edges[j].len() * budget >= 2 * total ==> (exists|
                i: int,
            |
                0 <= i < spec_thin(edges, total, budget).len() && spec_thin(edges, total, budget)[i]
                    == edges[j]),
    decreases edges.len(),
{
    if edges.len() > 0 {
        lemma_thinning_drops_whole_components(edges.drop_last(), total, budget);
        let rest = spec_thin(edges.drop_last(), total, budget);
        let whole = spec_thin(edges, total, budget);
        assert forall|i: int| 0 <= i < whole.len() implies (exists|j: int|
            0 <= j < edges.len() && #[trigger] whole[i] == edges[j]) by {
            if i < rest.len() {
                assert(whole[i] == rest[i]);
                let j = choose|j: int| 0 <= j < edges.drop_last().len() && rest[i]
                    == edges.drop_last()[j];
                assert(edges.drop_last()[j] == edges[j]);
                assert(whole[i] == edges[j]);
            } else {
                assert(whole[i] == edges.last());
                assert(whole[i] == edges[edges.len() - 1]);
            }
        }
        assert forall|j: int|
            0 <= j < edges.len() && #[trigger] edges[j].len() * budget >= 2 * total implies (
        exists|i: int| 0 <= i < whole.len() && whole[i] == edges[j]) by {
            if j == edges.len() - 1 {
                assert(whole[whole.len() - 1] == edges[j]);
            } else {
                assert(edges.drop_last()[j] == edges[j]);
                let i = choose|i: int| 0 <= i < rest.len() && rest[i] == edges.drop_last()[j];
                assert(whole[i] == edges[j]);
            }
        }
    }
}

/// Applies the global point-budget policy: when the components' total point
/// count exceeds the budget, every component whose share would fall below
/// two points is dropped entirely, and all others are kept whole.
pub fn thin_edges(edges: Vec<Vec<EdgePoint>>) -> (r: Vec<Vec<EdgePoint>>)
    requires
        forall|i: int|
            0 <= i < edges@.len() ==> #[trigger] edges@[i]@.len() <= 1 + COMPONENT_POINT_CAP,
    ensures
        spec_total_points(views_of(edges@)) <= GLOBAL_POINT_BUDGET ==> r == edges,
        spec_total_points(views_of(edges@)) > GLOBAL_POINT_BUDGET ==> views_of(r@) == spec_thin(
            views_of(edges@),
            spec_total_points(views_of(edges@)),
            GLOBAL_POINT_BUDGET as int,
        ),
{
    let ghost all = views_of(edges@);
    let n = edges.len();
    let mut total: u128 = 0;
    let mut i: usize = 0;
    while i < n
        invariant
            n == edges@.len(),
            all == views_of(edges@),
            i <= n,
            forall|k: int|
                0 <= k < edges@.len() ==> #[trigger] edges@[k]@.len() <= 1 + COMPONENT_POINT_CAP,
            total == spec_total_points(all.take(i as int)),
            total <= (i as int) * (1 + COMPONENT_POINT_CAP),
        decreases n - i,
    {
        proof {
            assert(all.take(i + 1).drop_last() =~= all.take(i as int));
            assert(all.take(i + 1).last() == all[i as int]);
            assert(all[i as int] == edges@[i as int]@);
            assert(((i as int) + 1) * (1 + COMPONENT_POINT_CAP) == (i as int) * (1
                + COMPONENT_POINT_CAP) + (1 + COMPONENT_POINT_CAP)) by (nonlinear_arith);
            assert((i as int) * (1 + COMPONENT_POINT_CAP) <= usize::MAX as int * 5002)
                by (nonlinear_arith)
                requires
                    0 <= i <= usize::MAX as int,
            ;
            assert(edges[i as int]@.len() == edges@[i as int]@.len());
        }
        let len_i: usize = edges[i].len();
        total = total + (len_i as u128);
        i = i + 1;
    }
    proof {
        assert(all.take(n as int) =~= all);
    }
    if total <= GLOBAL_POINT_BUDGET as u128 {
        return edges;
    }
    let mut kept: Vec<Vec<EdgePoint>> = Vec::new();
    let mut j: usize = 0;
    while j < n
        invariant
            n == edges@.len(),
            all == views_of(edges@),
            j <= n,
            total == spec_total_points(all),
            total > GLOBAL_POINT_BUDGET,
            total <= (n as int) * (1 + COMPONENT_POINT_CAP),
            forall|k: int|
                0 <= k < edges@.len() ==> #[trigger] edges@[k]@.len() <= 1 + COMPONENT_POINT_CAP,
            views_of(kept@) == spec_thin(
                all.take(j as int),
                total as int,
                GLOBAL_POINT_BUDGET as int,
            ),
        decreases n - j,
    {
        proof {
            assert(all.take(j + 1).drop_last() =~= all.take(j as int));
            assert(all.take(j + 1).last() == all[j as int]);
            assert(all[j as int] == edges@[j as int]@);
            assert(edges[j as int]@.len() == edges@[j as int]@.len());
            assert((n as int) * (1 + COMPONENT_POINT_CAP) <= usize::MAX as int * 5002)
                by (nonlinear_arith)
                requires
                    0 <= n <= usize::MAX as int,
            ;
        }
        let len_j: usize = edges[j].len();
        proof {
            assert((len_j as int) * (GLOBAL_POINT_BUDGET as int) <= usize::MAX as int * 10000)
                by (nonlinear_arith)
                requires
                    0 <= len_j <= usize::MAX as int,
                    GLOBAL_POINT_BUDGET == 10000,
            ;
        }
        if (len_j as u128) * (GLOBAL_POINT_BUDGET as u128) >= 2 * total {
            let e = edges[j].clone();
            proof {
                assert(e@ == edges@[j as int]@);
            }
            kept.push(e);
            proof {
                assert(views_of(kept@) =~= spec_thin(
                    all.take(j + 1),
                    total as int,
                    GLOBAL_POINT_BUDGET as int,
                ));
            }
        } else {
            proof {
                assert(views_of(kept@) =~= spec_thin(
                    all.take(j + 1),
                    total as int,
                    GLOBAL_POINT_BUDGET as int,
                ));
            }
        }
        j = j + 1;
    }
    proof {
        assert(all.take(n as int) =~= all);
    }
    kept
}

/// A gradient map everywhere below the threshold seeds no trace, so the
/// scan collects no components.
proof fn lemma_no_edges_below_threshold_scan(
    img: GrayBuf,
    threshold: u8,
    visited: Seq<bool>,
    x: int,
    y: int,
    edges: Seq<Seq<(u32, u32)>>,
)
    requires
        0 <= x,
        0 <= y,
        forall|a: int, b: int|
            0 <= a < img.width && 0 <= b < img.height ==> #[trigger] img.spec_at(a, b) < threshold,
    ensures
        spec_extract(img, threshold, visited, x, y, edges) == edges,
    decreases img.height - y, img.width - x,
{
    if y >= img.height {
    } else if x >= img.width {
        lemma_no_edges_below_threshold_scan(img, threshold, visited, 0, y + 1, edges);
    } else {
        assert(img.spec_at(x, y) < threshold);
        lemma_no_edges_below_threshold_scan(img, threshold, visited, x + 1, y, edges);
    }
}

/// On a uniform grayscale image every Sobel response is zero.
proof fn lemma_uniform_sobel_zero(img: GrayBuf, x: int, y: int)
    requires
        img.wf(),
        forall|p: int, q: int|
            0 <= p < img.data@.len() && 0 <= q < img.data@.len() ==> img.data@[p] == img.data@[q],
    ensures
        crate::sobel::spec_sobel_mag(img, x, y) == 0,
{
    if 1 <= x < img.width - 1 && 1 <= y < img.height - 1 {
        let w = img.width as int;
        let h = img.height as int;
        assert forall|a: int, b: int|
            0 <= a < w && 0 <= b < h implies #[trigger] img.spec_at(a, b) == img.spec_at(x, y) by {
            crate::buffer::lemma_pixel_index_bound(a, b, w, h);
            crate::buffer::lemma_pixel_index_bound(x, y, w, h);
        }
        assert(crate::sobel::spec_sobel_gx(img, x, y) == 0);
        assert(crate::sobel::spec_sobel_gy(img, x, y) == 0);
        assert(crate::sobel::spec_isqrt(0nat) == 0);
    }
}

/// Law: a uniform image has no gradient, so for any threshold of at least
/// one, the edge scan of its Sobel map yields no components at all.
pub proof fn lemma_uniform_image_yields_no_edges(gray: GrayBuf, mag: GrayBuf, threshold: u8)
    requires
        gray.wf(),
        mag.wf(),
        mag.width == gray.width,
        mag.height == gray.height,
        mag.data@ == crate::sobel::spec_sobel_map(gray),
        threshold >= 1,
        forall|p: int, q: int|
            0 <= p < gray.data@.len() && 0 <= q < gray.data@.len() ==> gray.data@[p]
                == gray.data@[q],
    ensures
        spec_edge_components(mag, threshold) == Seq::<Seq<(u32, u32)>>::empty(),
{
    let w = mag.width as int;
    let h = mag.height as int;
    assert forall|a: int, b: int|
        0 <= a < w && 0 <= b < h implies #[trigger] mag.spec_at(a, b) < threshold by {
        crate::buffer::lemma_pixel_index_bound(a, b, w, h);
        let k = b * w + a;
        assert(k % w == a && k / w == b) by (nonlinear_arith)
            requires
                0 <= a < w,
                0 <= b,
                k == b * w + a,
        ;
        assert(mag.spec_at(a, b) == crate::sobel::spec_sobel_map(gray)[k]);
        lemma_uniform_sobel_zero(gray, a, b);
    }
    lemma_no_edges_below_threshold_scan(
        mag,
        threshold,
        Seq::new((mag.width * mag.height) as nat, |i: int| false),
        0,
        0,
        Seq::empty(),
    );
}

} // verus!
