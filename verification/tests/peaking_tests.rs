use vdi_engine::buffer::GrayBuf;
use vdi_engine::buffer::LoadedImage;
use vdi_engine::buffer::RgbBuf;
use vdi_engine::cancel::CancelFlag;
use vdi_engine::cancel::CancelRegistry;
use vdi_engine::error::AnalysisError;
use vdi_engine::peaking::focus_peaking;
use vdi_engine::sobel::apply_sobel_filter;
use vdi_engine::sobel::isqrt_u32;
use vdi_engine::trace::EdgePoint;
use vdi_engine::trace::extract_edge_points;
use vdi_engine::trace::thin_edges;
use vdi_engine::trace::trace_edge;

fn gray_image(width: u32, height: u32, values: &[u8]) -> GrayBuf {
    GrayBuf::new(width, height, values.to_vec())
}

fn solid_rgb(width: u32, height: u32, color: (u8, u8, u8)) -> RgbBuf {
    let mut data = Vec::new();
    for _ in 0..(width as usize) * (height as usize) {
        data.push(color.0);
        data.push(color.1);
        data.push(color.2);
    }
    RgbBuf::new(width, height, data)
}

#[test]
fn test_isqrt_exact_values() {
    assert_eq!(isqrt_u32(0), 0);
    assert_eq!(isqrt_u32(1), 1);
    assert_eq!(isqrt_u32(3), 1);
    assert_eq!(isqrt_u32(4), 2);
    assert_eq!(isqrt_u32(1600), 40);
    assert_eq!(isqrt_u32(1601), 40);
    assert_eq!(isqrt_u32(u32::MAX), 65535);
}

#[test]
fn test_sobel_magnitude_of_vertical_step() {
    // A 3x3 patch whose left column is brighter: gx = -4*step, gy = 0.
    let img = gray_image(3, 3, &[10, 0, 0, 10, 0, 0, 10, 0, 0]);
    let flag = CancelFlag::new();
    let out = apply_sobel_filter(&img, &flag).unwrap();
    // border pixels stay zero; the single interior pixel holds isqrt(1600)
    assert_eq!(out.data, vec![0, 0, 0, 0, 40, 0, 0, 0, 0]);
}

#[test]
fn test_sobel_cancellation() {
    let img = gray_image(4, 4, &[0; 16]);
    let flag = CancelFlag { cancelled: true };
    let r = apply_sobel_filter(&img, &flag);
    assert_eq!(r.unwrap_err(), AnalysisError::Cancelled);
}

#[test]
fn test_extract_cancellation() {
    let img = gray_image(4, 4, &[255; 16]);
    let flag = CancelFlag { cancelled: true };
    let r = extract_edge_points(&img, 10, &flag);
    assert_eq!(r.unwrap_err(), AnalysisError::Cancelled);
}

#[test]
fn test_uniform_image_has_no_edges() {
    let mut registry = CancelRegistry::new();
    let img = solid_rgb(10, 10, (200, 200, 200));
    let res = focus_peaking(&mut registry, "flat.png", LoadedImage::Decoded(img), 50, None)
        .unwrap();
    assert_eq!(res.width, 10);
    assert_eq!(res.height, 10);
    assert!(res.edges.is_empty());
    assert_eq!(registry.entries.len(), 0);
}

#[test]
fn test_trace_edge_follows_component() {
    // A horizontal bright line of three pixels inside a 5x3 map.
    let img = gray_image(
        5,
        3,
        &[
            0, 0, 0, 0, 0,
            0, 9, 9, 9, 0,
            0, 0, 0, 0, 0,
        ],
    );
    let mut visited = vec![false; 15];
    let edge = trace_edge(&img, &mut visited, 1, 1, 5);
    let coords: Vec<(u32, u32)> = edge.iter().map(|p| (p.x, p.y)).collect();
    assert_eq!(coords, vec![(1, 1), (2, 1), (3, 1)]);
    assert!(visited[5 + 1] && visited[5 + 2] && visited[5 + 3]);
}

#[test]
fn test_extract_discards_single_points() {
    // One isolated bright pixel and one pair: only the pair survives.
    let img = gray_image(
        5,
        3,
        &[
            9, 0, 0, 0, 0,
            0, 0, 0, 9, 9,
            0, 0, 0, 0, 0,
        ],
    );
    let flag = CancelFlag::new();
    let edges = extract_edge_points(&img, 5, &flag).unwrap();
    assert_eq!(edges.len(), 1);
    assert_eq!(edges[0].len(), 2);
}

fn straight_edge(len: usize, y: u32) -> Vec<EdgePoint> {
    (0..len).map(|x| EdgePoint { x: x as u32, y }).collect()
}

#[test]
fn test_thinning_below_budget_keeps_everything() {
    let edges = vec![straight_edge(100, 0), straight_edge(3, 1)];
    let kept = thin_edges(edges.clone());
    assert_eq!(kept.len(), 2);
    assert_eq!(kept[0].len(), 100);
    assert_eq!(kept[1].len(), 3);
}

#[test]
fn test_thinning_drops_minor_components_whole() {
    // 4 components of 3000 points and 100 snippets of 2 points:
    // total = 12200 > 10000, so ratio ~ 0.82; the snippets' share
    // 2 * 10000 < 2 * 12200 drops them, the long edges stay untouched.
    let mut edges = Vec::new();
    for y in 0..4 {
        edges.push(straight_edge(3000, y));
    }
    for y in 4..104 {
        edges.push(straight_edge(2, y));
    }
    let kept = thin_edges(edges);
    assert_eq!(kept.len(), 4);
    for e in &kept {
        assert_eq!(e.len(), 3000);
    }
}

#[test]
fn test_focus_peaking_downsamples_oversized_image() {
    // A wide uniform image crosses the downsampling threshold; the result
    // still reports the original size and a uniform picture has no edges.
    let mut registry = CancelRegistry::new();
    let img = solid_rgb(2500, 100, (90, 90, 90));
    let res = focus_peaking(&mut registry, "wide.png", LoadedImage::Decoded(img), 60, None)
        .unwrap();
    assert_eq!((res.width, res.height), (2500, 100));
    assert!(res.edges.is_empty());
}

#[test]
fn test_focus_peaking_missing_file() {
    let mut registry = CancelRegistry::new();
    let err = focus_peaking(&mut registry, "gone.png", LoadedImage::Missing, 100, None)
        .unwrap_err();
    assert_eq!(err, AnalysisError::FileNotFound);
    assert_eq!(err.message(), "File not found");
    assert_eq!(registry.entries.len(), 0);
}

#[test]
fn test_focus_peaking_finds_step_edge() {
    // Left half dark, right half bright: a vertical edge must be reported.
    let mut data = Vec::new();
    for _y in 0..8u32 {
        for x in 0..8u32 {
            let v = if x < 4 { 0 } else { 200 };
            data.push(v);
            data.push(v);
            data.push(v);
        }
    }
    let img = RgbBuf::new(8, 8, data);
    let mut registry = CancelRegistry::new();
    let res = focus_peaking(&mut registry, "step.png", LoadedImage::Decoded(img), 100, None)
        .unwrap();
    assert_eq!((res.width, res.height), (8, 8));
    assert!(!res.edges.is_empty());
    for component in &res.edges {
        assert!(component.len() > 1);
        for p in component {
            assert!(p.x < 8 && p.y < 8);
        }
    }
}
