use vdi_engine::buffer::RgbBuf;
use vdi_engine::downsample::DOWNSAMPLE_THRESHOLD;
use vdi_engine::downsample::downsample_if_needed;
use vdi_engine::downsample::scale_back_edges;
use vdi_engine::downsample::ScaleBack;
use vdi_engine::trace::EdgePoint;

fn dummy_image(width: u32, height: u32) -> RgbBuf {
    RgbBuf::new(width, height, vec![0; 3 * width as usize * height as usize])
}

fn scaled_back(value: u32, sb_num: u32, sb_den: u32) -> u32 {
    ((value as u64 * sb_num as u64 + sb_den as u64 / 2) / sb_den as u64) as u32
}

#[test]
fn test_downsample_not_needed() {
    let img = dummy_image(1000, 800);
    let (processed_img, scale) = downsample_if_needed(&img, DOWNSAMPLE_THRESHOLD);
    assert!(scale.is_none());
    assert_eq!((processed_img.width, processed_img.height), (1000, 800));
}

#[test]
fn test_downsample_needed_for_wide_image() {
    let img = dummy_image(3000, 1500);
    let (processed_img, scale) = downsample_if_needed(&img, DOWNSAMPLE_THRESHOLD);

    assert!(scale.is_some());
    let (new_width, new_height) = (processed_img.width, processed_img.height);
    assert!(new_width < 3000);
    assert!(new_height < 1500);
    assert_eq!(new_width, 1920);
}

#[test]
fn test_downsample_needed_for_tall_image() {
    let img = dummy_image(1500, 3000);
    let (processed_img, scale) = downsample_if_needed(&img, DOWNSAMPLE_THRESHOLD);

    assert!(scale.is_some());
    let (new_width, new_height) = (processed_img.width, processed_img.height);
    assert!(new_width < 1500);
    assert!(new_height < 3000);
    assert_eq!(new_height, 1920);
}

#[test]
fn test_scale_back_calculation() {
    let img = dummy_image(4000, 2000);
    let (processed_img, scale) = downsample_if_needed(&img, DOWNSAMPLE_THRESHOLD);
    let (new_width, new_height) = (processed_img.width, processed_img.height);

    let sb = scale.expect("scale factors expected");

    let original_width_restored = scaled_back(new_width, sb.num_x, sb.den_x);
    let original_height_restored = scaled_back(new_height, sb.num_y, sb.den_y);

    assert_eq!(original_width_restored, 4000);
    assert_eq!(original_height_restored, 2000);
}

#[test]
fn test_scale_back_edges_maps_points() {
    let sb = ScaleBack { num_x: 4000, den_x: 1920, num_y: 2000, den_y: 960 };
    let mut edges = vec![vec![
        EdgePoint { x: 0, y: 0 },
        EdgePoint { x: 960, y: 480 },
        EdgePoint { x: 1919, y: 959 },
    ]];
    scale_back_edges(&mut edges, Some(sb));
    assert_eq!(edges[0][0], EdgePoint { x: 0, y: 0 });
    assert_eq!(edges[0][1], EdgePoint { x: 2000, y: 1000 });
    // the right edge rounds up to the original width, clamped into range
    assert_eq!(edges[0][2], EdgePoint { x: 3998, y: 1998 });
    for p in &edges[0] {
        assert!(p.x < 4000 && p.y < 2000);
    }
}

#[test]
fn test_scale_back_edges_without_scale_is_identity() {
    let mut edges = vec![vec![EdgePoint { x: 3, y: 4 }]];
    scale_back_edges(&mut edges, None);
    assert_eq!(edges, vec![vec![EdgePoint { x: 3, y: 4 }]]);
}
