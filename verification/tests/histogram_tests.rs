use vdi_engine::buffer::LoadedImage;
use vdi_engine::buffer::RgbBuf;
use vdi_engine::cancel::CancelFlag;
use vdi_engine::cancel::CancelRegistry;
use vdi_engine::error::AnalysisError;
use vdi_engine::histogram::HistogramData;
use vdi_engine::histogram::calculate_histogram;
use vdi_engine::histogram::calculate_luminance_histogram;
use vdi_engine::histogram::calculate_rgb_histogram;
use vdi_engine::histogram::luminance;

fn solid_color_image(width: u32, height: u32, color: (u8, u8, u8)) -> RgbBuf {
    let mut data = Vec::new();
    for _ in 0..(width as usize) * (height as usize) {
        data.push(color.0);
        data.push(color.1);
        data.push(color.2);
    }
    RgbBuf::new(width, height, data)
}

#[test]
fn test_rgb_histogram_for_solid_red() {
    let img = solid_color_image(10, 10, (255, 0, 0));
    let cancel_flag = CancelFlag::new();
    let (hist_r, hist_g, hist_b) = calculate_rgb_histogram(&img, &cancel_flag).unwrap();

    assert_eq!(hist_r[255], 100);
    assert_eq!(hist_r.iter().sum::<u32>(), 100);
    assert_eq!(hist_g.iter().sum::<u32>(), 100);
    assert_eq!(hist_g[0], 100);
    assert_eq!(hist_b.iter().sum::<u32>(), 100);
    assert_eq!(hist_b[0], 100);
}

#[test]
fn test_luminance_histogram_for_gray() {
    let img = solid_color_image(10, 10, (128, 128, 128));
    let cancel_flag = CancelFlag::new();
    let hist_y = calculate_luminance_histogram(&img, &cancel_flag).unwrap();

    let y_value = luminance(128, 128, 128) as usize;
    assert_eq!(y_value, 128);

    assert_eq!(hist_y[128], 100);
    assert_eq!(hist_y.iter().sum::<u32>(), 100);
}

#[test]
fn test_luminance_calculation() {
    let img = solid_color_image(1, 1, (100, 150, 200));
    let cancel_flag = CancelFlag::new();
    let hist_y = calculate_luminance_histogram(&img, &cancel_flag).unwrap();

    let expected_y = luminance(100, 150, 200) as usize;
    assert_eq!(expected_y, 142);
    assert_eq!(hist_y[expected_y], 1);
    assert_eq!(hist_y.iter().sum::<u32>(), 1);
}

#[test]
fn test_histogram_cancellation() {
    let img = solid_color_image(100, 100, (0, 0, 0));
    let cancel_flag = CancelFlag { cancelled: true };

    let rgb_result = calculate_rgb_histogram(&img, &cancel_flag);
    assert!(rgb_result.is_err());

    let lum_result = calculate_luminance_histogram(&img, &cancel_flag);
    assert!(lum_result.is_err());
}

#[test]
fn test_histogram_sum_matches_pixel_count() {
    let mut data = Vec::new();
    for p in 0..(7 * 5) as u32 {
        data.push((p * 11 % 256) as u8);
        data.push((p * 29 % 256) as u8);
        data.push((p * 53 % 256) as u8);
    }
    let img = RgbBuf::new(7, 5, data);
    let flag = CancelFlag::new();
    let (hr, hg, hb) = calculate_rgb_histogram(&img, &flag).unwrap();
    assert_eq!(hr.iter().sum::<u32>(), 35);
    assert_eq!(hg.iter().sum::<u32>(), 35);
    assert_eq!(hb.iter().sum::<u32>(), 35);
    let hy = calculate_luminance_histogram(&img, &flag).unwrap();
    assert_eq!(hy.iter().sum::<u32>(), 35);
}

#[test]
fn test_calculate_histogram_rgb_mode() {
    let mut registry = CancelRegistry::new();
    let img = solid_color_image(10, 10, (255, 0, 0));
    let res = calculate_histogram(
        &mut registry,
        "red.png",
        LoadedImage::Decoded(img),
        "rgb",
        None,
    )
    .unwrap();
    assert_eq!(res.width, 10);
    assert_eq!(res.height, 10);
    assert_eq!(res.histogram_type, "rgb");
    match res.data {
        HistogramData::RGB { r, g, b } => {
            assert_eq!(r[255], 100);
            assert_eq!(g[0], 100);
            assert_eq!(b[0], 100);
        },
        _ => panic!("expected RGB bins"),
    }
    assert_eq!(registry.entries.len(), 0);
}

#[test]
fn test_calculate_histogram_luminance_mode() {
    let mut registry = CancelRegistry::new();
    let img = solid_color_image(10, 10, (128, 128, 128));
    let res = calculate_histogram(
        &mut registry,
        "gray.png",
        LoadedImage::Decoded(img),
        "luminance",
        None,
    )
    .unwrap();
    assert_eq!(res.histogram_type, "luminance");
    match res.data {
        HistogramData::Luminance { y } => {
            assert_eq!(y[128], 100);
        },
        _ => panic!("expected luminance bins"),
    }
}

#[test]
fn test_calculate_histogram_invalid_mode() {
    let mut registry = CancelRegistry::new();
    let img = solid_color_image(2, 2, (0, 0, 0));
    let err = calculate_histogram(
        &mut registry,
        "img.png",
        LoadedImage::Decoded(img),
        "hue",
        None,
    )
    .unwrap_err();
    assert_eq!(err, AnalysisError::InvalidMode("hue".to_string()));
    assert_eq!(registry.entries.len(), 0);
}

#[test]
fn test_calculate_histogram_missing_file() {
    let mut registry = CancelRegistry::new();
    let err = calculate_histogram(&mut registry, "gone.png", LoadedImage::Missing, "rgb", None)
        .unwrap_err();
    assert_eq!(err, AnalysisError::FileNotFound);
    assert_eq!(registry.entries.len(), 0);
}

#[test]
fn test_calculate_histogram_decode_failure() {
    let mut registry = CancelRegistry::new();
    let err = calculate_histogram(
        &mut registry,
        "broken.png",
        LoadedImage::Failed("bad header".to_string()),
        "rgb",
        None,
    )
    .unwrap_err();
    assert_eq!(err, AnalysisError::DecodeFailed("bad header".to_string()));
    assert_eq!(err.message(), "Failed to load image: bad header");
}
