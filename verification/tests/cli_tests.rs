use vdi_engine::cli::LaunchConfig;
use vdi_engine::cli::get_launch_image_path;
use vdi_engine::cli::get_launch_window_mode;
use vdi_engine::cli::parse_bool;
use vdi_engine::cli::parse_close_window_flag;
use vdi_engine::cli::parse_resolution;

#[test]
fn test_parse_bool_true_variants() {
    assert_eq!(parse_bool("true"), Some(true));
    assert_eq!(parse_bool("True"), Some(true));
    assert_eq!(parse_bool("TRUE"), Some(true));
    assert_eq!(parse_bool("1"), Some(true));
    assert_eq!(parse_bool("yes"), Some(true));
}

#[test]
fn test_parse_bool_false_variants() {
    assert_eq!(parse_bool("false"), Some(false));
    assert_eq!(parse_bool("False"), Some(false));
    assert_eq!(parse_bool("FALSE"), Some(false));
    assert_eq!(parse_bool("0"), Some(false));
    assert_eq!(parse_bool("no"), Some(false));
}

#[test]
fn test_parse_bool_invalid() {
    assert_eq!(parse_bool("invalid"), None);
    assert_eq!(parse_bool(""), None);
    assert_eq!(parse_bool("maybe"), None);
}

#[test]
fn test_parse_close_window_flag() {
    assert_eq!(parse_close_window_flag("TRUE", None), Some(true));
    assert_eq!(parse_close_window_flag("FALSE", None), Some(false));
    assert_eq!(parse_close_window_flag("1", None), Some(true));
    assert_eq!(parse_close_window_flag("0", None), Some(false));
    assert_eq!(parse_close_window_flag("CLOSEWINDOW", Some("MAX")), Some(true));
}

#[test]
fn test_parse_close_window_flag_normalizes() {
    assert_eq!(parse_close_window_flag("  close window  ", None), Some(true));
    assert_eq!(parse_close_window_flag("closewindowmax", None), Some(true));
    assert_eq!(parse_close_window_flag("   ", None), None);
    assert_eq!(parse_close_window_flag("open", None), None);
}

#[test]
fn test_default_launch_config() {
    let config = LaunchConfig::default();
    assert!(config.image_path.is_none());
    assert!(config.window_mode.is_none());
    assert!(config.metadata.is_none());
    assert!(config.peaking_enabled.is_none());
    assert!(config.grid_enabled.is_none());
    assert!(config.show_metadata.is_none());
}

#[test]
fn test_parse_resolution_valid() {
    assert_eq!(parse_resolution("1920x1080"), Some((1920, 1080)));
    assert_eq!(parse_resolution("800x600"), Some((800, 600)));
}

#[test]
fn test_parse_resolution_invalid() {
    assert_eq!(parse_resolution("1920"), None);
    assert_eq!(parse_resolution("1920x1080x2"), None);
    assert_eq!(parse_resolution("axb"), None);
    assert_eq!(parse_resolution(""), None);
}

fn strings(args: &[&str]) -> Vec<String> {
    args.iter().map(|a| a.to_string()).collect()
}

#[test]
fn test_from_args_flags() {
    let args = strings(&[
        "viewer",
        "--image",
        "shot.png",
        "--window-mode",
        "FullScreen",
        "--peaking-enabled",
        "true",
        "--grid-pattern",
        "gold",
        "--grid-opacity",
        "0.5",
    ]);
    let exists = vec![false, false, true, false, false, false, false, false, false, false, false];
    let cfg = LaunchConfig::from_args(&args, &exists);
    assert_eq!(cfg.image_path.as_deref(), Some("shot.png"));
    assert_eq!(cfg.window_mode.as_deref(), Some("FullScreen"));
    assert_eq!(cfg.peaking_enabled, Some(true));
    assert_eq!(cfg.grid_pattern.as_deref(), Some("gold"));
    assert_eq!(cfg.grid_opacity.as_deref(), Some("0.5"));
    assert_eq!(cfg.close_existing_windows, None);
}

#[test]
fn test_from_args_missing_image_is_dropped() {
    let args = strings(&["viewer", "--image", "gone.png"]);
    let exists = vec![false, false, false];
    let cfg = LaunchConfig::from_args(&args, &exists);
    assert!(cfg.image_path.is_none());
}

#[test]
fn test_from_args_rejects_unknown_grid_pattern() {
    let args = strings(&["viewer", "--grid-pattern", "5x5"]);
    let exists = vec![false, false, false];
    let cfg = LaunchConfig::from_args(&args, &exists);
    assert!(cfg.grid_pattern.is_none());
}

#[test]
fn test_from_args_positional() {
    let args = strings(&["viewer", "pic.jpg", "800x600", "TRUE"]);
    let exists = vec![false, true, false, false];
    let cfg = LaunchConfig::from_args(&args, &exists);
    assert_eq!(cfg.image_path.as_deref(), Some("pic.jpg"));
    assert_eq!(cfg.window_mode.as_deref(), Some("800x600"));
    assert_eq!(cfg.close_existing_windows, Some(true));
}

#[test]
fn test_launch_getters() {
    let args = strings(&["viewer", "pic.jpg", "Window"]);
    let exists = vec![false, true, false];
    assert_eq!(get_launch_image_path(&args, &exists).as_deref(), Some("pic.jpg"));
    assert_eq!(get_launch_window_mode(&args, &exists).as_deref(), Some("Window"));
    let none_args = strings(&["viewer"]);
    let none_exists = vec![false];
    assert_eq!(get_launch_image_path(&none_args, &none_exists), None);
    assert_eq!(get_launch_window_mode(&none_args, &none_exists), None);
}
