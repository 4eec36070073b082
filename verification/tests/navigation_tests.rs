use vdi_engine::navigation::get_next_image;
use vdi_engine::navigation::get_previous_image;

fn folder() -> Vec<String> {
    vec!["a.png".to_string(), "b.png".to_string(), "c.png".to_string()]
}

#[test]
fn test_next_image_steps_forward() {
    let images = folder();
    assert_eq!(get_next_image(&images, "a.png", true).as_deref(), Some("b.png"));
    assert_eq!(get_next_image(&images, "b.png", true).as_deref(), Some("c.png"));
}

#[test]
fn test_next_image_wraps_around() {
    let images = folder();
    assert_eq!(get_next_image(&images, "c.png", true).as_deref(), Some("a.png"));
}

#[test]
fn test_previous_image_steps_back_and_wraps() {
    let images = folder();
    assert_eq!(get_previous_image(&images, "b.png", true).as_deref(), Some("a.png"));
    assert_eq!(get_previous_image(&images, "a.png", true).as_deref(), Some("c.png"));
}

#[test]
fn test_navigation_disabled_or_unknown() {
    let images = folder();
    assert_eq!(get_next_image(&images, "a.png", false), None);
    assert_eq!(get_previous_image(&images, "a.png", false), None);
    assert_eq!(get_next_image(&images, "zz.png", true), None);
    let empty: Vec<String> = Vec::new();
    assert_eq!(get_next_image(&empty, "a.png", true), None);
}
