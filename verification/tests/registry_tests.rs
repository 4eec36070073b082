use vdi_engine::buffer::LoadedImage;
use vdi_engine::buffer::RgbBuf;
use vdi_engine::cancel::CancelFlag;
use vdi_engine::cancel::CancelRegistry;
use vdi_engine::cancel::request_key_string;
use vdi_engine::cancel::u64_to_decimal;
use vdi_engine::peaking::focus_peaking;

#[test]
fn test_u64_to_decimal() {
    assert_eq!(u64_to_decimal(0), "0");
    assert_eq!(u64_to_decimal(7), "7");
    assert_eq!(u64_to_decimal(12345), "12345");
    assert_eq!(u64_to_decimal(u64::MAX), "18446744073709551615");
}

#[test]
fn test_request_key_string() {
    assert_eq!(request_key_string("img.png:128", 4), "img.png:128#4");
}

#[test]
fn test_register_supersedes_same_base_key() {
    let mut reg = CancelRegistry::new();
    let id1 = reg.register("overlay");
    assert!(!reg.is_cancelled(&id1));

    let id2 = reg.register("overlay");
    assert!(reg.is_cancelled(&id1));
    assert!(!reg.is_cancelled(&id2));
    assert_ne!(id1.seq, id2.seq);

    reg.unregister(&id1);
    reg.unregister(&id2);
    assert_eq!(reg.entries.len(), 0);
}

#[test]
fn test_register_different_base_keys_are_independent() {
    let mut reg = CancelRegistry::new();
    let id_a = reg.register("a");
    let id_b = reg.register("b");
    assert!(!reg.is_cancelled(&id_a));
    assert!(!reg.is_cancelled(&id_b));
}

#[test]
fn test_register_supersedes_equal_keys() {
    // the first request's unique key is "job#0"; a later request whose base
    // key equals that whole string supersedes it too
    let mut reg = CancelRegistry::new();
    let id1 = reg.register("job");
    let id2 = reg.register("job#0");
    assert!(reg.is_cancelled(&id1));
    assert!(!reg.is_cancelled(&id2));
}

#[test]
fn test_unregister_is_idempotent() {
    let mut reg = CancelRegistry::new();
    let id = reg.register("once");
    reg.unregister(&id);
    reg.unregister(&id);
    assert_eq!(reg.entries.len(), 0);
    // an identity whose entry is gone counts as cancelled
    assert!(reg.is_cancelled(&id));
}

#[test]
fn test_cancel_flag_is_one_way() {
    let mut flag = CancelFlag::new();
    assert!(!flag.is_set());
    flag.set();
    assert!(flag.is_set());
    flag.set();
    assert!(flag.is_set());
}

#[test]
fn test_coalescing_by_correlation_id() {
    // two peaking requests under one correlation id: each cleans up its
    // registry entry, and the sequence numbers keep increasing
    let mut reg = CancelRegistry::new();
    let img1 = RgbBuf::new(2, 2, vec![0; 12]);
    let img2 = RgbBuf::new(2, 2, vec![0; 12]);
    let r1 = focus_peaking(
        &mut reg,
        "a.png",
        LoadedImage::Decoded(img1),
        10,
        Some("view-1".to_string()),
    );
    assert!(r1.is_ok());
    let r2 = focus_peaking(
        &mut reg,
        "a.png",
        LoadedImage::Decoded(img2),
        10,
        Some("view-1".to_string()),
    );
    assert!(r2.is_ok());
    assert_eq!(reg.entries.len(), 0);
    assert_eq!(reg.counter, 2);
}
