use sway_mirror::surface::SurfaceData;

#[test]
fn resize_twice_is_true_then_false() {
    let mut s = SurfaceData::new(1920, 1080);
    s.configure(2560, 1440);
    assert!(s.resize_if_needed());
    assert_eq!((s.width, s.height), (2560, 1440));
    assert!(!s.resize_if_needed());
    assert_eq!((s.width, s.height), (2560, 1440));
}

#[test]
fn unchanged_size_needs_no_resize() {
    let mut s = SurfaceData::new(1920, 1080);
    assert!(!s.is_configured());
    s.configure(1920, 1080);
    assert!(s.is_configured());
    assert!(!s.resize_if_needed());
}

#[test]
fn zero_configuration_keeps_size() {
    let mut s = SurfaceData::new(1920, 1080);
    s.configure(0, 0);
    assert!(s.is_configured());
    assert_eq!(s.pending_size, (1920, 1080));
    s.configure(0, 720);
    assert_eq!(s.pending_size, (1920, 1080));
    assert!(!s.resize_if_needed());
}

#[test]
fn latest_configuration_wins() {
    let mut s = SurfaceData::new(800, 600);
    s.configure(1024, 768);
    s.configure(1280, 720);
    assert!(s.resize_if_needed());
    assert_eq!((s.width, s.height), (1280, 720));
}
