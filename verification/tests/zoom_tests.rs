use hoptodesk::zoom::{
    finger_collections, should_install, suppress_wheel, tip_pressed, ValueCap, ZoomGesture,
};

#[test]
fn wheel_is_swallowed_shortly_after_two_fingers() {
    assert!(suppress_wheel(0x020A, 1000, 1100));
    assert!(suppress_wheel(0x020E, 1000, 1249));
    assert!(!suppress_wheel(0x020A, 1000, 1250));
    assert!(!suppress_wheel(0x020A, 0, 10));
    assert!(suppress_wheel(0x020A, 1000, 900));
    assert!(!suppress_wheel(0x0201, 1000, 1100));
}

#[test]
fn zoom_gesture_steps() {
    let mut g = ZoomGesture::new();
    assert_eq!(g.on_zoom(100, true, false), None);
    assert_eq!(g.on_zoom(120, false, false), Some((120, 100)));
    assert_eq!(g.on_zoom(0, false, false), None);
    assert_eq!(g.base, Some(120));
    assert_eq!(g.on_zoom(150, false, true), Some((150, 120)));
    assert_eq!(g.base, None);
    // after the end, the next message only sets a baseline
    assert_eq!(g.on_zoom(90, false, false), None);
    assert_eq!(g.base, Some(90));
}

#[test]
fn tip_switch_is_searched_among_reported_usages() {
    let usages = [0x47u16, 0x42, 0, 0, 0, 0, 0, 0];
    assert!(tip_pressed(&usages, 2));
    assert!(!tip_pressed(&usages, 1));
    assert!(!tip_pressed(&usages, 0));
}

#[test]
fn finger_collections_are_listed_once() {
    let cap = |page: u16, range: bool, usage: u16, coll: u16| ValueCap {
        usage_page: page,
        is_range: range,
        usage,
        link_collection: coll,
    };
    let caps = vec![
        cap(0x01, false, 0x30, 1),
        cap(0x01, false, 0x31, 1),
        cap(0x01, false, 0x30, 2),
        cap(0x01, false, 0x30, 1),
        cap(0x0D, false, 0x30, 3),
        cap(0x01, true, 0x30, 4),
    ];
    assert_eq!(finger_collections(&caps), vec![1, 2]);
    assert!(finger_collections(&vec![]).is_empty());
}

#[test]
fn hooks_install_once_for_real_windows() {
    assert!(should_install(false, false));
    assert!(!should_install(true, false));
    assert!(!should_install(false, true));
}
