use djdrop::native_circle::{
    circle_origin, clean_dropped_text, draw_arrow, drop_target_supports, panels_position, ring_dot,
    set_pixel,
    CircleAction, DragState, Guid, Point, H, W,
};

#[test]
fn set_pixel_premultiplies_and_clips() {
    let mut px = vec![0u32; (W * H) as usize];
    set_pixel(&mut px, 1, 2, 255, 128, 0, 255);
    assert_eq!(px[(2 * W + 1) as usize], 0xFF_FF_80_00);
    set_pixel(&mut px, 0, 0, 255, 255, 255, 128);
    assert_eq!(px[0], 0x80_80_80_80);
    set_pixel(&mut px, 3, 3, 200, 100, 50, 0);
    assert_eq!(px[(3 * W + 3) as usize], 0);
    let before = px.clone();
    set_pixel(&mut px, -1, 0, 1, 1, 1, 255);
    set_pixel(&mut px, W, 0, 1, 1, 1, 255);
    set_pixel(&mut px, 0, H, 1, 1, 1, 255);
    assert_eq!(px, before);
}

fn pt(x: i32, y: i32) -> Point {
    Point { x, y }
}

#[test]
fn click_without_moving_toggles_panels() {
    let mut s = DragState::new();
    s.button_down(pt(100, 100), pt(10, 10));
    assert_eq!(s.mouse_move(pt(103, 104)), CircleAction::Stay);
    assert_eq!(s.button_up(), CircleAction::TogglePanels);
    assert_eq!(s.button_up(), CircleAction::Stay);
}

#[test]
fn drag_moves_window_and_does_not_toggle() {
    let mut s = DragState::new();
    assert_eq!(s.mouse_move(pt(5, 5)), CircleAction::Stay);
    s.button_down(pt(100, 100), pt(10, 10));
    assert_eq!(s.mouse_move(pt(106, 100)), CircleAction::MoveTo(16, 10));
    assert_eq!(s.mouse_move(pt(101, 99)), CircleAction::MoveTo(11, 9));
    assert_eq!(s.button_up(), CircleAction::Stay);
    assert!(!s.mouse_down && !s.dragging);
}

#[test]
fn placement_of_circle_and_panels() {
    assert_eq!(panels_position(500, 600, 572, 280, 400), pt(292, 200));
    assert_eq!(panels_position(10, 100, 82, 280, 400), pt(0, 0));
    assert_eq!(circle_origin(Some(pt(1920, 1040)), pt(1920, 1080), 72, 72), pt(1836, 956));
    assert_eq!(circle_origin(None, pt(1920, 1080), 108, 108), pt(1800, 912));
}

#[test]
fn dropped_text_is_cleaned() {
    assert_eq!(clean_dropped_text(" https://youtu.be/x \n\0\0"), Some("https://youtu.be/x".to_string()));
    assert_eq!(clean_dropped_text("\0"), None);
    assert_eq!(clean_dropped_text("  \t"), None);
    assert_eq!(clean_dropped_text("a\0b"), Some("a\0b".to_string()));
}

#[test]
fn drop_target_interfaces() {
    let tail = [0xC0, 0, 0, 0, 0, 0, 0, 0x46];
    assert!(drop_target_supports(&Guid { data1: 0, data2: 0, data3: 0, data4: tail }));
    assert!(drop_target_supports(&Guid { data1: 0x122, data2: 0, data3: 0, data4: tail }));
    assert!(!drop_target_supports(&Guid { data1: 0x10E, data2: 0, data3: 0, data4: tail }));
    assert!(!drop_target_supports(&Guid { data1: 0, data2: 0, data3: 0, data4: [0; 8] }));
}

#[test]
fn arrow_is_painted_only_where_the_circle_is() {
    let idx = |x: i32, y: i32| (y * W + x) as usize;
    let mut px = vec![0u32; (W * H) as usize];
    px[idx(36, 33)] = 0xFF_10_20_30;
    px[idx(30, 33)] = 0x80_01_02_03;
    px[idx(36, 42)] = 0xFF_00_00_00;
    px[idx(38, 42)] = 0xFF_00_00_00;
    px[idx(36, 32)] = 0xFF_00_00_00;
    px[idx(44, 33)] = 0x40_00_00_00;
    px[idx(45, 33)] = 0x40_00_00_00;
    draw_arrow(&mut px);
    assert_eq!(px[idx(36, 33)], 0xFF_FF_FF_FF);
    assert_eq!(px[idx(30, 33)], 0x80_80_80_80);
    assert_eq!(px[idx(36, 42)], 0xFF_FF_FF_FF);
    assert_eq!(px[idx(38, 42)], 0xFF_00_00_00);
    assert_eq!(px[idx(36, 32)], 0xFF_00_00_00);
    assert_eq!(px[idx(44, 33)], 0x40_40_40_40);
    assert_eq!(px[idx(45, 33)], 0x40_00_00_00);
    assert_eq!(px[idx(37, 40)], 0);
}

#[test]
fn moves_that_would_overflow_are_recognised() {
    let idle = DragState::new();
    assert!(idle.can_move(pt(i32::MAX, i32::MIN)));
    let mut s = DragState::new();
    s.button_down(pt(0, 0), pt(0, 0));
    assert!(s.can_move(pt(3, 4)));
    assert!(s.can_move(pt(-300, 400)));
    let mut far = DragState::new();
    far.button_down(pt(i32::MIN, 0), pt(0, 0));
    assert!(!far.can_move(pt(i32::MAX, 0)));
    assert!(!far.can_move(pt(0, 0)));
    let mut edge = DragState::new();
    edge.button_down(pt(0, 0), pt(i32::MAX - 5, 0));
    assert!(edge.can_move(pt(3, 0)));
    assert!(!edge.can_move(pt(10, 0)));
}

#[test]
fn ring_dots_only_where_the_circle_is_mostly_opaque() {
    let idx = |x: i32, y: i32| (y * W + x) as usize;
    let mut px = vec![0u32; (W * H) as usize];
    px[idx(10, 10)] = 0xFF_00_00_00;
    px[idx(11, 10)] = 0x81_00_00_00;
    px[idx(12, 10)] = 0x80_00_00_00;
    ring_dot(&mut px, 10, 10, 0x4a, 0xde, 0x80);
    ring_dot(&mut px, 11, 10, 0x4a, 0xde, 0x80);
    ring_dot(&mut px, 12, 10, 0x4a, 0xde, 0x80);
    ring_dot(&mut px, -1, 10, 0x4a, 0xde, 0x80);
    ring_dot(&mut px, 10, H, 0x4a, 0xde, 0x80);
    assert_eq!(px[idx(10, 10)], 0xFF_4a_de_80);
    assert_eq!(px[idx(11, 10)] >> 24, 0x81);
    assert_eq!(px[idx(11, 10)], 0x81_25_70_40);
    assert_eq!(px[idx(12, 10)], 0x80_00_00_00);
}
