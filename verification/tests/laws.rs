use djdrop::analyzer::normalize_bpm;
use djdrop::downloader::record_output_line;
use djdrop::gate::convert_dropbox_url;
use djdrop::native_circle::{draw_arrow, set_pixel, CircleAction, DragState, Point, H, W};
use djdrop::router::{route, DownloadSource};
use djdrop::text::trim;

fn point(x: i32, y: i32) -> Point {
    Point { x, y }
}

#[test]
fn folded_tempo_lands_in_the_range() {
    for bpm in [1u32, 30, 59, 60, 119, 120, 150, 175, 176, 240, 351, 1000] {
        let r = normalize_bpm(bpm, Some(120), Some(240));
        assert!((120..=240).contains(&r), "{} -> {}", bpm, r);
    }
}

#[test]
fn folding_twice_is_folding_once() {
    for bpm in [1u32, 45, 70, 99, 130, 200, 480, 999] {
        let once = normalize_bpm(bpm, Some(100), Some(200));
        assert_eq!(normalize_bpm(once, Some(100), Some(200)), once);
    }
    // A range narrower than an octave is not a fixed point of folding.
    assert_eq!(normalize_bpm(175, Some(120), Some(174)), 87);
    assert_eq!(normalize_bpm(87, Some(120), Some(174)), 174);
}

#[test]
fn tempo_inside_the_range_is_kept() {
    for bpm in [120u32, 121, 174, 175] {
        assert_eq!(normalize_bpm(bpm, Some(120), Some(175)), bpm);
    }
}

#[test]
fn trimming_twice_is_trimming_once() {
    for s in ["  a b  ", "\t\n", "", "x", " \u{3000}y\u{3000} "] {
        assert_eq!(trim(trim(s)), trim(s));
    }
}

#[test]
fn dropbox_links_always_request_the_file() {
    for u in [
        "https://www.dropbox.com/s/abc/t.mp3",
        "https://www.dropbox.com/s/abc/t.mp3?dl=0",
        "https://www.dropbox.com/s/abc/t.mp3?rlkey=k&dl=0",
        "https://www.dropbox.com/s/abc/t.mp3?dl=1",
    ] {
        let out = convert_dropbox_url(u);
        assert!(out.contains("dl=1"), "{}", out);
    }
}

#[test]
fn a_still_press_and_release_toggles() {
    let mut s = DragState::new();
    s.button_down(point(50, 50), point(0, 0));
    assert_eq!(s.button_up(), CircleAction::TogglePanels);
    assert_eq!(s.button_up(), CircleAction::Stay);
}

#[test]
fn a_drag_follows_the_cursor_and_never_toggles() {
    let mut s = DragState::new();
    s.button_down(point(50, 50), point(200, 300));
    assert_eq!(s.mouse_move(point(60, 50)), CircleAction::MoveTo(210, 300));
    assert_eq!(s.mouse_move(point(51, 51)), CircleAction::MoveTo(201, 301));
    assert_eq!(s.button_up(), CircleAction::Stay);
}

#[test]
fn text_that_is_no_link_becomes_a_search_for_itself() {
    for q in ["Daft Punk One More Time", "ftp://example.com/x", "https://example.org/a"] {
        assert_eq!(route(q), DownloadSource::Search(q.to_string()));
    }
}

#[test]
fn the_recorded_path_is_the_last_line_that_is_not_blank() {
    let mut p = String::from("earlier");
    for line in ["", "  ", "\t"] {
        record_output_line(&mut p, line);
    }
    assert_eq!(p, "earlier");
    for line in ["[info] x", " /m/a.mp3 ", "", "/m/b.mp3\r", "   "] {
        record_output_line(&mut p, line);
    }
    assert_eq!(p, "/m/b.mp3");
}

#[test]
fn the_arrow_keeps_every_pixels_alpha() {
    let mut px: Vec<u32> = (0..(W * H) as u32).map(|i| i.wrapping_mul(2_654_435_761)).collect();
    let before = px.clone();
    draw_arrow(&mut px);
    for (a, b) in px.iter().zip(before.iter()) {
        assert_eq!(a >> 24, b >> 24);
        if b >> 24 == 0 {
            assert_eq!(a, b);
        }
    }
    assert_ne!(px, before);
}

#[test]
fn folded_tempo_lands_in_a_range_one_short_of_an_octave() {
    for bpm in [1u32, 59, 60, 119, 120, 200, 239, 240, 241, 478, 479, 1000] {
        let r = normalize_bpm(bpm, Some(120), Some(239));
        assert!((120..=239).contains(&r), "{} -> {}", bpm, r);
    }
}

#[test]
fn a_whole_gesture_follows_the_threshold() {
    // Small moves, then one past the threshold, then back near the start.
    let mut s = DragState::new();
    s.button_down(point(100, 100), point(500, 400));
    assert_eq!(s.mouse_move(point(102, 101)), CircleAction::Stay);
    assert_eq!(s.mouse_move(point(97, 103)), CircleAction::Stay);
    assert_eq!(s.mouse_move(point(106, 100)), CircleAction::MoveTo(506, 400));
    assert_eq!(s.mouse_move(point(101, 100)), CircleAction::MoveTo(501, 400));
    assert_eq!(s.button_up(), CircleAction::Stay);
    assert!(!s.mouse_down && !s.dragging);
    // Only small moves: the release is a click.
    s.button_down(point(10, 10), point(0, 0));
    for c in [point(13, 14), point(7, 6), point(10, 15)] {
        assert_eq!(s.mouse_move(c), CircleAction::Stay);
    }
    assert_eq!(s.button_up(), CircleAction::TogglePanels);
    assert!(!s.mouse_down && !s.dragging);
}

#[test]
fn a_drag_never_runs_without_the_button() {
    let mut s = DragState::new();
    assert_eq!(s.mouse_move(point(1000, 1000)), CircleAction::Stay);
    assert!(!s.dragging);
    s.button_down(point(0, 0), point(0, 0));
    let _ = s.mouse_move(point(50, 50));
    assert!(s.dragging && s.mouse_down);
    let _ = s.button_up();
    let _ = s.mouse_move(point(90, 90));
    assert!(!s.dragging && !s.mouse_down);
}

#[test]
fn written_pixels_are_premultiplied() {
    let mut px = vec![0u32; (W * H) as usize];
    for a in [0u8, 1, 17, 128, 200, 255] {
        for c in [0u8, 1, 100, 254, 255] {
            set_pixel(&mut px, 5, 5, c, 255 - c, c / 2, a);
            let p = px[(5 * W + 5) as usize];
            let alpha = p >> 24;
            assert_eq!(alpha, a as u32);
            for shift in [0, 8, 16] {
                assert!((p >> shift) & 0xFF <= alpha);
            }
        }
    }
}
