use quasar::structs::window::{Border, Rect, Window};

#[test]
fn rect_new_keeps_its_fields() {
    let r = Rect::new(1, 2, 3, 4);
    assert_eq!(r, Rect { x: 1, y: 2, width: 3, height: 4 });
}

#[test]
fn border_from_width() {
    let b = Border::from(7u16);
    assert_eq!(b.width, 7);
}

#[test]
fn window_new_has_default_border() {
    let area = Rect::new(0, 0, 100, 50);
    let w = Window::new(42, area);
    assert_eq!(w.identifier, 42);
    assert_eq!(w.area, area);
    assert_eq!(w.border.width, 5);
}

#[test]
fn window_resize_changes_only_the_area() {
    let mut w = Window::new(42, Rect::new(0, 0, 100, 50));
    w.resize(Rect::new(5, 6, 7, 8));
    assert_eq!(w.area, Rect::new(5, 6, 7, 8));
    assert_eq!(w.identifier, 42);
    assert_eq!(w.border.width, 5);
}

#[test]
fn geometry_of_no_window_is_empty() {
    assert!(Window::geometry(0, 0, 10, 10, 1920, 1080, 1).is_empty());
}

#[test]
fn geometry_of_one_window_fills_the_area() {
    assert_eq!(Window::geometry(1, 0, 10, 10, 1920, 1080, 1), vec![Rect::new(10, 10, 1920, 1080)]);
}

#[test]
fn geometry_of_two_windows_splits_left_and_right() {
    assert_eq!(
        Window::geometry(2, 0, 10, 10, 1920, 1080, 1),
        vec![Rect::new(10, 10, 960, 1080), Rect::new(970, 10, 960, 1080)]
    );
}

#[test]
fn geometry_of_three_windows_alternates_the_split() {
    assert_eq!(
        Window::geometry(3, 0, 10, 10, 1920, 1080, 1),
        vec![
            Rect::new(10, 10, 960, 1080),
            Rect::new(970, 10, 960, 540),
            Rect::new(970, 550, 960, 540),
        ]
    );
}

#[test]
fn geometry_starting_vertical_splits_top_and_bottom() {
    assert_eq!(
        Window::geometry(2, 1, 0, 0, 100, 80, 1),
        vec![Rect::new(0, 0, 100, 40), Rect::new(0, 40, 100, 40)]
    );
}

#[test]
fn geometry_rounds_odd_sizes_down() {
    assert_eq!(
        Window::geometry(2, 0, 0, 0, 101, 51, 1),
        vec![Rect::new(0, 0, 50, 51), Rect::new(50, 0, 50, 51)]
    );
}

fn disjoint(a: &Rect, b: &Rect) -> bool {
    let (ax, ay, aw, ah) = (a.x as u64, a.y as u64, a.width as u64, a.height as u64);
    let (bx, by, bw, bh) = (b.x as u64, b.y as u64, b.width as u64, b.height as u64);
    ax + aw <= bx || bx + bw <= ax || ay + ah <= by || by + bh <= ay
}

#[test]
fn geometry_tiles_without_overlap_within_the_area() {
    let rects = Window::geometry(7, 0, 10, 10, 1920, 1080, 1);
    assert_eq!(rects.len(), 7);
    for (i, a) in rects.iter().enumerate() {
        assert!(a.x >= 10 && a.y >= 10);
        assert!(a.x + a.width <= 10 + 1920 && a.y + a.height <= 10 + 1080);
        for b in rects.iter().skip(i + 1) {
            assert!(disjoint(a, b));
        }
    }
}

#[test]
fn layout_fits_check_detects_overflow() {
    assert!(quasar::structs::window::layout_fits_check(3, 0, 10, 10, 1920, 1080, 1));
    assert!(!quasar::structs::window::layout_fits_check(
        2,
        0,
        u32::MAX as u64,
        0,
        u32::MAX as u64,
        10,
        1
    ));
}
