use quasar::event::Request;
use quasar::structs::window::{Rect, Window};
use quasar::structs::workspace::{check_tiling_fits, Layout, Workspace};

fn workspace(ids: &[u32], focused: usize) -> Workspace {
    Workspace {
        windows: ids.iter().map(|id| Window::new(*id, Rect::new(0, 0, 0, 0))).collect(),
        name: "1".to_string(),
        gap: 10,
        focused_window: focused,
    }
}

fn ids(ws: &Workspace) -> Vec<u32> {
    ws.windows.iter().map(|w| w.identifier).collect()
}

#[test]
fn has_window_finds_identifiers() {
    let ws = workspace(&[3, 4], 0);
    assert!(ws.has_window(4));
    assert!(!ws.has_window(5));
}

#[test]
fn focus_down_moves_to_next_and_wraps() {
    let mut ws = workspace(&[1, 2, 3], 1);
    ws.focus_down();
    assert_eq!(ws.focused_window, 2);
    ws.focus_down();
    assert_eq!(ws.focused_window, 0);
}

#[test]
fn focus_up_moves_to_previous_and_wraps() {
    let mut ws = workspace(&[1, 2, 3], 1);
    ws.focus_up();
    assert_eq!(ws.focused_window, 0);
    ws.focus_up();
    assert_eq!(ws.focused_window, 2);
}

#[test]
fn focus_down_then_up_restores_focus() {
    for f in 0..3 {
        let mut ws = workspace(&[1, 2, 3], f);
        ws.focus_down();
        ws.focus_up();
        assert_eq!(ws.focused_window, f);
        ws.focus_up();
        ws.focus_down();
        assert_eq!(ws.focused_window, f);
    }
}

#[test]
fn focus_down_on_empty_workspace_stays_at_zero() {
    let mut ws = workspace(&[], 0);
    ws.focus_down();
    assert_eq!(ws.focused_window, 0);
}

#[test]
fn remove_window_removes_every_copy_and_keeps_order() {
    let mut ws = workspace(&[1, 2, 1, 3], 0);
    ws.remove_window(1);
    assert_eq!(ids(&ws), vec![2, 3]);
    ws.remove_window(9);
    assert_eq!(ids(&ws), vec![2, 3]);
}

#[test]
fn close_focused_window_destroys_it_and_removes_by_focus_index() {
    let mut ws = workspace(&[100, 1, 200], 1);
    let requests = ws.close_focused_window();
    assert_eq!(requests, vec![Request::DestroyWindow { window: 1 }]);
    assert_eq!(ids(&ws), vec![100, 200]);

    let mut ws = workspace(&[100, 200], 1);
    let requests = ws.close_focused_window();
    assert_eq!(requests, vec![Request::DestroyWindow { window: 200 }]);
    assert_eq!(ids(&ws), vec![100, 200]);
}

#[test]
fn resize_places_each_window_and_focuses_one() {
    let mut ws = workspace(&[1, 2], 1);
    assert!(ws.can_resize(1920, 1080));
    let requests = ws.resize(Layout::Quasar, 1920, 1080);
    assert_eq!(
        requests,
        vec![
            Request::ConfigureWindow { window: 1, x: 10, y: 10, width: 930, height: 1050, border_width: Some(5) },
            Request::SetBorderPixel { window: 1, pixel: 0x282828 },
            Request::ConfigureWindow { window: 2, x: 970, y: 10, width: 930, height: 1050, border_width: Some(5) },
            Request::SetBorderPixel { window: 2, pixel: 0xab4642 },
            Request::SetInputFocus { window: 2 },
        ]
    );
    assert_eq!(ws.windows[0].area, Rect::new(10, 10, 960, 1080));
    assert_eq!(ws.windows[1].area, Rect::new(970, 10, 960, 1080));
    assert_eq!(ids(&ws), vec![1, 2]);
    assert_eq!(ws.focused_window, 1);
}

#[test]
fn resize_twice_gives_the_same_areas() {
    let mut ws = workspace(&[1, 2, 3], 0);
    ws.resize(Layout::Quasar, 800, 600);
    let first: Vec<Rect> = ws.windows.iter().map(|w| w.area).collect();
    ws.resize(Layout::Quasar, 800, 600);
    let second: Vec<Rect> = ws.windows.iter().map(|w| w.area).collect();
    assert_eq!(first, second);
}

#[test]
fn resize_of_empty_workspace_sends_nothing() {
    let mut ws = workspace(&[], 0);
    assert!(ws.resize(Layout::Quasar, 1920, 1080).is_empty());
}

#[test]
fn can_resize_refuses_windows_too_small_for_gap_and_border() {
    assert!(workspace(&[1], 0).can_resize(30, 30));
    assert!(!workspace(&[1], 0).can_resize(29, 30));
    assert!(!workspace(&[1, 2], 0).can_resize(50, 1080));
}

#[test]
fn check_tiling_fits_refuses_a_huge_gap() {
    assert!(!check_tiling_fits(u32::MAX, &vec![5], 100, 100));
    assert!(check_tiling_fits(0, &vec![0, 0], 2, 2));
}
