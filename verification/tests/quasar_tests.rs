use quasar::event::{Event, Request};
use quasar::structs::quasar::{Action, Quasar};

const FOCUSED: u32 = 0xab4642;
const UNFOCUSED: u32 = 0x282828;

fn ids(q: &Quasar, k: usize) -> Vec<u32> {
    q.workspaces[k].windows.iter().map(|w| w.identifier).collect()
}

fn step(q: &mut Quasar, event: Event) -> (Vec<Request>, bool) {
    assert!(q.accepts(event, 1920, 1080));
    q.handle_event(event, 1920, 1080)
}

#[test]
fn default_has_ten_empty_workspaces_and_bindings() {
    let q = Quasar::default();
    assert_eq!(q.workspaces.len(), 10);
    let names: Vec<&str> = q.workspaces.iter().map(|w| w.name.as_str()).collect();
    assert_eq!(names, vec!["1", "2", "3", "4", "5", "6", "7", "8", "9", "0"]);
    for w in &q.workspaces {
        assert!(w.windows.is_empty());
        assert_eq!(w.gap, 10);
        assert_eq!(w.focused_window, 0);
    }
    assert_eq!(q.current_workspace, 0);
    assert_eq!(q.commands.get(&36).map(|s| s.as_str()), Some("alacritty"));
    assert_eq!(q.commands.get(&33).map(|s| s.as_str()), Some("dmenu_run"));
    assert_eq!(q.commands.len(), 2);
    assert_eq!(q.actions.get(&54), Some(&Action::CloseWindow));
    assert_eq!(q.actions.get(&45), Some(&Action::CycleWindowUp));
    assert_eq!(q.actions.get(&44), Some(&Action::CycleWindowDown));
    assert_eq!(q.actions.get(&24), Some(&Action::Exit));
    assert_eq!(q.actions.len(), 4);
}

#[test]
fn command_key_spawns_its_program() {
    let mut q = Quasar::default();
    let (requests, exit) = step(&mut q, Event::KeyPress { keycode: 36 });
    assert_eq!(requests, vec![Request::Spawn("alacritty".to_string())]);
    assert!(!exit);
}

#[test]
fn exit_key_stops() {
    let mut q = Quasar::default();
    let (requests, exit) = step(&mut q, Event::KeyPress { keycode: 24 });
    assert!(requests.is_empty());
    assert!(exit);
}

#[test]
fn mapping_windows_tiles_them_and_focuses_the_newest() {
    let mut q = Quasar::default();
    let (requests, _) = step(&mut q, Event::MapNotify { window: 100 });
    assert_eq!(
        requests,
        vec![
            Request::ConfigureWindow { window: 100, x: 10, y: 10, width: 1890, height: 1050, border_width: Some(5) },
            Request::SetBorderPixel { window: 100, pixel: FOCUSED },
            Request::SetInputFocus { window: 100 },
            Request::SetBorderPixel { window: 100, pixel: FOCUSED },
        ]
    );
    let (requests, _) = step(&mut q, Event::MapNotify { window: 200 });
    assert_eq!(
        requests,
        vec![
            Request::ConfigureWindow { window: 100, x: 10, y: 10, width: 930, height: 1050, border_width: Some(5) },
            Request::SetBorderPixel { window: 100, pixel: UNFOCUSED },
            Request::ConfigureWindow { window: 200, x: 970, y: 10, width: 930, height: 1050, border_width: Some(5) },
            Request::SetBorderPixel { window: 200, pixel: FOCUSED },
            Request::SetInputFocus { window: 200 },
            Request::SetBorderPixel { window: 200, pixel: FOCUSED },
        ]
    );
    assert_eq!(ids(&q, 0), vec![100, 200]);
    assert_eq!(q.workspaces[0].focused_window, 1);
}

#[test]
fn mapping_a_window_twice_keeps_one_copy() {
    let mut q = Quasar::default();
    step(&mut q, Event::MapNotify { window: 100 });
    step(&mut q, Event::MapNotify { window: 100 });
    assert_eq!(ids(&q, 0), vec![100]);
}

#[test]
fn destroying_a_window_removes_it_and_moves_focus_up() {
    let mut q = Quasar::default();
    step(&mut q, Event::MapNotify { window: 100 });
    step(&mut q, Event::MapNotify { window: 200 });
    let (requests, _) = step(&mut q, Event::DestroyNotify { window: 200 });
    assert_eq!(ids(&q, 0), vec![100]);
    assert_eq!(q.workspaces[0].focused_window, 0);
    assert_eq!(
        requests,
        vec![
            Request::ConfigureWindow { window: 100, x: 10, y: 10, width: 1890, height: 1050, border_width: Some(5) },
            Request::SetBorderPixel { window: 100, pixel: FOCUSED },
            Request::SetInputFocus { window: 100 },
        ]
    );
}

#[test]
fn destroying_the_last_focused_window_is_refused() {
    let mut q = Quasar::default();
    step(&mut q, Event::MapNotify { window: 100 });
    assert!(!q.accepts(Event::DestroyNotify { window: 100 }, 1920, 1080));
}

#[test]
fn destroying_an_unknown_window_changes_nothing() {
    let mut q = Quasar::default();
    step(&mut q, Event::MapNotify { window: 100 });
    let (requests, _) = step(&mut q, Event::DestroyNotify { window: 7 });
    assert_eq!(ids(&q, 0), vec![100]);
    assert_eq!(requests.len(), 3);
}

#[test]
fn cycle_keys_move_the_focus() {
    let mut q = Quasar::default();
    step(&mut q, Event::MapNotify { window: 100 });
    step(&mut q, Event::MapNotify { window: 200 });
    let (requests, exit) = step(&mut q, Event::KeyPress { keycode: 45 });
    assert!(!exit);
    assert_eq!(q.workspaces[0].focused_window, 0);
    assert_eq!(requests[1], Request::SetBorderPixel { window: 100, pixel: FOCUSED });
    assert_eq!(requests[2], Request::SetInputFocus { window: 100 });
    step(&mut q, Event::KeyPress { keycode: 44 });
    assert_eq!(q.workspaces[0].focused_window, 1);
}

#[test]
fn close_key_destroys_the_focused_window() {
    let mut q = Quasar::default();
    step(&mut q, Event::MapNotify { window: 100 });
    step(&mut q, Event::MapNotify { window: 200 });
    let (requests, _) = step(&mut q, Event::KeyPress { keycode: 54 });
    assert_eq!(requests[0], Request::DestroyWindow { window: 200 });
    assert_eq!(requests.len(), 6);
    assert_eq!(ids(&q, 0), vec![100, 200]);
}

#[test]
fn close_key_on_an_empty_workspace_is_refused() {
    let q = Quasar::default();
    assert!(!q.accepts(Event::KeyPress { keycode: 54 }, 1920, 1080));
}

#[test]
fn number_keys_switch_workspaces() {
    let mut q = Quasar::default();
    step(&mut q, Event::MapNotify { window: 100 });
    let (requests, _) = step(&mut q, Event::KeyPress { keycode: 11 });
    assert_eq!(q.current_workspace, 1);
    assert_eq!(requests, vec![Request::UnmapWindow { window: 100 }]);
    let (requests, _) = step(&mut q, Event::KeyPress { keycode: 10 });
    assert_eq!(q.current_workspace, 0);
    assert_eq!(
        requests,
        vec![
            Request::MapWindow { window: 100 },
            Request::ConfigureWindow { window: 100, x: 10, y: 10, width: 1890, height: 1050, border_width: Some(5) },
            Request::SetBorderPixel { window: 100, pixel: FOCUSED },
            Request::SetInputFocus { window: 100 },
        ]
    );
    let (requests, _) = step(&mut q, Event::KeyPress { keycode: 10 });
    assert!(requests.is_empty());
}

#[test]
fn the_key_after_the_last_workspace_is_refused() {
    let q = Quasar::default();
    assert!(!q.accepts(Event::KeyPress { keycode: 20 }, 1920, 1080));
    assert!(q.accepts(Event::KeyPress { keycode: 19 }, 1920, 1080));
}

#[test]
fn change_workspace_directly() {
    let mut q = Quasar::default();
    step(&mut q, Event::MapNotify { window: 5 });
    let requests = q.change_workspace(3, 1920, 1080);
    assert_eq!(requests, vec![Request::UnmapWindow { window: 5 }]);
    assert_eq!(q.current_workspace, 3);
}

#[test]
fn other_keys_and_events_do_nothing() {
    let mut q = Quasar::default();
    assert_eq!(step(&mut q, Event::KeyPress { keycode: 99 }), (vec![], false));
    assert_eq!(step(&mut q, Event::Other), (vec![], false));
}

#[test]
fn too_many_windows_for_the_screen_are_refused() {
    let mut q = Quasar::default();
    let mut window = 1;
    while q.accepts(Event::MapNotify { window }, 1920, 1080) {
        q.handle_event(Event::MapNotify { window }, 1920, 1080);
        window += 1;
    }
    assert!(window > 5);
    assert_eq!(q.workspaces[0].windows.len(), window as usize - 1);
}

#[test]
fn can_change_workspace_checks_range_and_fit() {
    let q = Quasar::default();
    assert!(q.can_change_workspace(0, 1920, 1080));
    assert!(q.can_change_workspace(9, 1920, 1080));
    assert!(!q.can_change_workspace(10, 1920, 1080));
    let mut q = Quasar::default();
    step(&mut q, Event::MapNotify { window: 1 });
    step(&mut q, Event::KeyPress { keycode: 11 });
    assert!(!q.can_change_workspace(0, 20, 20));
    assert!(q.can_change_workspace(0, 1920, 1080));
}

#[test]
fn mapping_distinct_windows_keeps_them_distinct() {
    let mut q = Quasar::default();
    for w in [3, 4, 3, 5, 4] {
        step(&mut q, Event::MapNotify { window: w });
    }
    assert_eq!(ids(&q, 0), vec![3, 4, 5]);
}
