use quasar::event::{Event, Request};
use quasar::quasar::Quasar;

#[test]
fn classic_default_binds_terminal_and_launcher() {
    let q = Quasar::default();
    assert_eq!(q.workspaces.len(), 10);
    assert_eq!(q.workspaces[9].name, "0");
    assert_eq!(q.current_workspace, 0);
    assert_eq!(q.commands.get(&28).map(|s| s.as_str()), Some("alacritty"));
    assert_eq!(q.commands.get(&33).map(|s| s.as_str()), Some("dmenu_run"));
}

#[test]
fn classic_map_adds_and_fills_the_screen() {
    let mut q = Quasar::default();
    let requests = q.handle_event(Event::MapNotify { window: 7 }, 800, 600);
    assert_eq!(
        requests,
        vec![Request::ConfigureWindow { window: 7, x: 0, y: 0, width: 800, height: 600, border_width: None }]
    );
    assert_eq!(q.workspaces[0].windows, vec![7]);
    q.handle_event(Event::MapNotify { window: 7 }, 800, 600);
    assert_eq!(q.workspaces[0].windows, vec![7, 7]);
}

#[test]
fn classic_destroy_removes_everywhere() {
    let mut q = Quasar::default();
    q.handle_event(Event::MapNotify { window: 7 }, 800, 600);
    q.handle_event(Event::MapNotify { window: 8 }, 800, 600);
    assert!(q.handle_event(Event::DestroyNotify { window: 7 }, 800, 600).is_empty());
    assert_eq!(q.workspaces[0].windows, vec![8]);
}

#[test]
fn classic_switch_hides_and_shows() {
    let mut q = Quasar::default();
    q.handle_event(Event::MapNotify { window: 7 }, 800, 600);
    let requests = q.handle_event(Event::KeyPress { keycode: 12 }, 800, 600);
    assert_eq!(requests, vec![Request::UnmapWindow { window: 7 }]);
    assert_eq!(q.current_workspace, 2);
    q.handle_event(Event::MapNotify { window: 9 }, 800, 600);
    let requests = q.change_workspace(0);
    assert_eq!(requests, vec![Request::UnmapWindow { window: 9 }, Request::MapWindow { window: 7 }]);
}

#[test]
fn classic_command_key_spawns() {
    let mut q = Quasar::default();
    let requests = q.handle_event(Event::KeyPress { keycode: 28 }, 800, 600);
    assert_eq!(requests, vec![Request::Spawn("alacritty".to_string())]);
}

#[test]
fn classic_accepts_refuses_missing_workspace() {
    let q = Quasar::default();
    assert!(!q.accepts(Event::KeyPress { keycode: 20 }));
    assert!(q.accepts(Event::KeyPress { keycode: 15 }));
    assert!(q.accepts(Event::KeyPress { keycode: 10 }));
}

#[test]
fn classic_add_then_delete_restores() {
    let mut q = Quasar::default();
    q.handle_event(Event::MapNotify { window: 1 }, 800, 600);
    q.handle_event(Event::MapNotify { window: 2 }, 800, 600);
    q.handle_event(Event::DestroyNotify { window: 2 }, 800, 600);
    assert_eq!(q.workspaces[0].windows, vec![1]);
}

#[test]
fn classic_switching_away_and_back_restores_the_current_workspace() {
    let mut q = Quasar::default();
    q.change_workspace(3);
    q.change_workspace(0);
    assert_eq!(q.current_workspace, 0);
}

#[test]
fn classic_can_change_workspace_checks_range() {
    let q = Quasar::default();
    assert!(q.can_change_workspace(0));
    assert!(q.can_change_workspace(9));
    assert!(!q.can_change_workspace(10));
}
