use std::collections::HashMap;

use vstd::prelude::*;

use crate::event::{Event, Request};
use super::window::{Border, Rect, Window, DEFAULT_BORDER_WIDTH};
use super::workspace::{
    border_widths, border_widths_without, borders, check_tiling_fits, law_remove_window,
    law_resize_requests_focus, other_than, Layout, Workspace, WorkspaceView, FOCUSED_BORDER_PIXEL, UNFOCUSED_BORDER_PIXEL,
};

verus! {

broadcast use vstd::std_specs::hash::group_hash_axioms;

/// What a bound key does to the current workspace.
#[derive(Clone, Copy, Debug, PartialEq, Eq, Structural)]
pub enum Action {
    CloseWindow,
    CycleWindowUp,
    CycleWindowDown,
    Exit,
}

/// The state of the window manager: its workspaces, the one on screen, and
/// its key bindings (keys that start a program, keys that act on the current
/// workspace).
pub struct Quasar {
    pub workspaces: Vec<Workspace>,
    pub current_workspace: usize,
    pub commands: HashMap<u8, String>,
    pub actions: HashMap<u8, Action>,
}

/// The mathematical value of the window manager's state.
pub struct QuasarView {
    pub workspaces: Seq<WorkspaceView>,
    pub current_workspace: usize,
    pub commands: Map<u8, String>,
    pub actions: Map<u8, Action>,
}

impl View for Quasar {
    type V = QuasarView;

    open spec fn view(&self) -> QuasarView {
        QuasarView {
            workspaces: self.workspaces@.map_values(|w: Workspace| w@),
            current_workspace: self.current_workspace,
            commands: self.commands@,
            actions: self.actions@,
        }
    }
}

/// The gap kept around every window.
pub const DEFAULT_GAP: u32 = 10;

/// The first keycode of the row of number keys that select a workspace.
pub const FIRST_WORKSPACE_KEY: u8 = 10;

/// The last keycode handled as a workspace key.
pub const LAST_WORKSPACE_KEY: u8 = 20;

/// The window that a map notification brings in, before it is tiled.
pub open spec fn new_window(identifier: u32, width: u32, height: u32) -> Window {
    Window {
        identifier,
        area: Rect { x: 0, y: 0, width, height },
        border: Border { width: DEFAULT_BORDER_WIDTH },
    }
}

/// The requests that hide the given windows, in order.
pub open spec fn unmap_all(windows: Seq<Window>) -> Seq<Request> {
    windows.map_values(|w: Window| Request::UnmapWindow { window: w.identifier })
}

/// The requests that show the given windows, in order.
pub open spec fn map_all(windows: Seq<Window>) -> Seq<Request> {
    windows.map_values(|w: Window| Request::MapWindow { window: w.identifier })
}

/// What a bound action does to a workspace (`Exit` leaves it alone).
pub open spec fn act(ws: WorkspaceView, action: Action) -> WorkspaceView {
    match action {
        Action::CloseWindow => ws.close_focused_window(),
        Action::CycleWindowUp => ws.focus_up(),
        Action::CycleWindowDown => ws.focus_down(),
        Action::Exit => ws,
    }
}

/// The requests a bound action sends before the workspace is tiled again.
pub open spec fn action_requests(ws: WorkspaceView, action: Action) -> Seq<Request> {
    match action {
        Action::CloseWindow => seq![
            Request::DestroyWindow { window: ws.windows[ws.focused_window as int].identifier },
        ],
        _ => seq![],
    }
}

/// The action can be carried out without a panic or an overflow.
pub open spec fn can_act(ws: WorkspaceView, action: Action) -> bool {
    match action {
        Action::CloseWindow => ws.focused_window < ws.windows.len(),
        Action::CycleWindowUp => ws.can_focus_up(),
        Action::CycleWindowDown => ws.focused_window < usize::MAX,
        Action::Exit => true,
    }
}

impl QuasarView {
    pub open spec fn has_current(self) -> bool {
        self.current_workspace < self.workspaces.len()
    }

    pub open spec fn current(self) -> WorkspaceView {
        self.workspaces[self.current_workspace as int]
    }

    pub open spec fn with_current(self, ws: WorkspaceView) -> QuasarView {
        QuasarView {
            workspaces: self.workspaces.update(self.current_workspace as int, ws),
            ..self
        }
    }

    /// A new window joins the current workspace, unless it is there already,
    /// and takes the focus from the window before it.
    pub open spec fn add_window(self, window: Window) -> QuasarView {
        if self.has_current() && !self.current().has_window(window.identifier) {
            self.with_current(
                WorkspaceView {
                    windows: self.current().windows.push(window),
                    ..self.current()
                }.focus_down(),
            )
        } else {
            self
        }
    }

    pub open spec fn can_add_window(self, window: Window) -> bool {
        self.has_current() && !self.current().has_window(window.identifier)
            ==> self.current().focused_window < usize::MAX
    }

    /// A destroyed window leaves every workspace that held it, and there the
    /// focus moves up.
    pub open spec fn del_window(self, identifier: u32) -> QuasarView {
        QuasarView {
            workspaces: self.workspaces.map_values(
                |w: WorkspaceView|
                    if w.has_window(identifier) {
                        w.remove_window(identifier).focus_up()
                    } else {
                        w
                    },
            ),
            ..self
        }
    }

    pub open spec fn can_del_window(self, identifier: u32) -> bool {
        forall|i: int|
            0 <= i < self.workspaces.len() && #[trigger] self.workspaces[i].has_window(identifier)
                ==> self.workspaces[i].remove_window(identifier).can_focus_up()
    }

    /// Switching to another workspace makes it current and tiles it again.
    pub open spec fn change_workspace(self, idx: usize, width: u32, height: u32) -> QuasarView {
        if self.current_workspace == idx {
            self
        } else {
            QuasarView {
                workspaces: self.workspaces.update(
                    idx as int,
                    self.workspaces[idx as int].resize(width, height),
                ),
                current_workspace: idx,
                ..self
            }
        }
    }

    /// Switching hides the windows of the old workspace, shows those of the
    /// new one, and places them.
    pub open spec fn change_workspace_requests(self, idx: usize, width: u32, height: u32) -> Seq<
        Request,
    > {
        if self.current_workspace == idx {
            seq![]
        } else {
            unmap_all(self.current().windows) + map_all(self.workspaces[idx as int].windows)
                + self.workspaces[idx as int].resize_requests(width, height)
        }
    }

    pub open spec fn can_change_workspace(self, idx: usize, width: u32, height: u32) -> bool {
        self.current_workspace != idx ==> {
            &&& self.has_current()
            &&& idx < self.workspaces.len()
            &&& self.workspaces[idx as int].can_resize(width, height)
        }
    }

    /// The state after an event, the requests it sends, and whether the
    /// window manager stops, on a screen of `width` by `height`.
    pub open spec fn handle_event(self, event: Event, width: u32, height: u32) -> (
        QuasarView,
        Seq<Request>,
        bool,
    ) {
        match event {
            Event::KeyPress { keycode } => {
                if self.commands.contains_key(keycode) {
                    (self, seq![Request::Spawn(self.commands[keycode])], false)
                } else if self.actions.contains_key(keycode) {
                    let action = self.actions[keycode];
                    if action == Action::Exit {
                        (self, seq![], true)
                    } else {
                        let ws = act(self.current(), action);
                        (
                            self.with_current(ws.resize(width, height)),
                            action_requests(self.current(), action) + ws.resize_requests(
                                width,
                                height,
                            ),
                            false,
                        )
                    }
                } else if FIRST_WORKSPACE_KEY <= keycode <= LAST_WORKSPACE_KEY {
                    let idx = (keycode - FIRST_WORKSPACE_KEY) as usize;
                    (
                        self.change_workspace(idx, width, height),
                        self.change_workspace_requests(idx, width, height),
                        false,
                    )
                } else {
                    (self, seq![], false)
                }
            },
            Event::MapNotify { window } => {
                let added = self.add_window(new_window(window, width, height));
                let ws = added.current();
                let tiled = ws.resize(width, height);
                let pixel = if tiled.windows.len() - 1 == tiled.focused_window {
                    FOCUSED_BORDER_PIXEL
                } else {
                    UNFOCUSED_BORDER_PIXEL
                };
                (
                    added.with_current(tiled),
                    ws.resize_requests(width, height).push(
                        Request::SetBorderPixel { window, pixel },
                    ),
                    false,
                )
            },
            Event::DestroyNotify { window } => {
                let removed = self.del_window(window);
                let ws = removed.current();
                (removed.with_current(ws.resize(width, height)), ws.resize_requests(width, height), false)
            },
            Event::Other => (self, seq![], false),
        }
    }

    /// The event can be handled without a panic or an overflow.
    pub open spec fn can_handle(self, event: Event, width: u32, height: u32) -> bool {
        match event {
            Event::KeyPress { keycode } => {
                if self.commands.contains_key(keycode) {
                    true
                } else if self.actions.contains_key(keycode) {
                    let action = self.actions[keycode];
                    &&& self.has_current()
                    &&& can_act(self.current(), action)
                    &&& action != Action::Exit ==> act(self.current(), action).can_resize(
                        width,
                        height,
                    )
                } else if FIRST_WORKSPACE_KEY <= keycode <= LAST_WORKSPACE_KEY {
                    self.can_change_workspace(
                        (keycode - FIRST_WORKSPACE_KEY) as usize,
                        width,
                        height,
                    )
                } else {
                    true
                }
            },
            Event::MapNotify { window } => {
                let w = new_window(window, width, height);
                &&& self.has_current()
                &&& self.can_add_window(w)
                &&& self.add_window(w).current().can_resize(width, height)
            },
            Event::DestroyNotify { window } => {
                &&& self.has_current()
                &&& self.can_del_window(window)
                &&& self.del_window(window).current().can_resize(width, height)
            },
            Event::Other => true,
        }
    }
}

/// The requests that hide (`show == false`) or show the given windows, in order.
fn visibility_requests(windows: &Vec<Window>, show: bool) -> (requests: Vec<Request>)
    ensures
        requests@ == if show {
            map_all(windows@)
        } else {
            unmap_all(windows@)
        },
{
    let mut requests: Vec<Request> = Vec::new();
    let mut i: usize = 0;
    while i < windows.len()
        invariant
            i <= windows@.len(),
            requests@ == if show {
                map_all(windows@.take(i as int))
            } else {
                unmap_all(windows@.take(i as int))
            },
        decreases windows.len() - i,
    {
        let win = windows[i].identifier;
        proof {
            assert(windows@.take(i + 1) =~= windows@.take(i as int).push(windows@[i as int]));
            assert(map_all(windows@.take(i + 1)) =~= map_all(windows@.take(i as int)).push(
                Request::MapWindow { window: win },
            ));
            assert(unmap_all(windows@.take(i + 1)) =~= unmap_all(windows@.take(i as int)).push(
                Request::UnmapWindow { window: win },
            ));
        }
        if show {
            requests.push(Request::MapWindow { window: win });
        } else {
            requests.push(Request::UnmapWindow { window: win });
        }
        i += 1;
    }
    assert(windows@.take(windows@.len() as int) =~= windows@);
    requests
}

/// No window appears twice in the workspace.
pub open spec fn distinct_windows(ws: WorkspaceView) -> bool {
    forall|i: int, j: int|
        0 <= i < j < ws.windows.len() ==> #[trigger] ws.windows[i].identifier
            != #[trigger] ws.windows[j].identifier
}

impl QuasarView {
    /// The current workspace exists and no workspace holds a window twice.
    pub open spec fn well_formed(self) -> bool {
        &&& self.has_current()
        &&& forall|k: int| 0 <= k < self.workspaces.len() ==> #[trigger] distinct_windows(self.workspaces[k])
    }
}

/// Removing a window keeps the others distinct.
proof fn lemma_remove_keeps_distinct(ws: WorkspaceView, identifier: u32)
    requires
        distinct_windows(ws),
    ensures
        distinct_windows(ws.remove_window(identifier)),
    decreases ws.windows.len(),
{
    let s = ws.windows;
    let p = other_than(identifier);
    if s.len() > 0 {
        let t = s.drop_last();
        let last = s.last();
        let wt = WorkspaceView { windows: t, ..ws };
        lemma_remove_keeps_distinct(wt, identifier);
        assert(s =~= t.push(last));
        t.lemma_filter_push(last, p);
        if p(last) {
            let ft = t.filter(p);
            let fs = ft.push(last);
            assert forall|i: int, j: int| 0 <= i < j < fs.len() implies #[trigger] fs[i].identifier
                != #[trigger] fs[j].identifier by {
                if j == fs.len() - 1 {
                    assert(fs[i] == ft[i]);
                    assert(fs[j] == last);
                    assert(ft.contains(ft[i]));
                    t.lemma_filter_contains_rev(p, ft[i]);
                    let k = choose|k: int| 0 <= k < t.len() && t[k] == ft[i];
                    assert(s[k] == t[k]);
                    assert(s[s.len() - 1] == last);
                    assert(ws.windows[k].identifier != ws.windows[s.len() - 1].identifier);
                } else {
                    assert(fs[i] == ft[i] && fs[j] == ft[j]);
                    let wr = wt.remove_window(identifier);
                    assert(distinct_windows(wr));
                    assert(wr.windows == ft);
                    assert(wr.windows[i].identifier != wr.windows[j].identifier);
                }
            }
            assert(ws.remove_window(identifier).windows == fs);
        } else {
            assert(ws.remove_window(identifier).windows == wt.remove_window(identifier).windows);
        }
    } else {
        assert(s.filter(p) =~= s);
    }
}

/// Cycling the focus or tiling the windows keeps the windows distinct.
proof fn lemma_same_identifiers_keep_distinct(a: WorkspaceView, b: WorkspaceView)
    requires
        distinct_windows(a),
        a.windows.len() == b.windows.len(),
        forall|i: int|
            0 <= i < a.windows.len() ==> #[trigger] b.windows[i].identifier
                == a.windows[i].identifier,
    ensures
        distinct_windows(b),
{
    assert forall|i: int, j: int| 0 <= i < j < b.windows.len() implies #[trigger] b.windows[i].identifier
        != #[trigger] b.windows[j].identifier by {
        assert(a.windows[i].identifier != a.windows[j].identifier);
    }
}

/// Every event the window manager accepts keeps its state well formed: the
/// current workspace exists and no workspace holds a window twice.
pub proof fn law_handle_event_keeps_well_formed(q: QuasarView, event: Event, width: u32, height: u32)
    requires
        q.well_formed(),
        q.can_handle(event, width, height),
    ensures
        q.handle_event(event, width, height).0.well_formed(),
{
    let next = q.handle_event(event, width, height).0;
    let cur = q.current_workspace as int;
    match event {
        Event::KeyPress { keycode } => {
            if !q.commands.contains_key(keycode) && q.actions.contains_key(keycode) {
                let action = q.actions[keycode];
                if action != Action::Exit {
                    let ws = q.current();
                    assert(distinct_windows(ws));
                    let acted = act(ws, action);
                    if action == Action::CloseWindow {
                        lemma_remove_keeps_distinct(ws, ws.focused_window as u32);
                    } else {
                        lemma_same_identifiers_keep_distinct(ws, acted);
                    }
                    lemma_same_identifiers_keep_distinct(acted, acted.resize(width, height));
                    assert forall|k: int| 0 <= k < next.workspaces.len() implies #[trigger] distinct_windows(
                        next.workspaces[k],
                    ) by {
                        if k != cur {
                            assert(next.workspaces[k] == q.workspaces[k]);
                        }
                    }
                }
            } else if !q.commands.contains_key(keycode) && FIRST_WORKSPACE_KEY <= keycode
                <= LAST_WORKSPACE_KEY {
                let idx = (keycode - FIRST_WORKSPACE_KEY) as usize;
                if idx != q.current_workspace {
                    let ws = q.workspaces[idx as int];
                    assert(distinct_windows(ws));
                    lemma_same_identifiers_keep_distinct(ws, ws.resize(width, height));
                    assert forall|k: int| 0 <= k < next.workspaces.len() implies #[trigger] distinct_windows(
                        next.workspaces[k],
                    ) by {
                        if k != idx {
                            assert(next.workspaces[k] == q.workspaces[k]);
                        }
                    }
                }
            }
        },
        Event::MapNotify { window } => {
            let w = new_window(window, width, height);
            let added = q.add_window(w);
            let ws = q.current();
            assert(distinct_windows(ws));
            if !ws.has_window(window) {
                let pushed = WorkspaceView { windows: ws.windows.push(w), ..ws };
                assert forall|i: int, j: int| 0 <= i < j < pushed.windows.len() implies
                    #[trigger] pushed.windows[i].identifier
                    != #[trigger] pushed.windows[j].identifier by {
                    if j == ws.windows.len() {
                        assert(pushed.windows[i] == ws.windows[i]);
                    } else {
                        assert(pushed.windows[i] == ws.windows[i]);
                        assert(pushed.windows[j] == ws.windows[j]);
                    }
                }
                lemma_same_identifiers_keep_distinct(pushed, pushed.focus_down());
            }
            assert(distinct_windows(added.current()));
            lemma_same_identifiers_keep_distinct(added.current(), added.current().resize(width, height));
            assert forall|k: int| 0 <= k < next.workspaces.len() implies #[trigger] distinct_windows(
                next.workspaces[k],
            ) by {
                if k != cur {
                    assert(next.workspaces[k] == q.workspaces[k]);
                }
            }
        },
        Event::DestroyNotify { window } => {
            let removed = q.del_window(window);
            assert forall|k: int| 0 <= k < removed.workspaces.len() implies #[trigger] distinct_windows(
                removed.workspaces[k],
            ) by {
                let ws = q.workspaces[k];
                assert(distinct_windows(ws));
                if ws.has_window(window) {
                    lemma_remove_keeps_distinct(ws, window);
                    lemma_same_identifiers_keep_distinct(
                        ws.remove_window(window),
                        ws.remove_window(window).focus_up(),
                    );
                }
            }
            let ws = removed.current();
            assert(distinct_windows(ws));
            lemma_same_identifiers_keep_distinct(ws, ws.resize(width, height));
            assert forall|k: int| 0 <= k < next.workspaces.len() implies #[trigger] distinct_windows(
                next.workspaces[k],
            ) by {
                if k != cur {
                    assert(next.workspaces[k] == removed.workspaces[k]);
                }
            }
        },
        Event::Other => {},
    }
}

/// Adding a window keeps every workspace free of duplicates: a window that
/// the current workspace holds already is not added again.
pub proof fn law_add_window_keeps_distinct(q: QuasarView, window: Window)
    requires
        forall|k: int| 0 <= k < q.workspaces.len() ==> #[trigger] distinct_windows(q.workspaces[k]),
    ensures
        forall|k: int|
            0 <= k < q.workspaces.len() ==> #[trigger] distinct_windows(
                q.add_window(window).workspaces[k],
            ),
{
    let added = q.add_window(window);
    if q.has_current() && !q.current().has_window(window.identifier) {
        let ws = q.current();
        assert(distinct_windows(ws));
        let pushed = WorkspaceView { windows: ws.windows.push(window), ..ws };
        assert forall|i: int, j: int| 0 <= i < j < pushed.windows.len() implies
            #[trigger] pushed.windows[i].identifier
            != #[trigger] pushed.windows[j].identifier by {
            assert(pushed.windows[i] == ws.windows[i]);
            if j < ws.windows.len() {
                assert(pushed.windows[j] == ws.windows[j]);
            }
        }
        lemma_same_identifiers_keep_distinct(pushed, pushed.focus_down());
        assert forall|k: int| 0 <= k < q.workspaces.len() implies #[trigger] distinct_windows(
            added.workspaces[k],
        ) by {
            if k != q.current_workspace {
                assert(added.workspaces[k] == q.workspaces[k]);
            }
        }
    }
}

/// After a window is mapped, the current workspace holds it.
pub proof fn law_mapped_window_is_current(q: QuasarView, window: u32, width: u32, height: u32)
    requires
        q.can_handle(Event::MapNotify { window }, width, height),
    ensures
        q.handle_event(Event::MapNotify { window }, width, height).0.current().has_window(window),
{
    let w = new_window(window, width, height);
    let added = q.add_window(w);
    let ws = q.current();
    if !ws.has_window(window) {
        let pushed = WorkspaceView { windows: ws.windows.push(w), ..ws };
        assert(pushed.windows[ws.windows.len() as int].identifier == window);
    }
    let a = added.current();
    let i = choose|i: int| 0 <= i < a.windows.len() && #[trigger] a.windows[i].identifier == window;
    assert(a.resize(width, height).windows[i].identifier == window);
}

/// The border colour sent for a mapped window is the focused one exactly
/// when the focus of the current workspace is on its last window. A window
/// new to the workspace is appended and the focus moves down by one (from
/// the last window to the first); a window already there changes nothing
/// but its tiling.
pub proof fn law_mapped_window_border(q: QuasarView, window: u32, width: u32, height: u32)
    requires
        q.can_handle(Event::MapNotify { window }, width, height),
    ensures
        ({
            let (s, reqs, exit) = q.handle_event(Event::MapNotify { window }, width, height);
            let old = q.current();
            let c = s.current();
            &&& !exit
            &&& c.windows.len() > 0
            &&& reqs.len() > 0
            &&& reqs.last() == Request::SetBorderPixel {
                window,
                pixel: if c.focused_window == c.windows.len() - 1 {
                    FOCUSED_BORDER_PIXEL
                } else {
                    UNFOCUSED_BORDER_PIXEL
                },
            }
            &&& !old.has_window(window) ==> {
                &&& c.windows.len() == old.windows.len() + 1
                &&& c.windows[c.windows.len() - 1].identifier == window
                &&& c.focused_window == if old.focused_window + 1 >= old.windows.len() + 1 {
                    0
                } else {
                    old.focused_window + 1
                }
            }
            &&& old.has_window(window) ==> {
                &&& c.windows.len() == old.windows.len()
                &&& c.focused_window == old.focused_window
            }
        }),
{
    let w = new_window(window, width, height);
    let old = q.current();
    if !old.has_window(window) {
        let pushed = WorkspaceView { windows: old.windows.push(w), ..old };
        assert(pushed.windows[old.windows.len() as int].identifier == window);
    } else {
        let i = choose|i: int| 0 <= i < old.windows.len() && #[trigger] old.windows[i].identifier == window;
        assert(old.windows.len() > 0);
    }
}

/// After a window is destroyed, the focus of every workspace that held it
/// moves up by one on the windows that remain (from the first to the last);
/// the other workspaces keep their focus. The requests give the input focus to
/// the window now focused on the current workspace.
pub proof fn law_destroy_moves_focus_up(q: QuasarView, window: u32, width: u32, height: u32)
    requires
        q.can_handle(Event::DestroyNotify { window }, width, height),
        forall|k: int| 0 <= k < q.workspaces.len() ==> (#[trigger] q.workspaces[k]).windows.len() <= usize::MAX,
    ensures
        ({
            let (s, reqs, exit) = q.handle_event(Event::DestroyNotify { window }, width, height);
            &&& !exit
            &&& s.current_workspace == q.current_workspace
            &&& forall|k: int|
                0 <= k < q.workspaces.len() ==> {
                    let o = #[trigger] q.workspaces[k];
                    let n = s.workspaces[k];
                    &&& o.has_window(window) ==> n.focused_window == if o.focused_window > 0 {
                        o.focused_window - 1
                    } else {
                        n.windows.len() - 1
                    }
                    &&& !o.has_window(window) ==> n.focused_window == o.focused_window
                }
            &&& s.current().focused_window < s.current().windows.len() ==> reqs.contains(
                Request::SetInputFocus {
                    window: s.current().windows[s.current().focused_window as int].identifier,
                },
            )
        }),
{
    broadcast use vstd::seq_lib::group_filter_ensures;

    let (s, reqs, exit) = q.handle_event(Event::DestroyNotify { window }, width, height);
    let removed = q.del_window(window);
    let cur = q.current_workspace as int;
    assert forall|k: int| 0 <= k < q.workspaces.len() implies {
        let o = #[trigger] q.workspaces[k];
        let n = s.workspaces[k];
        &&& o.has_window(window) ==> n.focused_window == if o.focused_window > 0 {
            o.focused_window - 1
        } else {
            n.windows.len() - 1
        }
        &&& !o.has_window(window) ==> n.focused_window == o.focused_window
    } by {
        let o = q.workspaces[k];
        let r = o.remove_window(window);
        assert(r.windows.len() <= o.windows.len());
        if k != cur {
            assert(s.workspaces[k] == removed.workspaces[k]);
        } else {
            assert(s.workspaces[k] == removed.current().resize(width, height));
        }
    }
    let ws = removed.current();
    law_resize_requests_focus(ws, width, height);
    assert(reqs == ws.resize_requests(width, height));
    assert(s.current() == ws.resize(width, height));
}

/// Switching workspaces keeps every workspace's windows and focus; when it
/// switches to another workspace, its requests hide each window of the old
/// one, show each window of the new one, and give the input focus to the
/// window the new workspace had focused, and to no other.
pub proof fn law_change_workspace_keeps_focus(q: QuasarView, idx: usize, width: u32, height: u32)
    requires
        q.can_change_workspace(idx, width, height),
    ensures
        ({
            let s = q.change_workspace(idx, width, height);
            let reqs = q.change_workspace_requests(idx, width, height);
            &&& s.current_workspace == idx
            &&& s.workspaces.len() == q.workspaces.len()
            &&& forall|k: int|
                0 <= k < q.workspaces.len() ==> {
                    let o = #[trigger] q.workspaces[k];
                    let n = s.workspaces[k];
                    &&& n.focused_window == o.focused_window
                    &&& n.windows.len() == o.windows.len()
                    &&& forall|i: int|
                        0 <= i < o.windows.len() ==> #[trigger] n.windows[i].identifier
                            == o.windows[i].identifier
                }
            &&& idx != q.current_workspace ==> {
                let old = q.current();
                let new = q.workspaces[idx as int];
                &&& forall|i: int|
                    0 <= i < old.windows.len() ==> reqs.contains(
                        Request::UnmapWindow { window: (#[trigger] old.windows[i]).identifier },
                    )
                &&& forall|i: int|
                    0 <= i < new.windows.len() ==> reqs.contains(
                        Request::MapWindow { window: (#[trigger] new.windows[i]).identifier },
                    )
                &&& new.focused_window < new.windows.len() ==> reqs.contains(
                    Request::SetInputFocus {
                        window: new.windows[new.focused_window as int].identifier,
                    },
                )
                &&& forall|j: int|
                    0 <= j < reqs.len() ==> match #[trigger] reqs[j] {
                        Request::SetInputFocus { window } => new.focused_window
                            < new.windows.len() && window == new.windows[new.focused_window as int].identifier,
                        _ => true,
                    }
            }
        }),
{
    if idx != q.current_workspace {
        let s = q.change_workspace(idx, width, height);
        let reqs = q.change_workspace_requests(idx, width, height);
        let old = q.current();
        let new = q.workspaces[idx as int];
        let u = unmap_all(old.windows);
        let m = map_all(new.windows);
        let r = new.resize_requests(width, height);
        law_resize_requests_focus(new, width, height);
        assert(reqs == u + m + r);
        assert forall|i: int| 0 <= i < old.windows.len() implies reqs.contains(
            Request::UnmapWindow { window: (#[trigger] old.windows[i]).identifier },
        ) by {
            assert(reqs[i] == u[i]);
        }
        assert forall|i: int| 0 <= i < new.windows.len() implies reqs.contains(
            Request::MapWindow { window: (#[trigger] new.windows[i]).identifier },
        ) by {
            assert(reqs[u.len() + i] == m[i]);
        }
        if new.focused_window < new.windows.len() {
            let f = Request::SetInputFocus { window: new.windows[new.focused_window as int].identifier };
            let j = choose|j: int| 0 <= j < r.len() && r[j] == f;
            assert(reqs[u.len() + m.len() + j] == f);
        }
        assert forall|j: int| 0 <= j < reqs.len() implies match #[trigger] reqs[j] {
            Request::SetInputFocus { window } => new.focused_window < new.windows.len() && window
                == new.windows[new.focused_window as int].identifier,
            _ => true,
        } by {
            if j < u.len() {
                assert(reqs[j] == u[j]);
            } else if j < u.len() + m.len() {
                assert(reqs[j] == m[j - u.len()]);
            } else {
                assert(reqs[j] == r[j - u.len() - m.len()]);
            }
        }
        assert forall|k: int| 0 <= k < q.workspaces.len() implies {
            let o = #[trigger] q.workspaces[k];
            let n = s.workspaces[k];
            &&& n.focused_window == o.focused_window
            &&& n.windows.len() == o.windows.len()
            &&& forall|i: int|
                0 <= i < o.windows.len() ==> #[trigger] n.windows[i].identifier
                    == o.windows[i].identifier
        } by {}
    }
}

/// After a window is destroyed, no workspace holds it.
pub proof fn law_destroyed_window_is_gone(q: QuasarView, window: u32, width: u32, height: u32)
    requires
        q.can_handle(Event::DestroyNotify { window }, width, height),
    ensures
        forall|k: int|
            0 <= k < q.workspaces.len() ==> !(#[trigger] q.handle_event(
                Event::DestroyNotify { window },
                width,
                height,
            ).0.workspaces[k]).has_window(window),
{
    let next = q.handle_event(Event::DestroyNotify { window }, width, height).0;
    let removed = q.del_window(window);
    assert forall|k: int| 0 <= k < removed.workspaces.len() implies !(#[trigger] removed.workspaces[k]).has_window(
        window,
    ) by {
        let ws = q.workspaces[k];
        if ws.has_window(window) {
            law_remove_window(ws, window);
            let r = ws.remove_window(window);
            if r.focus_up().has_window(window) {
                let f = r.focus_up();
                let i = choose|i: int|
                    0 <= i < f.windows.len() && #[trigger] f.windows[i].identifier == window;
                assert(r.windows[i].identifier == window);
            }
        }
    }
    let cur = q.current_workspace as int;
    let ws = removed.current();
    if ws.resize(width, height).has_window(window) {
        let t = ws.resize(width, height);
        let i = choose|i: int| 0 <= i < t.windows.len() && #[trigger] t.windows[i].identifier == window;
        assert(ws.windows[i].identifier == window);
    }
    assert forall|k: int| 0 <= k < q.workspaces.len() implies !(#[trigger] next.workspaces[k]).has_window(
        window,
    ) by {
        if k != cur {
            assert(next.workspaces[k] == removed.workspaces[k]);
        }
    }
}

/// The names of the ten workspaces, after the number keys that select them.
pub open spec fn default_workspace_names() -> Seq<Seq<char>> {
    seq![
        seq!['1'],
        seq!['2'],
        seq!['3'],
        seq!['4'],
        seq!['5'],
        seq!['6'],
        seq!['7'],
        seq!['8'],
        seq!['9'],
        seq!['0'],
    ]
}

impl Quasar {
    /// The initial state: ten empty workspaces, the first one current, a
    /// terminal and a launcher bound to keys, and the window actions bound to
    /// keys.
    pub fn default() -> (q: Self)
        ensures
            q@.workspaces.len() == 10,
            forall|i: int|
                0 <= i < 10 ==> #[trigger] q@.workspaces[i] == (WorkspaceView {
                    windows: seq![],
                    name: default_workspace_names()[i],
                    gap: DEFAULT_GAP,
                    focused_window: 0,
                }),
            q@.current_workspace == 0,
            q@.well_formed(),
            q@.commands.dom() == set![36u8, 33u8],
            q@.commands[36]@ == "alacritty"@,
            q@.commands[33]@ == "dmenu_run"@,
            q@.actions == map![
                54u8 => Action::CloseWindow,
                45u8 => Action::CycleWindowUp,
                44u8 => Action::CycleWindowDown,
                24u8 => Action::Exit,
            ],
    {
        broadcast use vstd::std_specs::hash::group_hash_axioms;
        let workspace_names = vec!["1", "2", "3", "4", "5", "6", "7", "8", "9", "0"];
        proof {
            reveal_strlit("1");
            reveal_strlit("2");
            reveal_strlit("3");
            reveal_strlit("4");
            reveal_strlit("5");
            reveal_strlit("6");
            reveal_strlit("7");
            reveal_strlit("8");
            reveal_strlit("9");
            reveal_strlit("0");
            assert(forall|i: int|
                0 <= i < 10 ==> #[trigger] workspace_names@[i]@ == default_workspace_names()[i]);
        }

        let mut workspaces: Vec<Workspace> = Vec::new();
        let mut commands: HashMap<u8, String> = HashMap::new();
        let mut actions: HashMap<u8, Action> = HashMap::new();

        commands.insert(36, "alacritty".to_owned());
        commands.insert(33, "dmenu_run".to_owned());

        actions.insert(54, Action::CloseWindow);
        actions.insert(45, Action::CycleWindowUp);
        actions.insert(44, Action::CycleWindowDown);
        actions.insert(24, Action::Exit);

        let mut i: usize = 0;
        while i < workspace_names.len()
            invariant
                workspace_names@.len() == 10,
                forall|k: int| 0 <= k < 10 ==> #[trigger] workspace_names@[k]@ == default_workspace_names()[k],
                i <= 10,
                workspaces@.len() == i,
                forall|j: int|
                    0 <= j < i ==> #[trigger] workspaces@[j]@ == (WorkspaceView {
                        windows: seq![],
                        name: default_workspace_names()[j],
                        gap: DEFAULT_GAP,
                        focused_window: 0,
                    }),
            decreases workspace_names.len() - i,
        {
            let name = workspace_names[i].to_owned();
            workspaces.push(
                Workspace { name, gap: DEFAULT_GAP, windows: Vec::new(), focused_window: 0 },
            );
            i += 1;
        }

        let q = Self { commands, actions, current_workspace: 0, workspaces };
        assert(q@.commands.dom() =~= set![36u8, 33u8]);
        assert forall|k: int| 0 <= k < q@.workspaces.len() implies #[trigger] distinct_windows(q@.workspaces[k]) by {
            assert(q@.workspaces[k].windows.len() == 0);
        }
        assert(q@.actions =~= map![
            54u8 => Action::CloseWindow,
            45u8 => Action::CycleWindowUp,
            44u8 => Action::CycleWindowDown,
            24u8 => Action::Exit,
        ]);
        q
    }

    fn add_window(&mut self, window: Window)
        requires
            old(self)@.can_add_window(window),
        ensures
            final(self)@ == old(self)@.add_window(window),
    {
        let ghost v = self@;
        if self.current_workspace < self.workspaces.len() {
            let cur = self.current_workspace;
            let workspace = &mut self.workspaces[cur];
            if !workspace.has_window(window.identifier) {
                workspace.windows.push(window);
                workspace.focus_down();
            }
            assert(self@.workspaces =~= v.add_window(window).workspaces);
        }
    }

    fn del_window(&mut self, window: u32)
        requires
            old(self)@.can_del_window(window),
        ensures
            final(self)@ == old(self)@.del_window(window),
    {
        let ghost v = self@;
        let ghost target = v.del_window(window);
        let mut i: usize = 0;
        while i < self.workspaces.len()
            invariant
                v.can_del_window(window),
                target == v.del_window(window),
                self.workspaces@.len() == v.workspaces.len(),
                i <= v.workspaces.len(),
                self.current_workspace == v.current_workspace,
                self.commands@ == v.commands,
                self.actions@ == v.actions,
                forall|j: int| 0 <= j < i ==> #[trigger] self.workspaces@[j]@ == target.workspaces[j],
                forall|j: int| i <= j < v.workspaces.len() ==> #[trigger] self.workspaces@[j]@ == v.workspaces[j],
            decreases self.workspaces.len() - i,
        {
            let workspace = &mut self.workspaces[i];
            if workspace.has_window(window) {
                assert(v.workspaces[i as int].has_window(window));
                workspace.remove_window(window);
                workspace.focus_up();
            }
            i += 1;
        }
        assert(self@.workspaces =~= target.workspaces);
    }

    /// Makes workspace `workspace_idx` current: hides the windows of the
    /// current one, shows and tiles those of the new one on a screen of
    /// `width` by `height`, and returns the requests that do so.
    pub fn change_workspace(&mut self, workspace_idx: usize, width: u32, height: u32) -> (requests:
        Vec<Request>)
        requires
            old(self)@.can_change_workspace(workspace_idx, width, height),
        ensures
            final(self)@ == old(self)@.change_workspace(workspace_idx, width, height),
            requests@ == old(self)@.change_workspace_requests(workspace_idx, width, height),
    {
        let ghost v = self@;
        let mut requests: Vec<Request> = Vec::new();
        if self.current_workspace != workspace_idx {
            requests = visibility_requests(&self.workspaces[self.current_workspace].windows, false);
            let mut shown = visibility_requests(&self.workspaces[workspace_idx].windows, true);
            requests.append(&mut shown);
            self.current_workspace = workspace_idx;
            let workspace_new = &mut self.workspaces[workspace_idx];
            let mut placed = workspace_new.resize(Layout::Quasar, width, height);
            requests.append(&mut placed);
            assert(self@.workspaces =~= v.change_workspace(workspace_idx, width, height).workspaces);
        }
        requests
    }

    /// Reacts to an event on a screen of `width` by `height`: updates the
    /// state and returns the requests to send, and whether to stop.
    pub fn handle_event(&mut self, event: Event, width: u32, height: u32) -> (r: (
        Vec<Request>,
        bool,
    ))
        requires
            old(self)@.can_handle(event, width, height),
        ensures
            final(self)@ == old(self)@.handle_event(event, width, height).0,
            r.0@ == old(self)@.handle_event(event, width, height).1,
            r.1 == old(self)@.handle_event(event, width, height).2,
    {
        broadcast use vstd::std_specs::hash::group_hash_axioms;
        let ghost v = self@;
        match event {
            Event::KeyPress { keycode } => {
                match self.commands.get(&keycode) {
                    Some(program) => {
                        return (vec![Request::Spawn(program.clone())], false);
                    },
                    None => {},
                }
                let action = match self.actions.get(&keycode) {
                    Some(a) => Some(*a),
                    None => None,
                };
                match action {
                    Some(action) => {
                        match action {
                            Action::Exit => {
                                return (Vec::new(), true);
                            },
                            _ => {},
                        }
                        let cur = self.current_workspace;
                        assert(self.workspaces@[cur as int]@ == v.current());
                        let workspace = &mut self.workspaces[cur];
                        let mut requests: Vec<Request> = Vec::new();
                        match action {
                            Action::CloseWindow => {
                                requests = workspace.close_focused_window();
                            },
                            Action::CycleWindowUp => workspace.focus_up(),
                            Action::CycleWindowDown => workspace.focus_down(),
                            Action::Exit => {},
                        }
                        let mut placed = workspace.resize(Layout::Quasar, width, height);
                        requests.append(&mut placed);
                        assert(self@.workspaces =~= v.handle_event(event, width, height).0.workspaces);
                        (requests, false)
                    },
                    None => {
                        if FIRST_WORKSPACE_KEY <= keycode && keycode <= LAST_WORKSPACE_KEY {
                            let requests = self.change_workspace(
                                (keycode - FIRST_WORKSPACE_KEY) as usize,
                                width,
                                height,
                            );
                            (requests, false)
                        } else {
                            (Vec::new(), false)
                        }
                    },
                }
            },
            Event::MapNotify { window } => {
                let rect = Rect::new(0, 0, width, height);
                let new = Window::new(window, rect);
                self.add_window(new);
                let ghost added = self@;
                let cur = self.current_workspace;
                assert(self.workspaces@.len() == added.workspaces.len());
                assert(self.workspaces@[cur as int]@ == added.current());
                let workspace = &mut self.workspaces[cur];
                let mut requests = workspace.resize(Layout::Quasar, rect.width, rect.height);
                let pixel = if workspace.windows.len() - 1 == workspace.focused_window {
                    FOCUSED_BORDER_PIXEL
                } else {
                    UNFOCUSED_BORDER_PIXEL
                };
                requests.push(Request::SetBorderPixel { window, pixel });
                assert(self@.workspaces =~= added.with_current(added.current().resize(width, height)).workspaces);
                (requests, false)
            },
            Event::DestroyNotify { window } => {
                self.del_window(window);
                let ghost removed = self@;
                let cur = self.current_workspace;
                assert(self.workspaces@.len() == removed.workspaces.len());
                assert(self.workspaces@[cur as int]@ == removed.current());
                let workspace = &mut self.workspaces[cur];
                let requests = workspace.resize(Layout::Quasar, width, height);
                assert(self@.workspaces =~= removed.with_current(removed.current().resize(width, height)).workspaces);
                (requests, false)
            },
            Event::Other => (Vec::new(), false),
        }
    }

    /// Decides whether `change_workspace` can run: the switch stays put, or
    /// both workspaces exist and the new one can be tiled on the screen.
    pub fn can_change_workspace(&self, workspace_idx: usize, width: u32, height: u32) -> (b: bool)
        ensures
            b == self@.can_change_workspace(workspace_idx, width, height),
    {
        if workspace_idx == self.current_workspace {
            return true;
        }
        if self.current_workspace >= self.workspaces.len() || workspace_idx
            >= self.workspaces.len() {
            return false;
        }
        assert(self.workspaces@[workspace_idx as int]@ == self@.workspaces[workspace_idx as int]);
        self.workspaces[workspace_idx].can_resize(width, height)
    }

    /// Decides whether `handle_event` can run on this event: whether the
    /// event is one on which the window manager neither panics nor overflows.
    pub fn accepts(&self, event: Event, width: u32, height: u32) -> (b: bool)
        ensures
            b == self@.can_handle(event, width, height),
    {
        broadcast use vstd::std_specs::hash::group_hash_axioms;
        let ghost v = self@;
        match event {
            Event::KeyPress { keycode } => {
                if self.commands.contains_key(&keycode) {
                    return true;
                }
                match self.actions.get(&keycode) {
                    Some(action) => {
                        if self.current_workspace >= self.workspaces.len() {
                            return false;
                        }
                        let ws = &self.workspaces[self.current_workspace];
                        assert(ws@ == v.current());
                        match *action {
                            Action::CloseWindow => {
                                if ws.focused_window >= ws.windows.len() {
                                    return false;
                                }
                                let kept = border_widths_without(
                                    &ws.windows,
                                    #[verifier::truncate] (ws.focused_window as u32),
                                );
                                check_tiling_fits(ws.gap, &kept, width, height)
                            },
                            Action::CycleWindowUp => {
                                !(ws.focused_window == 0 && ws.windows.len() == 0)
                                    && ws.can_resize(width, height)
                            },
                            Action::CycleWindowDown => {
                                ws.focused_window < usize::MAX && ws.can_resize(width, height)
                            },
                            Action::Exit => true,
                        }
                    },
                    None => {
                        if FIRST_WORKSPACE_KEY <= keycode && keycode <= LAST_WORKSPACE_KEY {
                            self.can_change_workspace(
                                (keycode - FIRST_WORKSPACE_KEY) as usize,
                                width,
                                height,
                            )
                        } else {
                            true
                        }
                    },
                }
            },
            Event::MapNotify { window } => {
                if self.current_workspace >= self.workspaces.len() {
                    return false;
                }
                let ws = &self.workspaces[self.current_workspace];
                assert(ws@ == v.current());
                if ws.has_window(window) {
                    ws.can_resize(width, height)
                } else {
                    if ws.focused_window == usize::MAX {
                        return false;
                    }
                    let mut widths = border_widths(&ws.windows);
                    widths.push(DEFAULT_BORDER_WIDTH);
                    let ghost w = new_window(window, width, height);
                    assert(widths@ =~= borders(ws@.windows.push(w)));
                    check_tiling_fits(ws.gap, &widths, width, height)
                }
            },
            Event::DestroyNotify { window } => {
                if self.current_workspace >= self.workspaces.len() {
                    return false;
                }
                let mut i: usize = 0;
                while i < self.workspaces.len()
                    invariant
                        v == self@,
                        event == (Event::DestroyNotify { window }),
                        i <= self.workspaces@.len(),
                        forall|j: int|
                            0 <= j < i && #[trigger] v.workspaces[j].has_window(window)
                                ==> v.workspaces[j].remove_window(window).can_focus_up(),
                    decreases self.workspaces.len() - i,
                {
                    let ws = &self.workspaces[i];
                    assert(ws@ == v.workspaces[i as int]);
                    if ws.has_window(window) && ws.focused_window == 0 {
                        let kept = border_widths_without(&ws.windows, window);
                        if kept.len() == 0 {
                            assert(v.workspaces[i as int].has_window(window));
                            assert(v.workspaces[i as int].remove_window(window).windows.len() == 0);
                            assert(!v.can_del_window(window));
                            return false;
                        }
                    }
                    i += 1;
                }
                let ws = &self.workspaces[self.current_workspace];
                assert(ws@ == v.current());
                if ws.has_window(window) {
                    let kept = border_widths_without(&ws.windows, window);
                    check_tiling_fits(ws.gap, &kept, width, height)
                } else {
                    ws.can_resize(width, height)
                }
            },
            Event::Other => true,
        }
    }
}

} // verus!
