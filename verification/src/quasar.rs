use std::collections::HashMap;

use vstd::prelude::*;

use crate::event::{Event, Request};

verus! {

broadcast use vstd::std_specs::hash::group_hash_axioms;

/// A workspace: the identifiers of its windows, in the order they were mapped.
pub struct Workspace {
    pub windows: Vec<u32>,
    pub name: String,
}

/// The window manager's state: its workspaces, the one on screen, and the
/// programs bound to keys.
pub struct Quasar {
    pub workspaces: Vec<Workspace>,
    pub current_workspace: usize,
    pub commands: HashMap<u8, String>,
}

/// The mathematical value of a workspace.
pub struct WorkspaceView {
    pub windows: Seq<u32>,
    pub name: Seq<char>,
}

/// The mathematical value of the window manager's state.
pub struct QuasarView {
    pub workspaces: Seq<WorkspaceView>,
    pub current_workspace: usize,
    pub commands: Map<u8, String>,
}

impl View for Workspace {
    type V = WorkspaceView;

    open spec fn view(&self) -> WorkspaceView {
        WorkspaceView { windows: self.windows@, name: self.name@ }
    }
}

impl View for Quasar {
    type V = QuasarView;

    open spec fn view(&self) -> QuasarView {
        QuasarView {
            workspaces: self.workspaces@.map_values(|w: Workspace| w@),
            current_workspace: self.current_workspace,
            commands: self.commands@,
        }
    }
}

/// The first keycode of the row of number keys that select a workspace.
pub const FIRST_WORKSPACE_KEY: u8 = 10;

/// The last keycode handled as a workspace key.
pub const LAST_WORKSPACE_KEY: u8 = 20;

/// Keeps the identifiers other than `window`.
pub open spec fn other_than(window: u32) -> spec_fn(u32) -> bool {
    |w: u32| w != window
}

/// The requests that hide the given windows, in order.
pub open spec fn unmap_all(windows: Seq<u32>) -> Seq<Request> {
    windows.map_values(|w: u32| Request::UnmapWindow { window: w })
}

/// The requests that show the given windows, in order.
pub open spec fn map_all(windows: Seq<u32>) -> Seq<Request> {
    windows.map_values(|w: u32| Request::MapWindow { window: w })
}

/// The names of the ten workspaces, after the number keys that select them.
pub open spec fn default_workspace_names() -> Seq<Seq<char>> {
    seq![
        seq!['1'],
        seq!['2'],
        seq!['3'],
        seq!['4'],
        seq!['5'],
        seq!['6'],
        seq!['7'],
        seq!['8'],
        seq!['9'],
        seq!['0'],
    ]
}

impl QuasarView {
    pub open spec fn has_current(self) -> bool {
        self.current_workspace < self.workspaces.len()
    }

    /// A mapped window joins the current workspace, if there is one.
    pub open spec fn add_window(self, window: u32) -> QuasarView {
        if self.has_current() {
            let ws = self.workspaces[self.current_workspace as int];
            QuasarView {
                workspaces: self.workspaces.update(
                    self.current_workspace as int,
                    WorkspaceView { windows: ws.windows.push(window), ..ws },
                ),
                ..self
            }
        } else {
            self
        }
    }

    /// A destroyed window leaves every workspace that held it.
    pub open spec fn del_window(self, window: u32) -> QuasarView {
        QuasarView {
            workspaces: self.workspaces.map_values(
                |ws: WorkspaceView|
                    if ws.windows.contains(window) {
                        WorkspaceView { windows: ws.windows.filter(other_than(window)), ..ws }
                    } else {
                        ws
                    },
            ),
            ..self
        }
    }

    pub open spec fn change_workspace(self, idx: usize) -> QuasarView {
        QuasarView { current_workspace: idx, ..self }
    }

    /// Switching hides the windows of the old workspace and shows those of the new one.
    pub open spec fn change_workspace_requests(self, idx: usize) -> Seq<Request> {
        if self.current_workspace == idx {
            seq![]
        } else {
            unmap_all(self.workspaces[self.current_workspace as int].windows) + map_all(
                self.workspaces[idx as int].windows,
            )
        }
    }

    pub open spec fn can_change_workspace(self, idx: usize) -> bool {
        self.current_workspace != idx ==> self.has_current() && idx < self.workspaces.len()
    }

    /// The state after an event and the requests it sends, on a screen of
    /// `width` by `height`.
    pub open spec fn handle_event(self, event: Event, width: u32, height: u32) -> (
        QuasarView,
        Seq<Request>,
    ) {
        match event {
            Event::KeyPress { keycode } => {
                if self.commands.contains_key(keycode) {
                    (self, seq![Request::Spawn(self.commands[keycode])])
                } else if FIRST_WORKSPACE_KEY <= keycode <= LAST_WORKSPACE_KEY {
                    let idx = (keycode - FIRST_WORKSPACE_KEY) as usize;
                    (self.change_workspace(idx), self.change_workspace_requests(idx))
                } else {
                    (self, seq![])
                }
            },
            Event::MapNotify { window } => (
                self.add_window(window),
                seq![
                    Request::ConfigureWindow {
                        window,
                        x: 0,
                        y: 0,
                        width,
                        height,
                        border_width: None,
                    },
                ],
            ),
            Event::DestroyNotify { window } => (self.del_window(window), seq![]),
            Event::Other => (self, seq![]),
        }
    }

    /// The event can be handled without a panic.
    pub open spec fn can_handle(self, event: Event) -> bool {
        match event {
            Event::KeyPress { keycode } => {
                !self.commands.contains_key(keycode) && FIRST_WORKSPACE_KEY <= keycode
                    <= LAST_WORKSPACE_KEY ==> self.can_change_workspace(
                    (keycode - FIRST_WORKSPACE_KEY) as usize,
                )
            },
            _ => true,
        }
    }
}

/// Deleting a window that was just mapped, and that no workspace held
/// before, gives back the workspaces as they were.
pub proof fn law_delete_undoes_add(q: QuasarView, window: u32)
    requires
        forall|k: int| 0 <= k < q.workspaces.len() ==> !(#[trigger] q.workspaces[k]).windows.contains(window),
    ensures
        q.add_window(window).del_window(window) == q,
{
    broadcast use vstd::seq_lib::group_filter_ensures;

    let added = q.add_window(window);
    let back = added.del_window(window);
    assert forall|k: int| 0 <= k < q.workspaces.len() implies #[trigger] back.workspaces[k]
        == q.workspaces[k] by {
        let ws = q.workspaces[k];
        if q.has_current() && k == q.current_workspace {
            let pushed = ws.windows.push(window);
            assert(pushed[ws.windows.len() as int] == window);
            assert(pushed.contains(window));
            ws.windows.lemma_filter_push(window, other_than(window));
            lemma_filter_keeps_all(ws.windows, window);
        } else {
            assert(added.workspaces[k] == ws);
        }
    }
    assert(back.workspaces =~= q.workspaces);
}

/// Filtering out a window that is not there changes nothing.
proof fn lemma_filter_keeps_all(s: Seq<u32>, window: u32)
    requires
        !s.contains(window),
    ensures
        s.filter(other_than(window)) == s,
    decreases s.len(),
{
    if s.len() > 0 {
        let t = s.drop_last();
        assert(s =~= t.push(s.last()));
        if t.contains(window) {
            let i = choose|i: int| 0 <= i < t.len() && t[i] == window;
            assert(s[i] == window);
        }
        lemma_filter_keeps_all(t, window);
        t.lemma_filter_push(s.last(), other_than(window));
    } else {
        assert(s.filter(other_than(window)) =~= s);
    }
}

/// After a window is destroyed, no workspace holds it.
pub proof fn law_deleted_window_is_gone(q: QuasarView, window: u32)
    ensures
        forall|k: int|
            0 <= k < q.workspaces.len() ==> !(#[trigger] q.del_window(
                window,
            ).workspaces[k]).windows.contains(window),
{
    broadcast use vstd::seq_lib::group_filter_ensures;

    assert forall|k: int| 0 <= k < q.workspaces.len() implies !(#[trigger] q.del_window(
        window,
    ).workspaces[k]).windows.contains(window) by {
        let ws = q.workspaces[k];
        if ws.windows.contains(window) {
            let f = ws.windows.filter(other_than(window));
            if f.contains(window) {
                let i = choose|i: int| 0 <= i < f.len() && f[i] == window;
                assert(other_than(window)(f[i]));
            }
        }
    }
}

/// Switching to a workspace and back to the one before leaves the state as it was.
pub proof fn law_change_workspace_back(q: QuasarView, idx: usize)
    ensures
        q.change_workspace(idx).change_workspace(q.current_workspace) == q,
{
}

/// The requests that hide (`show == false`) or show the given windows, in order.
fn visibility_requests(windows: &Vec<u32>, show: bool) -> (requests: Vec<Request>)
    ensures
        requests@ == if show {
            map_all(windows@)
        } else {
            unmap_all(windows@)
        },
{
    let mut requests: Vec<Request> = Vec::new();
    let mut i: usize = 0;
    while i < windows.len()
        invariant
            i <= windows@.len(),
            requests@ == if show {
                map_all(windows@.take(i as int))
            } else {
                unmap_all(windows@.take(i as int))
            },
        decreases windows.len() - i,
    {
        let win = windows[i];
        proof {
            assert(windows@.take(i + 1) =~= windows@.take(i as int).push(win));
            assert(map_all(windows@.take(i + 1)) =~= map_all(windows@.take(i as int)).push(
                Request::MapWindow { window: win },
            ));
            assert(unmap_all(windows@.take(i + 1)) =~= unmap_all(windows@.take(i as int)).push(
                Request::UnmapWindow { window: win },
            ));
        }
        if show {
            requests.push(Request::MapWindow { window: win });
        } else {
            requests.push(Request::UnmapWindow { window: win });
        }
        i += 1;
    }
    assert(windows@.take(windows@.len() as int) =~= windows@);
    requests
}

/// Whether `window` is among `windows`.
fn holds(windows: &Vec<u32>, window: u32) -> (b: bool)
    ensures
        b == windows@.contains(window),
{
    let mut i: usize = 0;
    while i < windows.len()
        invariant
            i <= windows@.len(),
            forall|j: int| 0 <= j < i ==> windows@[j] != window,
        decreases windows.len() - i,
    {
        if windows[i] == window {
            assert(windows@[i as int] == window);
            return true;
        }
        i += 1;
    }
    false
}

/// The identifiers of `windows` other than `window`, in order.
fn without(windows: &Vec<u32>, window: u32) -> (kept: Vec<u32>)
    ensures
        kept@ == windows@.filter(other_than(window)),
{
    let mut kept: Vec<u32> = Vec::new();
    let mut i: usize = 0;
    while i < windows.len()
        invariant
            i <= windows@.len(),
            kept@ == windows@.take(i as int).filter(other_than(window)),
        decreases windows.len() - i,
    {
        let w = windows[i];
        proof {
            assert(windows@.take(i + 1) =~= windows@.take(i as int).push(w));
            windows@.take(i as int).lemma_filter_push(w, other_than(window));
        }
        if w != window {
            kept.push(w);
        }
        i += 1;
    }
    assert(windows@.take(windows@.len() as int) =~= windows@);
    kept
}

impl Quasar {
    /// The initial state: ten empty workspaces, the first one current, and a
    /// terminal and a launcher bound to keys.
    pub fn default() -> (q: Self)
        ensures
            q@.workspaces.len() == 10,
            forall|i: int|
                0 <= i < 10 ==> #[trigger] q@.workspaces[i] == (WorkspaceView {
                    windows: seq![],
                    name: default_workspace_names()[i],
                }),
            q@.current_workspace == 0,
            q@.commands.dom() == set![28u8, 33u8],
            q@.commands[28]@ == "alacritty"@,
            q@.commands[33]@ == "dmenu_run"@,
    {
        let workspace_names = vec!["1", "2", "3", "4", "5", "6", "7", "8", "9", "0"];
        proof {
            reveal_strlit("1");
            reveal_strlit("2");
            reveal_strlit("3");
            reveal_strlit("4");
            reveal_strlit("5");
            reveal_strlit("6");
            reveal_strlit("7");
            reveal_strlit("8");
            reveal_strlit("9");
            reveal_strlit("0");
            assert(forall|i: int|
                0 <= i < 10 ==> #[trigger] workspace_names@[i]@ == default_workspace_names()[i]);
        }

        let mut workspaces: Vec<Workspace> = Vec::new();
        let mut commands: HashMap<u8, String> = HashMap::new();

        commands.insert(28, "alacritty".to_owned());
        commands.insert(33, "dmenu_run".to_owned());

        let mut i: usize = 0;
        while i < workspace_names.len()
            invariant
                workspace_names@.len() == 10,
                forall|k: int|
                    0 <= k < 10 ==> #[trigger] workspace_names@[k]@ == default_workspace_names()[k],
                i <= 10,
                workspaces@.len() == i,
                forall|j: int|
                    0 <= j < i ==> #[trigger] workspaces@[j]@ == (WorkspaceView {
                        windows: seq![],
                        name: default_workspace_names()[j],
                    }),
            decreases workspace_names.len() - i,
        {
            let name = workspace_names[i].to_owned();
            workspaces.push(Workspace { name, windows: Vec::new() });
            i += 1;
        }

        let q = Self { commands, current_workspace: 0, workspaces };
        assert(q@.commands.dom() =~= set![28u8, 33u8]);
        q
    }

    fn add_window(&mut self, window: u32)
        ensures
            final(self)@ == old(self)@.add_window(window),
    {
        let ghost v = self@;
        if self.current_workspace < self.workspaces.len() {
            let cur = self.current_workspace;
            self.workspaces[cur].windows.push(window);
            assert(self@.workspaces =~= v.add_window(window).workspaces);
        }
    }

    fn del_window(&mut self, window: u32)
        ensures
            final(self)@ == old(self)@.del_window(window),
    {
        let ghost v = self@;
        let ghost target = v.del_window(window);
        let mut i: usize = 0;
        while i < self.workspaces.len()
            invariant
                target == v.del_window(window),
                self.workspaces@.len() == v.workspaces.len(),
                i <= v.workspaces.len(),
                self.current_workspace == v.current_workspace,
                self.commands@ == v.commands,
                forall|j: int| 0 <= j < i ==> #[trigger] self.workspaces@[j]@ == target.workspaces[j],
                forall|j: int|
                    i <= j < v.workspaces.len() ==> #[trigger] self.workspaces@[j]@ == v.workspaces[j],
            decreases self.workspaces.len() - i,
        {
            let ghost before = self.workspaces@[i as int]@;
            assert(before == v.workspaces[i as int]);
            let workspace = &mut self.workspaces[i];
            if holds(&workspace.windows, window) {
                workspace.windows = without(&workspace.windows, window);
            }
            assert(self.workspaces@[i as int]@ == target.workspaces[i as int]);
            i += 1;
        }
        assert(self@.workspaces =~= target.workspaces);
    }

    /// Makes workspace `workspace_idx` current, and returns the requests that
    /// hide the windows of the old one and show those of the new one.
    pub fn change_workspace(&mut self, workspace_idx: usize) -> (requests: Vec<Request>)
        requires
            old(self)@.can_change_workspace(workspace_idx),
        ensures
            final(self)@ == old(self)@.change_workspace(workspace_idx),
            requests@ == old(self)@.change_workspace_requests(workspace_idx),
    {
        let mut requests: Vec<Request> = Vec::new();
        if self.current_workspace != workspace_idx {
            requests = visibility_requests(&self.workspaces[self.current_workspace].windows, false);
            let mut shown = visibility_requests(&self.workspaces[workspace_idx].windows, true);
            self.current_workspace = workspace_idx;
            requests.append(&mut shown);
        }
        requests
    }

    /// Reacts to an event on a screen of `width` by `height`: updates the
    /// state and returns the requests to send.
    pub fn handle_event(&mut self, event: Event, width: u32, height: u32) -> (requests: Vec<
        Request,
    >)
        requires
            old(self)@.can_handle(event),
        ensures
            final(self)@ == old(self)@.handle_event(event, width, height).0,
            requests@ == old(self)@.handle_event(event, width, height).1,
    {
        broadcast use vstd::std_specs::hash::group_hash_axioms;
        match event {
            Event::KeyPress { keycode } => {
                match self.commands.get(&keycode) {
                    Some(program) => vec![Request::Spawn(program.clone())],
                    None => {
                        if FIRST_WORKSPACE_KEY <= keycode && keycode <= LAST_WORKSPACE_KEY {
                            self.change_workspace((keycode - FIRST_WORKSPACE_KEY) as usize)
                        } else {
                            Vec::new()
                        }
                    },
                }
            },
            Event::MapNotify { window } => {
                self.add_window(window);
                vec![
                    Request::ConfigureWindow {
                        window,
                        x: 0,
                        y: 0,
                        width,
                        height,
                        border_width: None,
                    },
                ]
            },
            Event::DestroyNotify { window } => {
                self.del_window(window);
                Vec::new()
            },
            Event::Other => Vec::new(),
        }
    }

    /// Decides whether `change_workspace` can run: the switch stays put, or
    /// both workspaces exist.
    pub fn can_change_workspace(&self, workspace_idx: usize) -> (b: bool)
        ensures
            b == self@.can_change_workspace(workspace_idx),
    {
        workspace_idx == self.current_workspace || (self.current_workspace
            < self.workspaces.len() && workspace_idx < self.workspaces.len())
    }

    /// Decides whether `handle_event` can run on this event without a panic.
    pub fn accepts(&self, event: Event) -> (b: bool)
        ensures
            b == self@.can_handle(event),
    {
        broadcast use vstd::std_specs::hash::group_hash_axioms;
        match event {
            Event::KeyPress { keycode } => {
                if self.commands.contains_key(&keycode) || !(FIRST_WORKSPACE_KEY <= keycode
                    && keycode <= LAST_WORKSPACE_KEY) {
                    return true;
                }
                self.can_change_workspace((keycode - FIRST_WORKSPACE_KEY) as usize)
            },
            _ => true,
        }
    }
}

} // verus!
