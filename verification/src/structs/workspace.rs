use vstd::prelude::*;

use crate::event::Request;
use super::window::{
    contains, disjoint, law_layout_disjoint, law_layout_within_area, layout, layout_fits,
    layout_fits_check, Area, Rect, Window,
};

verus! {

/// The way the windows of a workspace are arranged.
pub enum Layout {
    Quasar,
}

/// The border colour of the focused window.
pub const FOCUSED_BORDER_PIXEL: u32 = 0xab4642;

/// The border colour of the other windows.
pub const UNFOCUSED_BORDER_PIXEL: u32 = 0x282828;

/// A workspace: the windows shown together, in the order they were added.
pub struct Workspace {
    pub windows: Vec<Window>,
    pub name: String,
    pub gap: u32,
    pub focused_window: usize,
}

/// The mathematical value of a workspace.
pub struct WorkspaceView {
    pub windows: Seq<Window>,
    pub name: Seq<char>,
    pub gap: u32,
    pub focused_window: usize,
}

impl View for Workspace {
    type V = WorkspaceView;

    open spec fn view(&self) -> WorkspaceView {
        WorkspaceView {
            windows: self.windows@,
            name: self.name@,
            gap: self.gap,
            focused_window: self.focused_window,
        }
    }
}

/// Keeps the windows whose identifier is not `identifier`.
pub open spec fn other_than(identifier: u32) -> spec_fn(Window) -> bool {
    |w: Window| w.identifier != identifier
}

/// The rectangle of an area whose numbers fit in a `u32`.
pub open spec fn rect_of(a: Area) -> Rect {
    Rect { x: a.0 as u32, y: a.1 as u32, width: a.2 as u32, height: a.3 as u32 }
}

/// The border colour of the window at `i` when `focused` is the focused index.
pub open spec fn border_pixel(i: int, focused: usize) -> u32 {
    if i == focused {
        FOCUSED_BORDER_PIXEL
    } else {
        UNFOCUSED_BORDER_PIXEL
    }
}

/// The border widths of a list of windows.
pub open spec fn borders(windows: Seq<Window>) -> Seq<u16> {
    windows.map_values(|w: Window| w.border.width)
}

/// A tiled rectangle leaves room for the gap and a border of width `bw` on each side.
pub open spec fn border_fits(g: Area, gap: u32, bw: u16) -> bool {
    &&& 2 * gap <= u32::MAX
    &&& 2 * gap + 2 * bw <= g.2
    &&& 2 * gap + 2 * bw <= g.3
}

/// Windows with these border widths can be tiled, inset by `gap`, on a screen
/// of `width` by `height` without overflow: the corners fit in a `u32` and
/// every rectangle has room for the gap and the border.
pub open spec fn tiling_fits(gap: u32, borders: Seq<u16>, width: u32, height: u32) -> bool {
    &&& layout_fits(borders.len(), 0, gap as int, gap as int, width as int, height as int, 1)
    &&& forall|i: int|
        0 <= i < borders.len() ==> #[trigger] border_fits(
            layout(borders.len(), 0, gap as int, gap as int, width as int, height as int, 1)[i],
            gap,
            borders[i],
        )
}

/// Decides `tiling_fits`.
pub fn check_tiling_fits(gap: u32, borders: &Vec<u16>, width: u32, height: u32) -> (b: bool)
    ensures
        b == tiling_fits(gap, borders@, width, height),
{
    let count = borders.len();
    if !layout_fits_check(count, 0, gap as u64, gap as u64, width as u64, height as u64, 1) {
        return false;
    }
    let geos = Window::geometry(count, 0, gap, gap, width, height, 1);
    let ghost l = layout(count as nat, 0, gap as int, gap as int, width as int, height as int, 1);
    proof {
        super::window::lemma_layout_len(count as nat, 0, gap as int, gap as int, width as int, height as int, 1);
        assert(geos@.len() == count) by {
            assert(geos@.map_values(|r: Rect| r.area()).len() == geos@.len());
        }
    }
    let mut i: usize = 0;
    while i < count
        invariant
            count == borders@.len(),
            i <= count,
            geos@.len() == count,
            geos@.map_values(|r: Rect| r.area()) == l,
            l.len() == count,
            l == layout(count as nat, 0, gap as int, gap as int, width as int, height as int, 1),
            layout_fits(count as nat, 0, gap as int, gap as int, width as int, height as int, 1),
            forall|j: int| 0 <= j < i ==> #[trigger] border_fits(l[j], gap, borders@[j]),
        decreases count - i,
    {
        let g = geos[i];
        assert(g.area() == l[i as int]) by {
            assert(geos@.map_values(|r: Rect| r.area())[i as int] == g.area());
        }
        let bw = borders[i] as u64;
        let double_gap = gap as u64 * 2;
        if double_gap > u32::MAX as u64 || double_gap + bw * 2 > g.width as u64 || double_gap + bw
            * 2 > g.height as u64 {
            assert(!border_fits(l[i as int], gap, borders@[i as int]));
            return false;
        }
        i += 1;
    }
    true
}

/// The border widths of the windows, in order.
pub fn border_widths(windows: &Vec<Window>) -> (b: Vec<u16>)
    ensures
        b@ == borders(windows@),
{
    let mut b: Vec<u16> = Vec::new();
    let mut i: usize = 0;
    while i < windows.len()
        invariant
            i <= windows@.len(),
            b@ == borders(windows@.take(i as int)),
        decreases windows.len() - i,
    {
        proof {
            assert(windows@.take(i + 1) =~= windows@.take(i as int).push(windows@[i as int]));
            assert(borders(windows@.take(i + 1)) =~= borders(windows@.take(i as int)).push(
                windows@[i as int].border.width,
            ));
        }
        b.push(windows[i].border.width);
        i += 1;
    }
    assert(windows@.take(windows@.len() as int) =~= windows@);
    b
}

/// The border widths of the windows whose identifier is not `identifier`, in order.
pub fn border_widths_without(windows: &Vec<Window>, identifier: u32) -> (b: Vec<u16>)
    ensures
        b@ == borders(windows@.filter(other_than(identifier))),
{
    let mut b: Vec<u16> = Vec::new();
    let mut i: usize = 0;
    while i < windows.len()
        invariant
            i <= windows@.len(),
            b@ == borders(windows@.take(i as int).filter(other_than(identifier))),
        decreases windows.len() - i,
    {
        let w = windows[i];
        proof {
            assert(windows@.take(i + 1) =~= windows@.take(i as int).push(w));
            windows@.take(i as int).lemma_filter_push(w, other_than(identifier));
            let f = windows@.take(i as int).filter(other_than(identifier));
            assert(borders(f.push(w)) =~= borders(f).push(w.border.width));
        }
        if w.identifier != identifier {
            b.push(w.border.width);
        }
        i += 1;
    }
    assert(windows@.take(windows@.len() as int) =~= windows@);
    b
}

impl WorkspaceView {
    pub open spec fn has_window(self, identifier: u32) -> bool {
        exists|i: int| 0 <= i < self.windows.len() && #[trigger] self.windows[i].identifier == identifier
    }

    /// Focus moves to the next window, and from the last one back to the first.
    pub open spec fn focus_down(self) -> WorkspaceView {
        WorkspaceView {
            focused_window: if self.focused_window + 1 >= self.windows.len() {
                0
            } else {
                (self.focused_window + 1) as usize
            },
            ..self
        }
    }

    /// Focus moves to the previous window, and from the first one to the last.
    pub open spec fn focus_up(self) -> WorkspaceView {
        WorkspaceView {
            focused_window: if self.focused_window == 0 {
                (self.windows.len() - 1) as usize
            } else {
                (self.focused_window - 1) as usize
            },
            ..self
        }
    }

    /// `focus_up` has a window to go to: it underflows on an empty workspace
    /// focused at the first index.
    pub open spec fn can_focus_up(self) -> bool {
        !(self.focused_window == 0 && self.windows.len() == 0)
    }

    pub open spec fn remove_window(self, identifier: u32) -> WorkspaceView {
        WorkspaceView { windows: self.windows.filter(other_than(identifier)), ..self }
    }

    /// The tiling of the workspace's windows on a screen of that size, inset by the gap.
    pub open spec fn tiling(self, width: u32, height: u32) -> Seq<Area> {
        layout(
            self.windows.len(),
            0,
            self.gap as int,
            self.gap as int,
            width as int,
            height as int,
            1,
        )
    }

    /// `resize` computes without overflow on a screen of that size.
    pub open spec fn can_resize(self, width: u32, height: u32) -> bool {
        tiling_fits(self.gap, borders(self.windows), width, height)
    }

    /// Each window takes its rectangle of the tiling.
    pub open spec fn resize(self, width: u32, height: u32) -> WorkspaceView {
        WorkspaceView {
            windows: Seq::new(
                self.windows.len(),
                |i: int| Window { area: rect_of(self.tiling(width, height)[i]), ..self.windows[i] },
            ),
            ..self
        }
    }

    /// The requests that place the window at `i`: its geometry inside the gap
    /// and border, its border colour, and the input focus if it is focused.
    pub open spec fn window_requests(self, i: int, width: u32, height: u32) -> Seq<Request> {
        let w = self.windows[i];
        let g = self.tiling(width, height)[i];
        let bw = w.border.width as int;
        seq![
            Request::ConfigureWindow {
                window: w.identifier,
                x: g.0 as u32,
                y: g.1 as u32,
                width: (g.2 - 2 * self.gap - 2 * bw) as u32,
                height: (g.3 - 2 * self.gap - 2 * bw) as u32,
                border_width: Some(w.border.width as u32),
            },
            Request::SetBorderPixel { window: w.identifier, pixel: border_pixel(i, self.focused_window) },
        ] + if i == self.focused_window {
            seq![Request::SetInputFocus { window: w.identifier }]
        } else {
            seq![]
        }
    }

    /// The requests for the first `n` windows, in order.
    pub open spec fn requests_upto(self, n: nat, width: u32, height: u32) -> Seq<Request>
        decreases n,
    {
        if n == 0 {
            seq![]
        } else {
            self.requests_upto((n - 1) as nat, width, height) + self.window_requests(
                n - 1,
                width,
                height,
            )
        }
    }

    pub open spec fn resize_requests(self, width: u32, height: u32) -> Seq<Request> {
        self.requests_upto(self.windows.len(), width, height)
    }

    /// Closing destroys the focused window, then removes from the workspace the
    /// windows whose identifier equals the focused index.
    pub open spec fn close_focused_window(self) -> WorkspaceView {
        self.remove_window(self.focused_window as u32)
    }
}

/// Cycling the focus down and then up comes back to the window that had it.
pub proof fn law_focus_down_then_up(v: WorkspaceView)
    requires
        v.focused_window < v.windows.len() <= usize::MAX,
    ensures
        v.focus_down().focus_up() == v,
{
}

/// Cycling the focus up and then down comes back to the window that had it.
pub proof fn law_focus_up_then_down(v: WorkspaceView)
    requires
        v.focused_window < v.windows.len() <= usize::MAX,
    ensures
        v.focus_up().focus_down() == v,
{
}

/// On a workspace with windows, cycling the focus lands on a window.
pub proof fn law_focus_stays_on_a_window(v: WorkspaceView)
    requires
        0 < v.windows.len() <= usize::MAX,
        v.focused_window <= v.windows.len(),
    ensures
        v.focus_down().focused_window < v.windows.len(),
        v.focus_up().focused_window < v.windows.len(),
{
}

/// Removing a window takes every copy of it away and keeps every other window.
pub proof fn law_remove_window(v: WorkspaceView, identifier: u32)
    ensures
        !v.remove_window(identifier).has_window(identifier),
        forall|other: u32|
            other != identifier ==> (#[trigger] v.remove_window(identifier).has_window(other)
                == v.has_window(other)),
{
    broadcast use vstd::seq_lib::group_filter_ensures;

    let kept = v.windows.filter(other_than(identifier));
    let r = v.remove_window(identifier);
    assert(r.windows == kept);
    if r.has_window(identifier) {
        let i = choose|i: int| 0 <= i < kept.len() && #[trigger] kept[i].identifier == identifier;
        assert(other_than(identifier)(kept[i]));
    }
    assert forall|other: u32| other != identifier implies (#[trigger] v.remove_window(
        identifier,
    ).has_window(other) == v.has_window(other)) by {
        if v.has_window(other) {
            let i = choose|i: int|
                0 <= i < v.windows.len() && #[trigger] v.windows[i].identifier == other;
            v.windows.lemma_filter_contains(other_than(identifier), i);
            let j = choose|j: int| 0 <= j < kept.len() && kept[j] == v.windows[i];
            assert(0 <= j < r.windows.len() && r.windows[j].identifier == other);
        }
        if r.has_window(other) {
            let j = choose|j: int| 0 <= j < kept.len() && #[trigger] kept[j].identifier == other;
            v.windows.lemma_filter_contains_rev(other_than(identifier), kept[j]);
            let i = choose|i: int| 0 <= i < v.windows.len() && v.windows[i] == kept[j];
            assert(v.windows[i].identifier == other);
        }
    }
}

/// Resizing keeps the windows, their order, identifiers and borders, and the
/// focus; it only gives each window its rectangle of the tiling.
pub proof fn law_resize_keeps_windows(v: WorkspaceView, width: u32, height: u32)
    ensures
        v.resize(width, height).windows.len() == v.windows.len(),
        forall|i: int|
            0 <= i < v.windows.len() ==> {
                let w = #[trigger] v.resize(width, height).windows[i];
                &&& w.identifier == v.windows[i].identifier
                &&& w.border == v.windows[i].border
            },
        v.resize(width, height).focused_window == v.focused_window,
        v.resize(width, height).gap == v.gap,
        v.resize(width, height).name == v.name,
{
}

/// Resizing twice on the same screen is resizing once.
pub proof fn law_resize_idempotent(v: WorkspaceView, width: u32, height: u32)
    ensures
        v.resize(width, height).resize(width, height) == v.resize(width, height),
{
    assert(v.resize(width, height).resize(width, height).windows =~= v.resize(
        width,
        height,
    ).windows);
}

/// After a resize the windows tile the screen inset by the gap: each lies
/// within it and no two overlap.
pub proof fn law_resize_tiles_screen(v: WorkspaceView, width: u32, height: u32)
    requires
        v.can_resize(width, height),
    ensures
        forall|i: int|
            0 <= i < v.windows.len() ==> contains(
                (v.gap as int, v.gap as int, width as int, height as int),
                (#[trigger] v.resize(width, height).windows[i]).area.area(),
            ),
        forall|i: int, j: int|
            0 <= i < j < v.windows.len() ==> disjoint(
                (#[trigger] v.resize(width, height).windows[i]).area.area(),
                (#[trigger] v.resize(width, height).windows[j]).area.area(),
            ),
{
    let n = v.windows.len();
    let l = v.tiling(width, height);
    super::window::lemma_layout_len(n, 0, v.gap as int, v.gap as int, width as int, height as int, 1);
    law_layout_within_area(n, 0, v.gap as int, v.gap as int, width as int, height as int, 1);
    law_layout_disjoint(n, 0, v.gap as int, v.gap as int, width as int, height as int, 1);
    assert forall|i: int| 0 <= i < n implies #[trigger] rect_of(l[i]).area() == l[i] by {
        assert(l[i].0 <= u32::MAX && l[i].1 <= u32::MAX);
        assert(contains((v.gap as int, v.gap as int, width as int, height as int), l[i]));
    }
    assert forall|i: int| 0 <= i < n implies contains(
        (v.gap as int, v.gap as int, width as int, height as int),
        (#[trigger] v.resize(width, height).windows[i]).area.area(),
    ) by {
        assert(rect_of(l[i]).area() == l[i]);
    }
    assert forall|i: int, j: int| 0 <= i < j < n implies disjoint(
        (#[trigger] v.resize(width, height).windows[i]).area.area(),
        (#[trigger] v.resize(width, height).windows[j]).area.area(),
    ) by {
        assert(rect_of(l[i]).area() == l[i]);
        assert(rect_of(l[j]).area() == l[j]);
        assert(disjoint(l[i], l[j]));
    }
}

/// What the requests for the first `n` windows say about the focus and the
/// border colours.
proof fn lemma_requests_upto_focus(v: WorkspaceView, n: nat, width: u32, height: u32)
    requires
        n <= v.windows.len(),
    ensures
        forall|j: int|
            0 <= j < v.requests_upto(n, width, height).len() ==> match #[trigger] v.requests_upto(
                n,
                width,
                height,
            )[j] {
                Request::SetBorderPixel { window, pixel } => pixel == FOCUSED_BORDER_PIXEL ==> (
                v.focused_window < n && window == v.windows[v.focused_window as int].identifier),
                Request::SetInputFocus { window } => v.focused_window < n && window
                    == v.windows[v.focused_window as int].identifier,
                _ => true,
            },
        forall|i: int|
            0 <= i < n ==> v.requests_upto(n, width, height).contains(
                Request::SetBorderPixel {
                    window: (#[trigger] v.windows[i]).identifier,
                    pixel: if i == v.focused_window {
                        FOCUSED_BORDER_PIXEL
                    } else {
                        UNFOCUSED_BORDER_PIXEL
                    },
                },
            ),
        v.focused_window < n ==> v.requests_upto(n, width, height).contains(
            Request::SetInputFocus { window: v.windows[v.focused_window as int].identifier },
        ),
    decreases n,
{
    if n > 0 {
        let m = (n - 1) as nat;
        lemma_requests_upto_focus(v, m, width, height);
        let prev = v.requests_upto(m, width, height);
        let last = v.window_requests(m as int, width, height);
        let all = v.requests_upto(n, width, height);
        assert(all == prev + last);
        let id = v.windows[m as int].identifier;
        assert forall|j: int| 0 <= j < all.len() implies match #[trigger] all[j] {
            Request::SetBorderPixel { window, pixel } => pixel == FOCUSED_BORDER_PIXEL ==> (
            v.focused_window < n && window == v.windows[v.focused_window as int].identifier),
            Request::SetInputFocus { window } => v.focused_window < n && window
                == v.windows[v.focused_window as int].identifier,
            _ => true,
        } by {
            if j < prev.len() {
                assert(all[j] == prev[j]);
            } else {
                assert(all[j] == last[j - prev.len()]);
            }
        }
        assert forall|i: int| 0 <= i < n implies all.contains(
            Request::SetBorderPixel {
                window: (#[trigger] v.windows[i]).identifier,
                pixel: if i == v.focused_window {
                    FOCUSED_BORDER_PIXEL
                } else {
                    UNFOCUSED_BORDER_PIXEL
                },
            },
        ) by {
            if i < m {
                let r = Request::SetBorderPixel {
                    window: v.windows[i].identifier,
                    pixel: if i == v.focused_window {
                        FOCUSED_BORDER_PIXEL
                    } else {
                        UNFOCUSED_BORDER_PIXEL
                    },
                };
                assert(prev.contains(r));
                let j = choose|j: int| 0 <= j < prev.len() && prev[j] == r;
                assert(all[j] == r);
            } else {
                assert(all[prev.len() + 1int] == last[1]);
            }
        }
        if v.focused_window < n {
            if v.focused_window < m {
                let r = Request::SetInputFocus { window: v.windows[v.focused_window as int].identifier };
                let j = choose|j: int| 0 <= j < prev.len() && prev[j] == r;
                assert(all[j] == r);
            } else {
                assert(all[prev.len() + 2int] == last[2]);
            }
        }
    }
}

/// The requests of a resize give the focused colour and the input focus to
/// the focused window only, and to it when there is one; every other window
/// gets the unfocused colour.
pub proof fn law_resize_requests_focus(v: WorkspaceView, width: u32, height: u32)
    ensures
        forall|j: int|
            0 <= j < v.resize_requests(width, height).len() ==> match #[trigger] v.resize_requests(
                width,
                height,
            )[j] {
                Request::SetBorderPixel { window, pixel } => pixel == FOCUSED_BORDER_PIXEL ==> (
                v.focused_window < v.windows.len() && window == v.windows[v.focused_window as int].identifier),
                Request::SetInputFocus { window } => v.focused_window < v.windows.len() && window
                    == v.windows[v.focused_window as int].identifier,
                _ => true,
            },
        forall|i: int|
            0 <= i < v.windows.len() ==> v.resize_requests(width, height).contains(
                Request::SetBorderPixel {
                    window: (#[trigger] v.windows[i]).identifier,
                    pixel: if i == v.focused_window {
                        FOCUSED_BORDER_PIXEL
                    } else {
                        UNFOCUSED_BORDER_PIXEL
                    },
                },
            ),
        v.focused_window < v.windows.len() ==> v.resize_requests(width, height).contains(
            Request::SetInputFocus { window: v.windows[v.focused_window as int].identifier },
        ),
{
    lemma_requests_upto_focus(v, v.windows.len(), width, height);
}

impl Workspace {
    pub fn has_window(&self, identifier: u32) -> (b: bool)
        ensures
            b == self@.has_window(identifier),
    {
        let mut i: usize = 0;
        while i < self.windows.len()
            invariant
                i <= self.windows.len(),
                forall|j: int| 0 <= j < i ==> self.windows@[j].identifier != identifier,
            decreases self.windows.len() - i,
        {
            if self.windows[i].identifier == identifier {
                assert(self@.windows[i as int].identifier == identifier);
                return true;
            }
            i += 1;
        }
        false
    }

    /// Computes the tiling for a screen of `width` by `height`, gives each
    /// window its rectangle, and returns the requests that place the windows.
    pub fn resize(&mut self, layout: Layout, width: u32, height: u32) -> (requests: Vec<Request>)
        requires
            old(self)@.can_resize(width, height),
        ensures
            final(self)@ == old(self)@.resize(width, height),
            requests@ == old(self)@.resize_requests(width, height),
    {
        let count = self.windows.len();
        let ghost v = self@;
        match layout {
            Layout::Quasar => {
                let geos = Window::geometry(count, 0, self.gap, self.gap, width, height, 1);
                proof {
                    super::window::lemma_layout_len(
                        count as nat,
                        0,
                        self.gap as int,
                        self.gap as int,
                        width as int,
                        height as int,
                        1,
                    );
                    assert(geos@.len() == count) by {
                        assert(geos@.map_values(|r: Rect| r.area()).len() == geos@.len());
                    }
                }
                let mut requests: Vec<Request> = Vec::new();
                let mut i: usize = 0;
                while i < count
                    invariant
                        count == v.windows.len(),
                        0 <= i <= count,
                        v.can_resize(width, height),
                        geos@.len() == count,
                        geos@.map_values(|r: Rect| r.area()) == v.tiling(width, height),
                        self.windows@.len() == count,
                        self.name@ == v.name,
                        self.gap == v.gap,
                        self.focused_window == v.focused_window,
                        forall|j: int| 0 <= j < i ==> #[trigger] self.windows@[j] == v.resize(width, height).windows[j],
                        forall|j: int| i <= j < count ==> #[trigger] self.windows@[j] == v.windows[j],
                        requests@ == v.requests_upto(i as nat, width, height),
                    decreases count - i,
                {
                    let geo = geos[i];
                    assert(geo.area() == v.tiling(width, height)[i as int]) by {
                        assert(geos@.map_values(|r: Rect| r.area())[i as int] == geo.area());
                    }
                    assert(border_fits(v.tiling(width, height)[i as int], v.gap, borders(v.windows)[i as int]));
                    let mut window = self.windows[i];
                    window.resize(geo);
                    self.windows.set(i, window);
                    let border_width = window.border.width as u32;
                    requests.push(
                        Request::ConfigureWindow {
                            window: window.identifier,
                            x: geo.x,
                            y: geo.y,
                            width: geo.width - self.gap * 2 - border_width * 2,
                            height: geo.height - self.gap * 2 - border_width * 2,
                            border_width: Some(border_width),
                        },
                    );
                    requests.push(
                        Request::SetBorderPixel {
                            window: window.identifier,
                            pixel: if i == self.focused_window {
                                FOCUSED_BORDER_PIXEL
                            } else {
                                UNFOCUSED_BORDER_PIXEL
                            },
                        },
                    );
                    if i == self.focused_window {
                        requests.push(Request::SetInputFocus { window: window.identifier });
                    }
                    proof {
                        let t = v.tiling(width, height)[i as int];
                        assert(rect_of(t) == geo);
                        assert(v.resize(width, height).windows[i as int] == window);
                        assert(requests@ =~= v.requests_upto((i + 1) as nat, width, height));
                    }
                    i += 1;
                }
                assert(self.windows@ =~= v.resize(width, height).windows);
                requests
            },
        }
    }

    /// Decides whether `resize` can run on a screen of `width` by `height`.
    pub fn can_resize(&self, width: u32, height: u32) -> (b: bool)
        ensures
            b == self@.can_resize(width, height),
    {
        check_tiling_fits(self.gap, &border_widths(&self.windows), width, height)
    }

    pub fn close_focused_window(&mut self) -> (requests: Vec<Request>)
        requires
            old(self).focused_window < old(self).windows.len(),
        ensures
            final(self)@ == old(self)@.close_focused_window(),
            requests@ == seq![
                Request::DestroyWindow { window: old(self).windows@[old(self).focused_window as int].identifier },
            ],
    {
        let requests = vec![Request::DestroyWindow { window: self.windows[self.focused_window].identifier }];
        self.remove_window(#[verifier::truncate] (self.focused_window as u32));
        requests
    }

    pub fn focus_down(&mut self)
        requires
            old(self).focused_window < usize::MAX,
        ensures
            final(self)@ == old(self)@.focus_down(),
    {
        let idx = self.focused_window;

        if idx + 1 >= self.windows.len() {
            self.focused_window = 0;
            return ;
        }
        self.focused_window += 1;
    }

    pub fn focus_up(&mut self)
        requires
            old(self)@.can_focus_up(),
        ensures
            final(self)@ == old(self)@.focus_up(),
    {
        let idx = self.focused_window;

        if idx == 0 {
            self.focused_window = self.windows.len() - 1;
            return ;
        }
        self.focused_window -= 1;
    }

    pub fn remove_window(&mut self, identifier: u32)
        ensures
            final(self)@ == old(self)@.remove_window(identifier),
    {
        let ghost old_windows = self.windows@;
        let mut kept: Vec<Window> = Vec::new();
        let mut i: usize = 0;
        while i < self.windows.len()
            invariant
                self.windows@ == old_windows,
                i <= old_windows.len(),
                kept@ == old_windows.take(i as int).filter(other_than(identifier)),
            decreases self.windows.len() - i,
        {
            let w = self.windows[i];
            proof {
                assert(old_windows.take(i + 1) =~= old_windows.take(i as int).push(w));
                old_windows.take(i as int).lemma_filter_push(w, other_than(identifier));
            }
            if w.identifier != identifier {
                kept.push(w);
            }
            i += 1;
        }
        assert(old_windows.take(old_windows.len() as int) =~= old_windows);
        self.windows = kept;
    }
}

} // verus!
