use vstd::prelude::*;

verus! {

/// An axis-aligned rectangle on the screen, in pixels.
#[derive(Clone, Copy, Debug, PartialEq, Eq, Structural)]
pub struct Rect {
    pub x: u32,
    pub y: u32,
    pub width: u32,
    pub height: u32,
}

/// A managed X window: its identifier, the area it was last given and its border.
#[derive(Clone, Copy, Debug, PartialEq, Eq, Structural)]
pub struct Window {
    pub area: Rect,
    pub identifier: u32,
    pub border: Border,
}

/// The border drawn around a window.
#[derive(Clone, Copy, Debug, PartialEq, Eq, Structural)]
pub struct Border {
    pub width: u16,
}

/// The border width every new window gets.
pub const DEFAULT_BORDER_WIDTH: u16 = 5;

/// A rectangle as mathematical integers: `(x, y, width, height)`.
pub type Area = (int, int, int, int);

impl Rect {
    /// The rectangle as a tuple of integers.
    pub open spec fn area(self) -> Area {
        (self.x as int, self.y as int, self.width as int, self.height as int)
    }

    pub fn new(x: u32, y: u32, width: u32, height: u32) -> (r: Self)
        ensures
            r == (Rect { x, y, width, height }),
    {
        Self { x, y, width, height }
    }
}

impl From<u16> for Border {
    fn from(data: u16) -> (r: Self) {
        Self { width: data }
    }
}

impl vstd::std_specs::convert::FromSpecImpl<u16> for Border {
    open spec fn obeys_from_spec() -> bool {
        true
    }

    open spec fn from_spec(data: u16) -> Border {
        Border { width: data }
    }
}

/// The tiling of `count` windows into the area `(x, y, width, height)`, as the
/// window manager lays them out: while more than one window is left, the first
/// one takes one half of the remaining area (the upper half when `idx % 2 ==
/// vertical`, else the left half) and the rest are laid out in the other half,
/// alternating the direction of the split.
pub open spec fn layout(
    count: nat,
    idx: int,
    x: int,
    y: int,
    width: int,
    height: int,
    vertical: int,
) -> Seq<Area>
    decreases count,
{
    if count == 0 {
        seq![]
    } else if count == 1 {
        seq![(x, y, width, height)]
    } else if idx % 2 == vertical {
        seq![(x, y, width, height / 2)] + layout(
            (count - 1) as nat,
            idx + 1,
            x,
            y + height / 2,
            width,
            height / 2,
            0,
        )
    } else {
        seq![(x, y, width / 2, height)] + layout(
            (count - 1) as nat,
            idx + 1,
            x + width / 2,
            y,
            width / 2,
            height,
            1,
        )
    }
}

/// Every corner of the layout can be held in a `u32`: the positions that the
/// layout computes along the way are exactly the corners of its rectangles.
pub open spec fn layout_fits(
    count: nat,
    idx: int,
    x: int,
    y: int,
    width: int,
    height: int,
    vertical: int,
) -> bool {
    forall|i: int|
        0 <= i < count ==> {
            let r = #[trigger] layout(count, idx, x, y, width, height, vertical)[i];
            r.0 <= u32::MAX && r.1 <= u32::MAX
        }
}

/// `layout_fits` unfolded one step along the recursion of `layout`.
pub proof fn lemma_layout_fits_unfold(
    count: nat,
    idx: int,
    x: int,
    y: int,
    width: int,
    height: int,
    vertical: int,
)
    ensures
        layout_fits(count, idx, x, y, width, height, vertical) <==> (count == 0 || (x <= u32::MAX
            && y <= u32::MAX && (count == 1 || if idx % 2 == vertical {
            layout_fits((count - 1) as nat, idx + 1, x, y + height / 2, width, height / 2, 0)
        } else {
            layout_fits((count - 1) as nat, idx + 1, x + width / 2, y, width / 2, height, 1)
        }))),
{
    lemma_layout_len(count, idx, x, y, width, height, vertical);
    let l = layout(count, idx, x, y, width, height, vertical);
    if count >= 2 {
        let (x1, y1, w1, h1, v1) = if idx % 2 == vertical {
            (x, y + height / 2, width, height / 2, 0int)
        } else {
            (x + width / 2, y, width / 2, height, 1int)
        };
        let rest = layout((count - 1) as nat, idx + 1, x1, y1, w1, h1, v1);
        lemma_layout_len((count - 1) as nat, idx + 1, x1, y1, w1, h1, v1);
        assert forall|i: int| 1 <= i < count implies #[trigger] l[i] == rest[i - 1] by {}
        if layout_fits(count, idx, x, y, width, height, vertical) {
            assert(l[0].0 <= u32::MAX && l[0].1 <= u32::MAX);
            assert forall|i: int| 0 <= i < count - 1 implies {
                let r = #[trigger] rest[i];
                r.0 <= u32::MAX && r.1 <= u32::MAX
            } by {
                assert(l[i + 1] == rest[i]);
            }
        }
        if x <= u32::MAX && y <= u32::MAX && layout_fits(
            (count - 1) as nat,
            idx + 1,
            x1,
            y1,
            w1,
            h1,
            v1,
        ) {
            assert forall|i: int| 0 <= i < count implies {
                let r = #[trigger] l[i];
                r.0 <= u32::MAX && r.1 <= u32::MAX
            } by {
                if i > 0 {
                    assert(l[i] == rest[i - 1]);
                }
            }
        }
    } else if count == 1 {
        if x <= u32::MAX && y <= u32::MAX {
            assert forall|i: int| 0 <= i < count implies {
                let r = #[trigger] l[i];
                r.0 <= u32::MAX && r.1 <= u32::MAX
            } by {}
        }
        if layout_fits(count, idx, x, y, width, height, vertical) {
            assert(l[0].0 <= u32::MAX);
        }
    }
}

/// Decides `layout_fits` with arithmetic that cannot overflow.
pub fn layout_fits_check(
    count: usize,
    idx: usize,
    x: u64,
    y: u64,
    width: u64,
    height: u64,
    vertical: usize,
) -> (b: bool)
    requires
        count <= 1 || idx + count - 1 <= usize::MAX,
        x <= 2 * u32::MAX,
        y <= 2 * u32::MAX,
        width <= u32::MAX,
        height <= u32::MAX,
    ensures
        b == layout_fits(
            count as nat,
            idx as int,
            x as int,
            y as int,
            width as int,
            height as int,
            vertical as int,
        ),
    decreases count,
{
    proof {
        lemma_layout_fits_unfold(
            count as nat,
            idx as int,
            x as int,
            y as int,
            width as int,
            height as int,
            vertical as int,
        );
    }
    if count == 0 {
        return true;
    }
    if x > u32::MAX as u64 || y > u32::MAX as u64 {
        return false;
    }
    if count == 1 {
        return true;
    }
    if idx % 2 == vertical {
        layout_fits_check(count - 1, idx + 1, x, y + height / 2, width, height / 2, 0)
    } else {
        layout_fits_check(count - 1, idx + 1, x + width / 2, y, width / 2, height, 1)
    }
}

/// The rectangle `inner` lies within the rectangle `outer`.
pub open spec fn contains(outer: Area, inner: Area) -> bool {
    &&& outer.0 <= inner.0
    &&& outer.1 <= inner.1
    &&& inner.0 + inner.2 <= outer.0 + outer.2
    &&& inner.1 + inner.3 <= outer.1 + outer.3
}

/// The rectangles `a` and `b` do not overlap: a vertical or a horizontal line
/// separates them.
pub open spec fn disjoint(a: Area, b: Area) -> bool {
    ||| a.0 + a.2 <= b.0
    ||| b.0 + b.2 <= a.0
    ||| a.1 + a.3 <= b.1
    ||| b.1 + b.3 <= a.1
}

/// The layout has one rectangle per window.
pub proof fn lemma_layout_len(
    count: nat,
    idx: int,
    x: int,
    y: int,
    width: int,
    height: int,
    vertical: int,
)
    ensures
        layout(count, idx, x, y, width, height, vertical).len() == count,
    decreases count,
{
    if count >= 2 {
        if idx % 2 == vertical {
            lemma_layout_len((count - 1) as nat, idx + 1, x, y + height / 2, width, height / 2, 0);
        } else {
            lemma_layout_len((count - 1) as nat, idx + 1, x + width / 2, y, width / 2, height, 1);
        }
    }
}

/// Every window of the layout lies within the area that was tiled.
pub proof fn law_layout_within_area(
    count: nat,
    idx: int,
    x: int,
    y: int,
    width: int,
    height: int,
    vertical: int,
)
    requires
        width >= 0,
        height >= 0,
    ensures
        forall|i: int|
            0 <= i < count ==> contains(
                (x, y, width, height),
                #[trigger] layout(count, idx, x, y, width, height, vertical)[i],
            ),
        forall|i: int|
            0 <= i < count ==> {
                let r = #[trigger] layout(count, idx, x, y, width, height, vertical)[i];
                0 <= r.2 <= width && 0 <= r.3 <= height
            },
    decreases count,
{
    lemma_layout_len(count, idx, x, y, width, height, vertical);
    if count >= 2 {
        let l = layout(count, idx, x, y, width, height, vertical);
        if idx % 2 == vertical {
            let (x1, y1, w1, h1) = (x, y + height / 2, width, height / 2);
            law_layout_within_area((count - 1) as nat, idx + 1, x1, y1, w1, h1, 0);
            let rest = layout((count - 1) as nat, idx + 1, x1, y1, w1, h1, 0);
            assert forall|i: int| 0 <= i < count implies contains(
                (x, y, width, height),
                #[trigger] l[i],
            ) && 0 <= l[i].2 <= width && 0 <= l[i].3 <= height by {
                if i > 0 {
                    assert(l[i] == rest[i - 1]);
                }
            }
        } else {
            let (x1, y1, w1, h1) = (x + width / 2, y, width / 2, height);
            law_layout_within_area((count - 1) as nat, idx + 1, x1, y1, w1, h1, 1);
            let rest = layout((count - 1) as nat, idx + 1, x1, y1, w1, h1, 1);
            assert forall|i: int| 0 <= i < count implies contains(
                (x, y, width, height),
                #[trigger] l[i],
            ) && 0 <= l[i].2 <= width && 0 <= l[i].3 <= height by {
                if i > 0 {
                    assert(l[i] == rest[i - 1]);
                }
            }
        }
    }
}

/// No two windows of the layout overlap.
pub proof fn law_layout_disjoint(
    count: nat,
    idx: int,
    x: int,
    y: int,
    width: int,
    height: int,
    vertical: int,
)
    requires
        width >= 0,
        height >= 0,
    ensures
        forall|i: int, j: int|
            0 <= i < j < count ==> disjoint(
                #[trigger] layout(count, idx, x, y, width, height, vertical)[i],
                #[trigger] layout(count, idx, x, y, width, height, vertical)[j],
            ),
    decreases count,
{
    lemma_layout_len(count, idx, x, y, width, height, vertical);
    if count >= 2 {
        let l = layout(count, idx, x, y, width, height, vertical);
        if idx % 2 == vertical {
            let (x1, y1, w1, h1) = (x, y + height / 2, width, height / 2);
            law_layout_disjoint((count - 1) as nat, idx + 1, x1, y1, w1, h1, 0);
            law_layout_within_area((count - 1) as nat, idx + 1, x1, y1, w1, h1, 0);
            let rest = layout((count - 1) as nat, idx + 1, x1, y1, w1, h1, 0);
            assert forall|i: int, j: int| 0 <= i < j < count implies disjoint(
                #[trigger] l[i],
                #[trigger] l[j],
            ) by {
                assert(l[j] == rest[j - 1]);
                if i > 0 {
                    assert(l[i] == rest[i - 1]);
                } else {
                    assert(contains((x1, y1, w1, h1), rest[j - 1]));
                }
            }
        } else {
            let (x1, y1, w1, h1) = (x + width / 2, y, width / 2, height);
            law_layout_disjoint((count - 1) as nat, idx + 1, x1, y1, w1, h1, 1);
            law_layout_within_area((count - 1) as nat, idx + 1, x1, y1, w1, h1, 1);
            let rest = layout((count - 1) as nat, idx + 1, x1, y1, w1, h1, 1);
            assert forall|i: int, j: int| 0 <= i < j < count implies disjoint(
                #[trigger] l[i],
                #[trigger] l[j],
            ) by {
                assert(l[j] == rest[j - 1]);
                if i > 0 {
                    assert(l[i] == rest[i - 1]);
                } else {
                    assert(contains((x1, y1, w1, h1), rest[j - 1]));
                }
            }
        }
    }
}

/// The first window takes exactly the half of the area that is split off:
/// the upper half when `idx % 2 == vertical`, else the left half; a lone
/// window takes the whole area.
pub proof fn law_layout_first_tile(
    count: nat,
    idx: int,
    x: int,
    y: int,
    width: int,
    height: int,
    vertical: int,
)
    requires
        count >= 1,
    ensures
        count == 1 ==> layout(count, idx, x, y, width, height, vertical)[0] == (
            x,
            y,
            width,
            height,
        ),
        count >= 2 && idx % 2 == vertical ==> layout(count, idx, x, y, width, height, vertical)[0]
            == (x, y, width, height / 2),
        count >= 2 && idx % 2 != vertical ==> layout(count, idx, x, y, width, height, vertical)[0]
            == (x, y, width / 2, height),
{
}

/// `n` can be halved `k` times without remainder: it is a multiple of `2^k`.
pub open spec fn halvable(n: int, k: nat) -> bool
    decreases k,
{
    if k == 0 {
        true
    } else {
        n % 2 == 0 && halvable(n / 2, (k - 1) as nat)
    }
}

/// What can be halved `k + 1` times can be halved `k` times.
proof fn lemma_halvable_less(n: int, k: nat)
    requires
        halvable(n, k + 1),
    ensures
        halvable(n, k),
    decreases k,
{
    if k > 0 {
        lemma_halvable_less(n / 2, (k - 1) as nat);
    }
}

/// The total area of a list of rectangles.
pub open spec fn total_area(s: Seq<Area>) -> int
    decreases s.len(),
{
    if s.len() == 0 {
        0
    } else {
        s[0].2 * s[0].3 + total_area(s.drop_first())
    }
}

/// Halving a side that divides by two loses nothing.
proof fn lemma_halves(a: int, b: int)
    requires
        b % 2 == 0,
    ensures
        a * (b / 2) + a * (b / 2) == a * b,
{
    assert(b == 2 * (b / 2));
    assert(a * (b / 2) + a * (b / 2) == a * (2 * (b / 2))) by (nonlinear_arith);
}

/// The windows cover the whole area: when both sides divide by `2^(count - 1)`,
/// so that no split rounds, the areas of the tiles add up to the area tiled.
/// With the tiles lying within the area and not overlapping, no part of it is
/// left to no window.
pub proof fn law_layout_covers_area(
    count: nat,
    idx: int,
    x: int,
    y: int,
    width: int,
    height: int,
    vertical: int,
)
    requires
        count >= 1,
        halvable(width, (count - 1) as nat),
        halvable(height, (count - 1) as nat),
    ensures
        total_area(layout(count, idx, x, y, width, height, vertical)) == width * height,
    decreases count,
{
    let l = layout(count, idx, x, y, width, height, vertical);
    lemma_layout_len(count, idx, x, y, width, height, vertical);
    if count == 1 {
        assert(l.drop_first() =~= Seq::<Area>::empty());
        assert(total_area(l) == width * height + total_area(l.drop_first()));
    } else {
        let k = (count - 2) as nat;
        assert((count - 1) as nat == k + 1);
        if idx % 2 == vertical {
            let rest = layout((count - 1) as nat, idx + 1, x, y + height / 2, width, height / 2, 0);
            assert(height % 2 == 0 && halvable(height / 2, k));
            lemma_halvable_less(width, k);
            law_layout_covers_area((count - 1) as nat, idx + 1, x, y + height / 2, width, height / 2, 0);
            assert(l.drop_first() =~= rest);
            assert(l[0] == (x, y, width, height / 2));
            assert(total_area(l) == width * (height / 2) + total_area(rest));
            lemma_halves(width, height);
        } else {
            let rest = layout((count - 1) as nat, idx + 1, x + width / 2, y, width / 2, height, 1);
            assert(width % 2 == 0 && halvable(width / 2, k));
            lemma_halvable_less(height, k);
            law_layout_covers_area((count - 1) as nat, idx + 1, x + width / 2, y, width / 2, height, 1);
            assert(l.drop_first() =~= rest);
            assert(l[0] == (x, y, width / 2, height));
            assert(total_area(l) == (width / 2) * height + total_area(rest));
            lemma_halves(height, width);
            assert(width * height == height * width) by (nonlinear_arith);
            assert((width / 2) * height == height * (width / 2)) by (nonlinear_arith);
        }
    }
}

impl Window {
    pub fn new(identifier: u32, area: Rect) -> (w: Self)
        ensures
            w == (Window { identifier, area, border: Border { width: DEFAULT_BORDER_WIDTH } }),
    {
        Self { identifier, area, border: Border::from(DEFAULT_BORDER_WIDTH) }
    }

    pub fn resize(&mut self, area: Rect)
        ensures
            *final(self) == (Window { area, ..*old(self) }),
    {
        self.area = area;
    }

    /// The rectangles of `window_count` windows tiled into the area
    /// `(x, y, width, height)`, starting the alternation at `idx`.
    pub fn geometry(
        window_count: usize,
        idx: usize,
        x: u32,
        y: u32,
        width: u32,
        height: u32,
        vertical: usize,
    ) -> (rects: Vec<Rect>)
        requires
            window_count <= 1 || idx + window_count - 1 <= usize::MAX,
            layout_fits(
                window_count as nat,
                idx as int,
                x as int,
                y as int,
                width as int,
                height as int,
                vertical as int,
            ),
        ensures
            rects@.map_values(|r: Rect| r.area()) == layout(
                window_count as nat,
                idx as int,
                x as int,
                y as int,
                width as int,
                height as int,
                vertical as int,
            ),
        decreases window_count,
    {
        let ghost l = layout(
            window_count as nat,
            idx as int,
            x as int,
            y as int,
            width as int,
            height as int,
            vertical as int,
        );
        proof {
            lemma_layout_len(
                window_count as nat,
                idx as int,
                x as int,
                y as int,
                width as int,
                height as int,
                vertical as int,
            );
        }
        match window_count {
            0 => {
                let v: Vec<Rect> = vec![];
                assert(v@.map_values(|r: Rect| r.area()) =~= l);
                v
            },
            1 => {
                let v = vec![Rect::new(x, y, width, height)];
                assert(v@.map_values(|r: Rect| r.area()) =~= l);
                v
            },
            _ => {
                if idx % 2 == vertical {
                    let ghost rest = layout(
                        (window_count - 1) as nat,
                        idx + 1,
                        x as int,
                        y + (height / 2) as int,
                        width as int,
                        (height / 2) as int,
                        0,
                    );
                    assert(l[1] == rest[0]);
                    assert(layout_fits(
                        (window_count - 1) as nat,
                        idx + 1,
                        x as int,
                        y + (height / 2) as int,
                        width as int,
                        (height / 2) as int,
                        0,
                    )) by {
                        assert forall|i: int| 0 <= i < window_count - 1 implies {
                            let r = #[trigger] rest[i];
                            r.0 <= u32::MAX && r.1 <= u32::MAX
                        } by {
                            assert(rest[i] == l[i + 1]);
                        }
                    }
                    let mut vec = vec![Rect::new(x, y, width, height / 2)];
                    let mut tail = Window::geometry(
                        window_count - 1,
                        idx + 1,
                        x,
                        y + height / 2,
                        width,
                        height / 2,
                        0,
                    );
                    vec.append(&mut tail);
                    assert(vec@.map_values(|r: Rect| r.area()) =~= l) by {
                        assert forall|i: int| 1 <= i < l.len() implies #[trigger] l[i] == rest[i
                            - 1] by {}
                    }
                    vec
                } else {
                    let ghost rest = layout(
                        (window_count - 1) as nat,
                        idx + 1,
                        x + (width / 2) as int,
                        y as int,
                        (width / 2) as int,
                        height as int,
                        1,
                    );
                    assert(l[1] == rest[0]);
                    assert(layout_fits(
                        (window_count - 1) as nat,
                        idx + 1,
                        x + (width / 2) as int,
                        y as int,
                        (width / 2) as int,
                        height as int,
                        1,
                    )) by {
                        assert forall|i: int| 0 <= i < window_count - 1 implies {
                            let r = #[trigger] rest[i];
                            r.0 <= u32::MAX && r.1 <= u32::MAX
                        } by {
                            assert(rest[i] == l[i + 1]);
                        }
                    }
                    let mut vec = vec![Rect::new(x, y, width / 2, height)];
                    let mut tail = Window::geometry(
                        window_count - 1,
                        idx + 1,
                        x + width / 2,
                        y,
                        width / 2,
                        height,
                        1,
                    );
                    vec.append(&mut tail);
                    assert(vec@.map_values(|r: Rect| r.area()) =~= l) by {
                        assert forall|i: int| 1 <= i < l.len() implies #[trigger] l[i] == rest[i
                            - 1] by {}
                    }
                    vec
                }
            },
        }
    }
}

} // verus!
