use vstd::prelude::*;

use crate::{WindowState, WindowType, BORDER_WIDTH};

verus! {

/// How managed windows are arranged.
#[derive(Clone, Copy, Debug, PartialEq, Eq, Structural)]
pub enum Layout {
    Floating,
    Tiled(TiledLayout),
}

#[derive(Clone, Copy, Debug, PartialEq, Eq, Structural)]
pub enum TiledLayout {
    MainStack,
}

/// One reserved screen edge, in pixels: its depth and the span it covers.
#[derive(Clone, Copy, Debug, PartialEq, Eq, Structural)]
pub struct EdgeDimensions {
    pub width: u32,
    pub start: u32,
    pub end: u32,
}

impl Default for EdgeDimensions {
    fn default() -> (d: Self)
        ensures
            d == (EdgeDimensions { width: 0, start: 0, end: 0 }),
    {
        EdgeDimensions { width: 0, start: 0, end: 0 }
    }
}

/// The four screen edges docks have asked the manager to keep clear.
#[derive(Clone, Copy, Debug, PartialEq, Eq, Structural)]
pub struct ReservedEdges {
    pub top: EdgeDimensions,
    pub right: EdgeDimensions,
    pub left: EdgeDimensions,
    pub bottom: EdgeDimensions,
}

impl ReservedEdges {
    /// No edge reserved.
    pub open spec fn spec_default() -> ReservedEdges {
        ReservedEdges {
            top: EdgeDimensions { width: 0, start: 0, end: 0 },
            right: EdgeDimensions { width: 0, start: 0, end: 0 },
            left: EdgeDimensions { width: 0, start: 0, end: 0 },
            bottom: EdgeDimensions { width: 0, start: 0, end: 0 },
        }
    }
}

impl Default for ReservedEdges {
    fn default() -> (r: Self)
        ensures
            r == ReservedEdges::spec_default(),
    {
        ReservedEdges {
            top: EdgeDimensions { width: 0, start: 0, end: 0 },
            right: EdgeDimensions { width: 0, start: 0, end: 0 },
            left: EdgeDimensions { width: 0, start: 0, end: 0 },
            bottom: EdgeDimensions { width: 0, start: 0, end: 0 },
        }
    }
}

/// The layout choice together with the currently reserved edges.
#[derive(Clone, Copy, Debug, PartialEq, Eq, Structural)]
pub struct LayoutManager {
    pub layout: Layout,
    pub reserved: ReservedEdges,
}

/// What the layout asks to change on one window; a field is `Some` exactly
/// when it differs from the window's current value.
#[derive(Clone, Debug, PartialEq, Eq)]
pub struct WindowStateDiff {
    pub x: Option<i16>,
    pub y: Option<i16>,
    pub width: Option<u16>,
    pub height: Option<u16>,
    pub window: u32,
    pub window_type: Option<WindowType>,
    pub properties: Option<crate::WindowProperties>,
    pub is_floating: Option<bool>,
}

/// A window takes part in tiling when it is a non-floating normal window.
pub open spec fn is_tiled(w: WindowState) -> bool {
    w.window_type == WindowType::Normal && !w.is_floating
}

/// The tiled windows of a list, in order.
pub open spec fn spec_tiles(ws: Seq<WindowState>) -> Seq<WindowState>
    decreases ws.len(),
{
    if ws.len() == 0 {
        Seq::empty()
    } else {
        let rest = spec_tiles(ws.drop_last());
        if is_tiled(ws.last()) {
            rest.push(ws.last())
        } else {
            rest
        }
    }
}

/// On a list of tiled windows the tiles are the list itself.
pub proof fn lemma_tiles_identity(ws: Seq<WindowState>)
    requires
        forall|i: int| 0 <= i < ws.len() ==> is_tiled(#[trigger] ws[i]),
    ensures
        spec_tiles(ws) == ws,
    decreases ws.len(),
{
    if ws.len() == 0 {
        assert(spec_tiles(ws) =~= ws);
    } else {
        lemma_tiles_identity(ws.drop_last());
        assert(spec_tiles(ws) =~= ws);
    }
}

/// The target geometry `(x, y, width, height)` of tile `i` out of `n` under
/// the main-stack layout: tile 0 fills the available area (one tile) or the
/// left half (more); the rest form equal rows on the right half.
pub open spec fn spec_target(lm: LayoutManager, n: int, sw: u16, sh: u16, i: int) -> (
    int,
    int,
    int,
    int,
) {
    let b = BORDER_WIDTH as int;
    let top = lm.reserved.top.width as int;
    let bottom = lm.reserved.bottom.width as int;
    let left = lm.reserved.left.width as int;
    let right = lm.reserved.right.width as int;
    let avail_h = sh - top - bottom;
    if i == 0 {
        let w = if n == 1 {
            sw - 2 * b - right - left
        } else {
            sw as int / 2 - 2 * b
        };
        (left, top, w, avail_h - 2 * b)
    } else {
        let row = avail_h / (n - 1);
        (sw as int / 2, row * (i - 1) + top, sw as int / 2 - 2 * b, row - 2 * b)
    }
}

/// The diff that moves `w` to the target geometry `t`, with each field set
/// exactly when it changes.
pub open spec fn spec_diff_of(w: WindowState, t: (int, int, int, int)) -> WindowStateDiff {
    WindowStateDiff {
        x: if w.x != t.0 {
            Some(t.0 as i16)
        } else {
            None
        },
        y: if w.y != t.1 {
            Some(t.1 as i16)
        } else {
            None
        },
        width: if w.width != t.2 {
            Some(t.2 as u16)
        } else {
            None
        },
        height: if w.height != t.3 {
            Some(t.3 as u16)
        } else {
            None
        },
        window: w.window,
        window_type: None,
        properties: None,
        is_floating: None,
    }
}

/// The whole layout computation: `None` under the floating layout or with no
/// tile, else one diff per tile, in tile order.
pub open spec fn spec_layout(lm: LayoutManager, ws: Seq<WindowState>, sw: u16, sh: u16) -> Option<
    Seq<WindowStateDiff>,
> {
    match lm.layout {
        Layout::Floating => None,
        Layout::Tiled(TiledLayout::MainStack) => {
            let ts = spec_tiles(ws);
            if ts.len() == 0 {
                None
            } else {
                Some(
                    Seq::new(
                        ts.len(),
                        |i: int| spec_diff_of(ts[i], spec_target(lm, ts.len() as int, sw, sh, i)),
                    ),
                )
            }
        },
    }
}

/// The screen is large enough for the reserved edges, the borders and the
/// row division, and fits in signed 16-bit coordinates.
pub open spec fn layout_feasible(lm: LayoutManager, ws: Seq<WindowState>, sw: u16, sh: u16) -> bool {
    let b = BORDER_WIDTH as int;
    let top = lm.reserved.top.width as int;
    let bottom = lm.reserved.bottom.width as int;
    let left = lm.reserved.left.width as int;
    let right = lm.reserved.right.width as int;
    let n = spec_tiles(ws).len() as int;
    &&& sw <= 0x7fff
    &&& sh <= 0x7fff
    &&& top + bottom + 2 * b <= sh
    &&& left + right + 2 * b <= sw
    &&& 2 * b <= sw as int / 2
    &&& (n >= 2 ==> (sh - top - bottom) / (n - 1) >= 2 * b)
}

impl LayoutManager {
    /// Computes the geometry diff for the given window list on a
    /// `screen_width` by `screen_height` screen, honouring the reserved
    /// edges. Returns exactly what [`spec_layout`] describes.
    pub fn calculate_dimensions(
        &self,
        windows: &Vec<WindowState>,
        screen_width: u16,
        screen_height: u16,
    ) -> (r: Option<Vec<WindowStateDiff>>)
        requires
            layout_feasible(*self, windows@, screen_width, screen_height),
        ensures
            match r {
                None => spec_layout(*self, windows@, screen_width, screen_height) is None,
                Some(v) => spec_layout(*self, windows@, screen_width, screen_height) == Some(v@),
            },
    {
        match self.layout {
            Layout::Floating => None,
            Layout::Tiled(TiledLayout::MainStack) => {
                let tiles = collect_tiles(windows);
                let ghost ts = spec_tiles(windows@);
                if tiles.len() == 0 {
                    return None;
                }
                let n = tiles.len();
                let b: u16 = 5;
                assert(b as int == BORDER_WIDTH as int);
                let top: u16 = self.reserved.top.width as u16;
                let bottom: u16 = self.reserved.bottom.width as u16;
                let left: u16 = self.reserved.left.width as u16;
                let right: u16 = self.reserved.right.width as u16;
                let avail_h: u16 = screen_height - top - bottom;
                let mut out: Vec<WindowStateDiff> = Vec::new();

                let main_w: u16 = if n == 1 {
                    screen_width - 2 * b - right - left
                } else {
                    screen_width / 2 - 2 * b
                };
                let main_h: u16 = avail_h - 2 * b;
                let main = tiles[0];
                out.push(diff_of(&main, left as i16, top as i16, main_w, main_h));
                assert(out@[0] == spec_diff_of(ts[0], spec_target(*self, n as int, screen_width,
                    screen_height, 0)));

                if n >= 2 {
                    proof {
                        let ni = n as int;
                        let ah = avail_h as int;
                        assert(ah / (ni - 1) >= 2 * (BORDER_WIDTH as int));
                        let q = ah / (ni - 1);
                        vstd::arithmetic::div_mod::lemma_fundamental_div_mod(ah, ni - 1);
                        vstd::arithmetic::div_mod::lemma_mod_bound(ah, ni - 1);
                        assert((ni - 1) * q <= ah);
                        vstd::arithmetic::mul::lemma_mul_inequality(1, q, ni - 1);
                        vstd::arithmetic::mul::lemma_mul_is_commutative(ni - 1, q);
                        assert(ni - 1 <= ah);
                    }
                    let rows: u16 = (n - 1) as u16;
                    let row: u16 = avail_h / rows;
                    let h: u16 = row - 2 * b;
                    let w: u16 = screen_width / 2 - 2 * b;
                    let mut i: usize = 1;
                    while i < n
                        invariant
                            2 <= n <= tiles@.len(),
                            n == tiles@.len(),
                            1 <= i <= n,
                            ts == tiles@,
                            rows == n - 1,
                            screen_height <= 0x7fff,
                            screen_width <= 0x7fff,
                            top == self.reserved.top.width,
                            avail_h == screen_height - top - self.reserved.bottom.width,
                            row == avail_h as int / (n - 1),
                            h == row - 2 * 5,
                            row >= 2 * 5,
                            w == screen_width as int / 2 - 2 * 5,
                            out@.len() == i,
                            forall|j: int|
                                0 <= j < i ==> out@[j] == spec_diff_of(
                                    ts[j],
                                    spec_target(*self, n as int, screen_width, screen_height, j),
                                ),
                        decreases n - i,
                    {
                        proof {
                            lemma_row_offset_bound(avail_h as int, n as int, i as int);
                        }
                        let y: u16 = row * ((i - 1) as u16) + top;
                        let win = tiles[i];
                        out.push(diff_of(&win, (screen_width / 2) as i16, y as i16, w, h));
                        i += 1;
                    }
                }
                proof {
                    let expected = spec_layout(*self, windows@, screen_width, screen_height);
                    assert(expected matches Some(e) && e =~= out@);
                }
                Some(out)
            },
        }
    }
}

/// For `1 <= i < n` the row offset `(avail_h / (n-1)) * (i-1)` stays within
/// `avail_h`.
proof fn lemma_row_offset_bound(avail_h: int, n: int, i: int)
    requires
        0 <= avail_h,
        2 <= n,
        1 <= i < n,
    ensures
        (avail_h / (n - 1)) * (i - 1) <= avail_h,
        (avail_h / (n - 1)) * (i - 1) >= 0,
{
    let row = avail_h / (n - 1);
    vstd::arithmetic::div_mod::lemma_fundamental_div_mod(avail_h, n - 1);
    assert(row * (n - 1) <= avail_h) by {
        assert(avail_h == (n - 1) * row + avail_h % (n - 1));
        vstd::arithmetic::div_mod::lemma_mod_bound(avail_h, n - 1);
    }
    assert(row >= 0) by {
        vstd::arithmetic::div_mod::lemma_div_pos_is_pos(avail_h, n - 1);
    }
    vstd::arithmetic::mul::lemma_mul_inequality(i - 1, n - 1, row);
    vstd::arithmetic::mul::lemma_mul_is_commutative(row, n - 1);
    vstd::arithmetic::mul::lemma_mul_is_commutative(row, i - 1);
    vstd::arithmetic::mul::lemma_mul_nonnegative(row, i - 1);
}

/// Collects the tiled windows of a list, in order.
pub fn collect_tiles(windows: &Vec<WindowState>) -> (r: Vec<WindowState>)
    ensures
        r@ == spec_tiles(windows@),
{
    let mut r: Vec<WindowState> = Vec::new();
    let mut i: usize = 0;
    while i < windows.len()
        invariant
            0 <= i <= windows@.len(),
            r@ == spec_tiles(windows@.take(i as int)),
        decreases windows@.len() - i,
    {
        let w = windows[i];
        proof {
            assert(windows@.take(i as int + 1).drop_last() =~= windows@.take(i as int));
            assert(windows@.take(i as int + 1).last() == windows@[i as int]);
        }
        if matches!(w.window_type, WindowType::Normal) && !w.is_floating {
            r.push(w);
        }
        i += 1;
    }
    proof {
        assert(windows@.take(windows@.len() as int) =~= windows@);
    }
    r
}

/// Builds the diff from a window's current geometry to the target one.
fn diff_of(w: &WindowState, tx: i16, ty: i16, tw: u16, th: u16) -> (r: WindowStateDiff)
    ensures
        r == spec_diff_of(*w, (tx as int, ty as int, tw as int, th as int)),
{
    WindowStateDiff {
        x: if w.x != tx {
            Some(tx)
        } else {
            None
        },
        y: if w.y != ty {
            Some(ty)
        } else {
            None
        },
        width: if w.width != tw {
            Some(tw)
        } else {
            None
        },
        height: if w.height != th {
            Some(th)
        } else {
            None
        },
        window: w.window,
        window_type: None,
        properties: None,
        is_floating: None,
    }
}

/// A diff asks for a configure request only when one geometry field is set.
pub open spec fn spec_has_change(d: WindowStateDiff) -> bool {
    d.x is Some || d.y is Some || d.width is Some || d.height is Some
}

pub fn has_change(d: &WindowStateDiff) -> (r: bool)
    ensures
        r == spec_has_change(*d),
{
    d.x.is_some() || d.y.is_some() || d.width.is_some() || d.height.is_some()
}

/// The window as it stands after one diff is applied to its geometry.
pub open spec fn spec_apply_diff_to(w: WindowState, d: WindowStateDiff) -> WindowState {
    WindowState {
        x: match d.x {
            Some(v) => v,
            None => w.x,
        },
        y: match d.y {
            Some(v) => v,
            None => w.y,
        },
        width: match d.width {
            Some(v) => v,
            None => w.width,
        },
        height: match d.height {
            Some(v) => v,
            None => w.height,
        },
        ..w
    }
}

/// Layout idempotence: apply the main-stack diff to each tile and run the
/// layout again on the result; the second run returns a diff that changes
/// nothing.
pub proof fn lemma_layout_idempotent(lm: LayoutManager, ws: Seq<WindowState>, sw: u16, sh: u16)
    requires
        lm.layout == Layout::Tiled(TiledLayout::MainStack),
        spec_tiles(ws).len() >= 1,
        layout_feasible(lm, ws, sw, sh),
    ensures
        ({
            let ts = spec_tiles(ws);
            let ds = spec_layout(lm, ws, sw, sh)->Some_0;
            let ts2 = Seq::new(ts.len(), |i: int| spec_apply_diff_to(ts[i], ds[i]));
            &&& spec_layout(lm, ts2, sw, sh) matches Some(ds2) && forall|i: int|
                0 <= i < ds2.len() ==> !spec_has_change(#[trigger] ds2[i])
        }),
{
    let ts = spec_tiles(ws);
    let n = ts.len() as int;
    let ds = spec_layout(lm, ws, sw, sh)->Some_0;
    let ts2 = Seq::new(ts.len(), |i: int| spec_apply_diff_to(ts[i], ds[i]));
    let b = BORDER_WIDTH as int;
    let top = lm.reserved.top.width as int;
    let bottom = lm.reserved.bottom.width as int;
    let avail_h = sh - top - bottom;

    assert forall|i: int| 0 <= i < n implies is_tiled(#[trigger] ts2[i]) by {
        lemma_tiles_are_tiled(ws, i);
    }
    lemma_tiles_identity(ts2);
    assert(spec_tiles(ts2) == ts2);

    assert forall|i: int| 0 <= i < n implies {
        let t = spec_target(lm, n, sw, sh, i);
        (#[trigger] ts2[i]).x == t.0 && ts2[i].y == t.1 && ts2[i].width == t.2 && ts2[i].height
            == t.3
    } by {
        let t = spec_target(lm, n, sw, sh, i);
        lemma_target_in_range(lm, n, sw, sh, i);
        assert(ds[i] == spec_diff_of(ts[i], t));
    }

    let ds2 = spec_layout(lm, ts2, sw, sh)->Some_0;
    assert forall|i: int| 0 <= i < ds2.len() implies !spec_has_change(#[trigger] ds2[i]) by {
        let t = spec_target(lm, n, sw, sh, i);
        assert(ds2[i] == spec_diff_of(ts2[i], t));
    }
}

/// Each entry of the tile list is itself tiled.
proof fn lemma_tiles_are_tiled(ws: Seq<WindowState>, i: int)
    requires
        0 <= i < spec_tiles(ws).len(),
    ensures
        is_tiled(spec_tiles(ws)[i]),
    decreases ws.len(),
{
    if ws.len() > 0 {
        if i < spec_tiles(ws.drop_last()).len() {
            lemma_tiles_are_tiled(ws.drop_last(), i);
        }
    }
}

/// Every target geometry the layout hands out fits the machine ranges the
/// diff casts to.
proof fn lemma_target_in_range(lm: LayoutManager, n: int, sw: u16, sh: u16, i: int)
    requires
        layout_feasible_counts(lm, n, sw, sh),
        n >= 1,
        0 <= i < n,
    ensures
        ({
            let t = spec_target(lm, n, sw, sh, i);
            &&& 0 <= t.0 <= 0x7fff
            &&& 0 <= t.1 <= 0x7fff
            &&& 0 <= t.2 <= 0xffff
            &&& 0 <= t.3 <= 0xffff
        }),
{
    let b = BORDER_WIDTH as int;
    let top = lm.reserved.top.width as int;
    let bottom = lm.reserved.bottom.width as int;
    let avail_h = sh - top - bottom;
    if i >= 1 {
        lemma_row_offset_bound(avail_h, n, i);
        vstd::arithmetic::div_mod::lemma_div_pos_is_pos(avail_h, n - 1);
    }
}

/// [`layout_feasible`] with the tile count given directly.
pub open spec fn layout_feasible_counts(lm: LayoutManager, n: int, sw: u16, sh: u16) -> bool {
    let b = BORDER_WIDTH as int;
    let top = lm.reserved.top.width as int;
    let bottom = lm.reserved.bottom.width as int;
    let left = lm.reserved.left.width as int;
    let right = lm.reserved.right.width as int;
    &&& sw <= 0x7fff
    &&& sh <= 0x7fff
    &&& top + bottom + 2 * b <= sh
    &&& left + right + 2 * b <= sw
    &&& 2 * b <= sw as int / 2
    &&& (n >= 2 ==> (sh - top - bottom) / (n - 1) >= 2 * b)
}

/// Layout coverage for the main-stack layout with at least two tiles, an
/// even screen width, no left or right reservation and rows that divide the
/// available height evenly: the main and stack widths plus four borders span
/// the width, and the stacked heights plus their borders span the available
/// height.
pub proof fn lemma_layout_coverage(lm: LayoutManager, n: int, sw: u16, sh: u16)
    requires
        lm.layout == Layout::Tiled(TiledLayout::MainStack),
        n >= 2,
        layout_feasible_counts(lm, n, sw, sh),
        sw as int % 2 == 0,
        lm.reserved.left.width == 0,
        lm.reserved.right.width == 0,
        (sh - lm.reserved.top.width - lm.reserved.bottom.width) as int % (n - 1) == 0,
    ensures
        ({
            let b = BORDER_WIDTH as int;
            let main = spec_target(lm, n, sw, sh, 0);
            let stack = spec_target(lm, n, sw, sh, 1);
            main.2 + stack.2 + 4 * b == sw
        }),
        ({
            let b = BORDER_WIDTH as int;
            let stack = spec_target(lm, n, sw, sh, 1);
            (n - 1) * stack.3 + (n - 1) * 2 * b == sh - lm.reserved.top.width
                - lm.reserved.bottom.width
        }),
{
    let b = BORDER_WIDTH as int;
    let top = lm.reserved.top.width as int;
    let bottom = lm.reserved.bottom.width as int;
    let avail_h = sh - top - bottom;
    let row = avail_h / (n - 1);
    assert(sw as int / 2 + sw as int / 2 == sw) by {
        vstd::arithmetic::div_mod::lemma_fundamental_div_mod(sw as int, 2);
    }
    assert(row * (n - 1) == avail_h) by {
        vstd::arithmetic::div_mod::lemma_fundamental_div_mod(avail_h, n - 1);
    }
    assert((n - 1) * (row - 2 * b) + (n - 1) * 2 * b == avail_h) by {
        vstd::arithmetic::mul::lemma_mul_is_distributive_sub(n - 1, row, 2 * b);
        vstd::arithmetic::mul::lemma_mul_is_commutative(row, n - 1);
    }
}

} // verus!
