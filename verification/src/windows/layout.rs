//! Where the desktop draws its panels on a screen of a given size: the open windows that are
//! far enough into their opening animation, clipped to the screen, the dock and the Spotlight
//! panel.
use vstd::prelude::*;
use crate::windows::{Window, WindowManager, window_frame};

verus! {

/// The largest side, and the largest offset from the origin, of a window the desktop draws.
pub const MAX_SIDE: usize = 16384;

/// A window's rectangle on screen, clipped to it, and whether its border is lit (it has the
/// focus or is marked active).
pub struct WindowPlacement {
    pub index: usize,
    pub x: usize,
    pub y: usize,
    pub w: usize,
    pub h: usize,
    pub focused: bool,
}

/// The panels of one desktop frame: the windows drawn, the dock's left edge and width, and
/// the Spotlight panel's left edge, height and opacity (it is 640 wide, 140 from the top).
pub struct DesktopLayout {
    pub windows: Vec<WindowPlacement>,
    pub dock_x: usize,
    pub dock_w: usize,
    pub spotlight_x: usize,
    pub spotlight_h: usize,
    pub spotlight_alpha: u16,
}

/// The window has begun to open and its size and position are within the drawable range.
pub open spec fn window_sane(win: Window) -> bool {
    &&& win.anim_scale != 0
    &&& win.w <= MAX_SIDE && win.h <= MAX_SIDE
    &&& -(MAX_SIDE as int) <= win.x <= MAX_SIDE && -(MAX_SIDE as int) <= win.y <= MAX_SIDE
}

pub open spec fn min_int(a: int, b: int) -> int {
    if a < b { a } else { b }
}

/// The rectangle that window `win` is drawn in on a `sw` x `sh` screen: its animated frame,
/// cut at the screen's right and bottom edges; none when it lies off screen or is smaller
/// than a title bar and a line of text.
pub open spec fn placement(win: Window, sw: int, sh: int) -> Option<(int, int, int, int)> {
    let (x, y, w, h) = window_frame(win);
    if !window_sane(win) || x >= sw || y >= sh || w < 24 || h < 36 {
        None
    } else {
        Some((x, y, min_int(w, sw - x), min_int(h, sh - y)))
    }
}

/// The windows among the first `n` that are drawn, in order, with their index, rectangle and
/// whether the border is lit.
pub open spec fn placements(ws: Seq<Window>, focused: int, sw: int, sh: int, n: int) -> Seq<(int, int, int, int, int, bool)>
    decreases n,
{
    if n <= 0 {
        Seq::empty()
    } else {
        let prev = placements(ws, focused, sw, sh, n - 1);
        match placement(ws[n - 1], sw, sh) {
            Some((x, y, w, h)) => prev.push((n - 1, x, y, w, h, n - 1 == focused || ws[n - 1].active)),
            None => prev,
        }
    }
}

pub open spec fn placement_view(p: WindowPlacement) -> (int, int, int, int, int, bool) {
    (p.index as int, p.x as int, p.y as int, p.w as int, p.h as int, p.focused)
}

impl WindowManager {
    /// The panels of a desktop frame on a `sw` x `sh` screen: the windows drawn (see
    /// `placements`); the nine-icon dock, 564 pixels wide, where pointer clicks find it (see
    /// `dock_left`); and the Spotlight panel, centred, 120 pixels high with an empty query
    /// and 240 with results, faded in with its animation step.
    pub fn layout(&self, sw: usize, sh: usize) -> (r: DesktopLayout)
        requires
            self.wf(),
            640 <= sw,
            400 <= sh,
        ensures
            r.windows@.map_values(|p: WindowPlacement| placement_view(p)) == placements(
                self.windows@,
                self.focused as int,
                sw as int,
                sh as int,
                9,
            ),
            r.dock_w == 564,
            r.dock_x == crate::windows::mouse::dock_left(sw),
            r.spotlight_x == (sw - 640) / 2,
            r.spotlight_h == (if self.spotlight_query@.len() == 0 { 120int } else { 240int }),
            r.spotlight_alpha == 245 * self.spotlight_anim / 256,
    {
        let mut out: Vec<WindowPlacement> = Vec::new();
        let mut i: usize = 0;
        while i < 9
            invariant
                self.wf(),
                i <= 9,
                out@.map_values(|p: WindowPlacement| placement_view(p)) == placements(
                    self.windows@,
                    self.focused as int,
                    sw as int,
                    sh as int,
                    i as int,
                ),
            decreases 9 - i,
        {
            let win = &self.windows[i];
            let ghost prev = out@;
            let sane = win.anim_scale != 0 && win.w <= MAX_SIDE && win.h <= MAX_SIDE
                && -16384 <= win.x && win.x <= 16384 && -16384 <= win.y && win.y <= 16384;
            if sane {
                let (wx, wy, ww, wh) = win.frame();
                if wx < sw && wy < sh && ww >= 24 && wh >= 36 {
                    let cw = if ww < sw - wx { ww } else { sw - wx };
                    let ch = if wh < sh - wy { wh } else { sh - wy };
                    out.push(WindowPlacement { index: i, x: wx, y: wy, w: cw, h: ch, focused: i == self.focused || win.active });
                    assert(out@.map_values(|p: WindowPlacement| placement_view(p)) =~= prev.map_values(
                        |p: WindowPlacement| placement_view(p),
                    ).push((i as int, wx as int, wy as int, cw as int, ch as int, i == self.focused || win.active)));
                }
            }
            i += 1;
        }
        assert(245 * self.spotlight_anim <= 245 * 256) by (nonlinear_arith)
            requires
                self.spotlight_anim <= 256,
        {
        }
        let spotlight_alpha = (245 * self.spotlight_anim as u32 / 256) as u16;
        let spotlight_h: usize = if self.spotlight_query.len() == 0 { 120 } else { 240 };
        DesktopLayout {
            windows: out,
            dock_x: sw / 2 - 282,
            dock_w: 564,
            spotlight_x: (sw - 640) / 2,
            spotlight_h,
            spotlight_alpha,
        }
    }
}

} // verus!
