//! What a completed pointer packet does to the desktop: close buttons, grabbing a window by
//! its title bar or resize corner, moving and resizing it, snapping it to a screen half on
//! release, and the dock.
use vstd::prelude::*;
use crate::windows::{Window, WindowManager};

verus! {

/// The windows, the focus and the drag that a pointer packet changes.
pub type Desk = (Seq<Window>, usize, Option<(usize, isize, isize, u8)>);

/// A window takes pointer clicks once it is open and at least 180/256 of its way open.
pub open spec fn eligible(w: Window) -> bool {
    w.is_open && w.anim_scale >= 180
}

/// The centre of a window's close button: 18 pixels in from its right edge, 14 below its top.
pub open spec fn close_center(w: Window) -> (isize, isize) {
    ((((w.x as usize) + w.w - 18) as usize) as isize, (((w.y as usize) + 14) as usize) as isize)
}

/// The pointer is within 8 pixels of the close button's centre.
pub open spec fn on_close(w: Window, mx: isize, my: isize) -> bool {
    let (cx, cy) = close_center(w);
    (mx - cx) * (mx - cx) + (my - cy) * (my - cy) < 64
}

/// The close-button test of a window runs without overflow.
pub open spec fn close_fits(w: Window, mx: isize, my: isize) -> bool {
    let (cx, cy) = close_center(w);
    &&& (w.x as usize) + w.w <= usize::MAX
    &&& (w.x as usize) + w.w >= 18
    &&& (w.y as usize) + 14 <= usize::MAX
    &&& isize::MIN <= mx - cx <= isize::MAX
    &&& isize::MIN <= my - cy <= isize::MAX
    &&& (mx - cx) * (mx - cx) + (my - cy) * (my - cy) <= isize::MAX
}

/// The last of the first `n` windows whose close button a fresh press hit.
pub open spec fn close_index(ws: Seq<Window>, mx: isize, my: isize, fresh: bool, n: int) -> Option<int>
    decreases n,
{
    if n <= 0 {
        None
    } else if fresh && eligible(ws[n - 1]) && on_close(ws[n - 1], mx, my) {
        Some(n - 1)
    } else {
        close_index(ws, mx, my, fresh, n - 1)
    }
}

/// The windows after the close buttons are checked: the one hit (if any) is closed.
pub open spec fn after_close(ws: Seq<Window>, mx: isize, my: isize, fresh: bool) -> Seq<Window> {
    match close_index(ws, mx, my, fresh, ws.len() as int) {
        Some(i) => ws.update(i, Window { is_open: false, ..ws[i] }),
        None => ws,
    }
}

/// The pointer is on a window's 24-pixel resize corner at its bottom right.
pub open spec fn on_corner(w: Window, mx: isize, my: isize) -> bool {
    &&& mx >= w.x + (w.w as isize) - 18
    &&& mx <= w.x + (w.w as isize) + 6
    &&& my >= w.y + (w.h as isize) - 18
    &&& my <= w.y + (w.h as isize) + 6
}

/// The pointer is on a window's 28-pixel title bar.
pub open spec fn on_title(w: Window, mx: isize, my: isize) -> bool {
    mx >= w.x && mx < w.x + (w.w as isize) && my >= w.y && my < w.y + 28
}

/// The grab tests of a window run without overflow.
pub open spec fn grab_fits(w: Window, mx: isize, my: isize) -> bool {
    &&& isize::MIN <= w.x + (w.w as isize) - 18 && w.x + (w.w as isize) + 6 <= isize::MAX
    &&& isize::MIN <= w.y + (w.h as isize) - 18 && w.y + (w.h as isize) + 6 <= isize::MAX
    &&& w.y + 28 <= isize::MAX
    &&& isize::MIN <= mx - w.x <= isize::MAX && isize::MIN <= my - w.y <= isize::MAX
}

/// The topmost of the first `n` windows that a press grabs, with the grab offset and the
/// mode (1: resize from the corner, with the pointer itself as offset; 0: move by the
/// title bar, with the offset of the pointer in the window).
pub open spec fn grab_target(ws: Seq<Window>, mx: isize, my: isize, n: int) -> Option<(int, isize, isize, u8)>
    decreases n,
{
    if n <= 0 {
        None
    } else if eligible(ws[n - 1]) && on_corner(ws[n - 1], mx, my) {
        Some((n - 1, mx, my, 1u8))
    } else if eligible(ws[n - 1]) && on_title(ws[n - 1], mx, my) {
        Some((n - 1, (mx - ws[n - 1].x) as isize, (my - ws[n - 1].y) as isize, 0u8))
    } else {
        grab_target(ws, mx, my, n - 1)
    }
}

/// The grab tests of the windows examined (from the top down to the one grabbed) run without
/// overflow.
pub open spec fn grabs_fit(ws: Seq<Window>, mx: isize, my: isize, n: int) -> bool
    decreases n,
{
    if n <= 0 {
        true
    } else {
        &&& eligible(ws[n - 1]) ==> grab_fits(ws[n - 1], mx, my)
        &&& !(eligible(ws[n - 1]) && (on_corner(ws[n - 1], mx, my) || on_title(ws[n - 1], mx, my)))
            ==> grabs_fit(ws, mx, my, n - 1)
    }
}

/// A fresh press grabs a window: it moves to the top of the stack, the drag starts, and the
/// window takes the focus if it lacked it (the window at the old focus index loses its mark).
pub open spec fn after_grab(d: Desk, mx: isize, my: isize, fresh: bool) -> Desk {
    let (ws, focused, drag) = d;
    if !fresh {
        d
    } else {
        match grab_target(ws, mx, my, ws.len() as int) {
            Some((i, ox, oy, mode)) => {
                let ws2 = ws.remove(i).push(ws[i]);
                let top = (ws2.len() - 1) as usize;
                let drag2 = Some((top, ox, oy, mode));
                if !ws2[top as int].active {
                    let ws3 = ws2.update(focused as int, Window { active: false, ..ws2[focused as int] });
                    (ws3.update(top as int, Window { active: true, ..ws3[top as int] }), top, drag2)
                } else {
                    (ws2, focused, drag2)
                }
            },
            None => d,
        }
    }
}

/// While the button is held, the dragged window follows the pointer (mode 0) or its bottom
/// right corner does (mode 1: at least 280 by 180, at most the screen less 60 by 80).
pub open spec fn after_drag(d: Desk, mx: isize, my: isize, w: usize, h: usize) -> Desk {
    let (ws, focused, drag) = d;
    match drag {
        Some((idx, ox, oy, mode)) => {
            let win = ws[idx as int];
            if mode == 0 {
                (ws.update(idx as int, Window { x: (mx - ox) as isize, y: (my - oy) as isize, ..win }), focused, drag)
            } else if mode == 1 {
                let nw = (if mx - win.x > 280 { mx - win.x } else { 280 }) as usize;
                let nh = (if my - win.y > 180 { my - win.y } else { 180 }) as usize;
                let cw = if nw < w - 60 { nw as int } else { w - 60 };
                let ch = if nh < h - 80 { nh as int } else { h - 80 };
                (ws.update(idx as int, Window { w: cw as usize, h: ch as usize, ..win }), focused, drag)
            } else {
                d
            }
        },
        None => d,
    }
}

/// The arithmetic of a drag step stays within range.
pub open spec fn drag_fits(d: Desk, mx: isize, my: isize, w: usize, h: usize) -> bool {
    match d.2 {
        Some((idx, ox, oy, mode)) => {
            let win = d.0[idx as int];
            &&& mode == 0 ==> isize::MIN <= mx - ox <= isize::MAX && isize::MIN <= my - oy <= isize::MAX
            &&& mode == 1 ==> isize::MIN <= mx - win.x <= isize::MAX && isize::MIN <= my - win.y <= isize::MAX
                && w >= 60 && h >= 80
        },
        None => true,
    }
}

/// Width of the screen left for snapped windows: less the 180-pixel sidebar, the
/// 230-pixel panel and a 20-pixel gap.
pub open spec fn avail_width(w: usize) -> int {
    if w > 430 {
        w - 430
    } else {
        0
    }
}

/// On release, a window that was being moved snaps to the left half when dropped at the
/// left edge, to the right half at the right edge, and fills the work area at the top edge.
pub open spec fn after_release(d: Desk, mx: isize, my: isize, w: usize, h: usize) -> Desk {
    let (ws, focused, drag) = d;
    let hh = (if h > 90 { h - 90 } else { 0 }) as usize;
    let half = (avail_width(w) / 2) as usize;
    let ws2 = match drag {
        Some((idx, _, _, mode)) => {
            let win = ws[idx as int];
            if mode != 0 {
                ws
            } else if mx <= 35 {
                ws.update(idx as int, Window { x: 190, y: 20, w: half, h: hh, ..win })
            } else if mx >= (w as isize) - 45 {
                ws.update(idx as int, Window { x: ((180 + half + 20) as usize) as isize, y: 20, w: half, h: hh, ..win })
            } else if my <= 28 {
                ws.update(idx as int, Window { x: 190, y: 20, w: avail_width(w) as usize, h: hh, ..win })
            } else {
                ws
            }
        },
        None => ws,
    };
    (ws2, focused, None)
}

/// Left edge of the nine-icon dock, centred at the bottom of a screen `w` wide.
pub open spec fn dock_left(w: usize) -> int {
    ((w / 2) as isize) - 282
}

/// The dock icon under the pointer: icons are 48 pixels wide, 60 apart, from 12 pixels
/// into the dock.
pub open spec fn dock_slot(mx: isize, w: usize) -> Option<int> {
    let off = mx - dock_left(w) - 12;
    if 0 <= off && off < 9 * 60 && off % 60 <= 48 {
        Some(off / 60)
    } else {
        None
    }
}

/// A fresh press on a dock icon (the bar is 52 pixels high, 60 above the bottom) restores
/// and focuses the window at that position: it opens (its animation restarts from 32/256
/// when it was fully closed) and becomes active, and the window at the old focus index
/// loses its mark.
pub open spec fn after_dock(d: Desk, mx: isize, my: isize, fresh: bool, w: usize, h: usize) -> Desk {
    let (ws, focused, drag) = d;
    let top = (h as isize) - 60;
    if fresh && my >= top && my <= top + 52 {
        match dock_slot(mx, w) {
            Some(i) => {
                if i < ws.len() {
                    let win = ws[i];
                    let ws1 = ws.update(i, Window { is_open: true, anim_scale: if win.anim_scale == 0 { 32 } else { win.anim_scale }, ..win });
                    let ws2 = ws1.update(focused as int, Window { active: false, ..ws1[focused as int] });
                    (ws2.update(i, Window { active: true, ..ws2[i] }), i as usize, drag)
                } else {
                    d
                }
            },
            None => d,
        }
    } else {
        d
    }
}

/// The whole effect of a completed packet at (`mx`, `my`) with button state `pressed`, on a
/// screen of `w` by `h`.
pub open spec fn pointer_step(d: Desk, mx: isize, my: isize, pressed: bool, was: bool, w: usize, h: usize) -> Desk {
    let fresh = pressed && !was;
    let d1 = (after_close(d.0, mx, my, fresh), d.1, d.2);
    let d2 = after_grab(d1, mx, my, fresh);
    let d3 = if pressed {
        after_drag(d2, mx, my, w, h)
    } else if was {
        after_release(d2, mx, my, w, h)
    } else {
        d2
    };
    after_dock(d3, mx, my, fresh, w, h)
}

/// All the arithmetic of a packet stays within range.
pub open spec fn pointer_fits(d: Desk, mx: isize, my: isize, pressed: bool, was: bool, w: usize, h: usize) -> bool {
    let fresh = pressed && !was;
    let d1 = (after_close(d.0, mx, my, fresh), d.1, d.2);
    let d2 = after_grab(d1, mx, my, fresh);
    &&& forall|i: int| 0 <= i < d.0.len() && eligible(#[trigger] d.0[i]) ==> close_fits(d.0[i], mx, my)
    &&& fresh ==> grabs_fit(d1.0, mx, my, d1.0.len() as int)
    &&& pressed ==> drag_fits(d2, mx, my, w, h)
    &&& !pressed && was ==> isize::MIN + 45 <= (w as isize)
    &&& isize::MIN + 60 <= (h as isize)
    &&& fresh && my >= (h as isize) - 60 && my <= (h as isize) - 8 ==> dock_left(w) + 540 <= isize::MAX
}

proof fn lemma_close_index_range(ws: Seq<Window>, mx: isize, my: isize, fresh: bool, n: int)
    ensures
        close_index(ws, mx, my, fresh, n) matches Some(i) ==> 0 <= i < n,
    decreases n,
{
    if n > 0 {
        lemma_close_index_range(ws, mx, my, fresh, n - 1);
    }
}

impl WindowManager {
    /// The desktop state a packet changes.
    pub open spec fn desk(&self) -> Desk {
        (self.windows@, self.focused, self.drag)
    }

    fn close_phase(&mut self, mx: isize, my: isize, fresh: bool)
        requires
            old(self).wf(),
            forall|i: int| 0 <= i < 9 && eligible(#[trigger] old(self).windows@[i]) ==> close_fits(old(self).windows@[i], mx, my),
        ensures
            final(self).wf(),
            final(self).windows@ == after_close(old(self).windows@, mx, my, fresh),
            final(self).focused == old(self).focused && final(self).drag == old(self).drag,
            final(self).spotlight_anim == old(self).spotlight_anim,
            final(self).spotlight_active == old(self).spotlight_active,
            final(self).spotlight_query@ == old(self).spotlight_query@,
            final(self).mouse_was_pressed == old(self).mouse_was_pressed,
            final(self).alt_pressed == old(self).alt_pressed,
    {
        let mut close_idx: Option<usize> = None;
        let mut i: usize = 0;
        while i < self.windows.len()
            invariant
                self.windows@.len() == 9,
                i <= 9,
                self.windows@ == old(self).windows@,
                forall|k: int| 0 <= k < 9 && eligible(#[trigger] old(self).windows@[k]) ==> close_fits(old(self).windows@[k], mx, my),
                close_idx == (match close_index(self.windows@, mx, my, fresh, i as int) {
                    Some(k) => Some(k as usize),
                    None => None::<usize>,
                }),
            decreases 9 - i,
        {
            let win = self.windows[i];
            if win.is_open && win.anim_scale >= 180 {
                let cx_btn = win.x as usize + win.w - 18;
                let cy_btn = win.y as usize + 14;
                let dx = mx - cx_btn as isize;
                let dy = my - cy_btn as isize;
                assert(dx * dx >= 0 && dy * dy >= 0) by (nonlinear_arith);
                if dx * dx + dy * dy < 64 && fresh {
                    close_idx = Some(i);
                }
            }
            i += 1;
        }
        proof {
            lemma_close_index_range(self.windows@, mx, my, fresh, 9);
        }
        if let Some(k) = close_idx {
            let mut wnd = self.windows[k];
            wnd.is_open = false;
            self.windows.set(k, wnd);
        }
        assert forall|j: int| 0 <= j < 9 implies (#[trigger] self.windows@[j]).anim_scale <= 256 by {
            assert(old(self).windows@[j].anim_scale <= 256);
        }
    }
}

proof fn lemma_grab_target_range(ws: Seq<Window>, mx: isize, my: isize, n: int)
    ensures
        grab_target(ws, mx, my, n) matches Some((i, _, _, m)) ==> 0 <= i < n && (m == 0 || m == 1),
    decreases n,
{
    if n > 0 {
        lemma_grab_target_range(ws, mx, my, n - 1);
    }
}

proof fn lemma_dock_hit(off: int, i: int)
    requires
        0 <= i < 9,
    ensures
        (0 <= off - 60 * i <= 48) <==> (0 <= off && off < 540 && off / 60 == i && off % 60 <= 48),
{
    if 0 <= off - 60 * i <= 48 {
        vstd::arithmetic::div_mod::lemma_fundamental_div_mod_converse(off, 60, i, off - 60 * i);
    }
    if 0 <= off && off / 60 == i && off % 60 <= 48 {
        vstd::arithmetic::div_mod::lemma_fundamental_div_mod(off, 60);
    }
}

impl WindowManager {
    fn grab_phase(&mut self, mx: isize, my: isize, fresh: bool)
        requires
            old(self).wf(),
            fresh ==> grabs_fit(old(self).windows@, mx, my, 9),
        ensures
            final(self).wf(),
            final(self).desk() == after_grab(old(self).desk(), mx, my, fresh),
            final(self).spotlight_anim == old(self).spotlight_anim,
            final(self).spotlight_active == old(self).spotlight_active,
            final(self).spotlight_query@ == old(self).spotlight_query@,
            final(self).mouse_was_pressed == old(self).mouse_was_pressed,
            final(self).alt_pressed == old(self).alt_pressed,
    {
        if !fresh {
            return;
        }
        let ghost ws0 = self.windows@;
        let mut found: Option<(usize, isize, isize, u8)> = None;
        let mut i: usize = 9;
        while i > 0
            invariant_except_break
                self.windows@ == ws0,
                ws0.len() == 9,
                i <= 9,
                found is None,
                grab_target(ws0, mx, my, 9) == grab_target(ws0, mx, my, i as int),
                grabs_fit(ws0, mx, my, i as int),
            ensures
                self.windows@ == ws0,
                found == (match grab_target(ws0, mx, my, 9) {
                    Some((k, ox, oy, m)) => Some((k as usize, ox, oy, m)),
                    None => None::<(usize, isize, isize, u8)>,
                }),
            decreases i,
        {
            let win = self.windows[i - 1];
            if win.is_open && win.anim_scale >= 180 {
                if mx >= win.x + win.w as isize - 18 && mx <= win.x + win.w as isize + 6 && my >= win.y
                    + win.h as isize - 18 && my <= win.y + win.h as isize + 6 {
                    found = Some((i - 1, mx, my, 1));
                    break;
                } else if mx >= win.x && mx < win.x + win.w as isize && my >= win.y && my < win.y + 28 {
                    found = Some((i - 1, mx - win.x, my - win.y, 0));
                    break;
                }
            }
            i -= 1;
        }
        proof {
            lemma_grab_target_range(ws0, mx, my, 9);
        }
        if let Some((k, ox, oy, mode)) = found {
            let win = self.windows.remove(k);
            self.windows.push(win);
            let top = self.windows.len() - 1;
            self.drag = Some((top, ox, oy, mode));
            if !self.windows[top].active {
                let f = self.focused;
                let mut wf_ = self.windows[f];
                wf_.active = false;
                self.windows.set(f, wf_);
                let mut wt = self.windows[top];
                wt.active = true;
                self.windows.set(top, wt);
                self.focused = top;
            }
            assert forall|j: int| 0 <= j < 9 implies (#[trigger] self.windows@[j]).anim_scale <= 256 by {
                assert forall|q: int| 0 <= q < 9 implies (#[trigger] ws0[q]).anim_scale <= 256 by {
                    assert(old(self).windows@[q].anim_scale <= 256);
                }
                if j < k {
                    assert(ws0.remove(k as int)[j] == ws0[j]);
                } else if j < 8 {
                    assert(ws0.remove(k as int)[j] == ws0[j + 1]);
                }
            }
        }
    }

    fn drag_phase(&mut self, mx: isize, my: isize, w: usize, h: usize)
        requires
            old(self).wf(),
            drag_fits(old(self).desk(), mx, my, w, h),
        ensures
            final(self).wf(),
            final(self).desk() == after_drag(old(self).desk(), mx, my, w, h),
            final(self).spotlight_anim == old(self).spotlight_anim,
            final(self).spotlight_active == old(self).spotlight_active,
            final(self).spotlight_query@ == old(self).spotlight_query@,
            final(self).mouse_was_pressed == old(self).mouse_was_pressed,
            final(self).alt_pressed == old(self).alt_pressed,
    {
        if let Some((idx, ox, oy, mode)) = self.drag {
            let mut win = self.windows[idx];
            if mode == 0 {
                win.x = mx - ox;
                win.y = my - oy;
                self.windows.set(idx, win);
            } else if mode == 1 {
                let dxw = mx - win.x;
                let dyw = my - win.y;
                let nw = (if dxw > 280 { dxw } else { 280 }) as usize;
                let nh = (if dyw > 180 { dyw } else { 180 }) as usize;
                win.w = if nw < w - 60 { nw } else { w - 60 };
                win.h = if nh < h - 80 { nh } else { h - 80 };
                self.windows.set(idx, win);
            }
            assert forall|j: int| 0 <= j < 9 implies (#[trigger] self.windows@[j]).anim_scale <= 256 by {
                assert(old(self).windows@[j].anim_scale <= 256);
            }
        }
    }

    fn release_phase(&mut self, mx: isize, my: isize, w: usize, h: usize)
        requires
            old(self).wf(),
            isize::MIN + 45 <= (w as isize),
        ensures
            final(self).wf(),
            final(self).desk() == after_release(old(self).desk(), mx, my, w, h),
            final(self).spotlight_anim == old(self).spotlight_anim,
            final(self).spotlight_active == old(self).spotlight_active,
            final(self).spotlight_query@ == old(self).spotlight_query@,
            final(self).mouse_was_pressed == old(self).mouse_was_pressed,
            final(self).alt_pressed == old(self).alt_pressed,
    {
        if let Some((idx, _, _, mode)) = self.drag {
            if mode == 0 {
                let side_margin = 180usize;
                let right_margin = 230usize;
                let avail_w = w.saturating_sub(side_margin + right_margin + 20);
                let mut win = self.windows[idx];
                if mx <= 35 {
                    win.x = side_margin as isize + 10;
                    win.y = 20;
                    win.w = avail_w / 2;
                    win.h = h.saturating_sub(90);
                    self.windows.set(idx, win);
                } else if mx >= (w as isize - 45) {
                    win.x = (side_margin + avail_w / 2 + 20) as isize;
                    win.y = 20;
                    win.w = avail_w / 2;
                    win.h = h.saturating_sub(90);
                    self.windows.set(idx, win);
                } else if my <= 28 {
                    win.x = side_margin as isize + 10;
                    win.y = 20;
                    win.w = avail_w;
                    win.h = h.saturating_sub(90);
                    self.windows.set(idx, win);
                }
                assert forall|j: int| 0 <= j < 9 implies (#[trigger] self.windows@[j]).anim_scale <= 256 by {
                    assert(old(self).windows@[j].anim_scale <= 256);
                }
            }
        }
        self.drag = None;
    }

    fn dock_phase(&mut self, mx: isize, my: isize, fresh: bool, w: usize, h: usize)
        requires
            old(self).wf(),
            isize::MIN + 60 <= (h as isize),
            fresh && my >= (h as isize) - 60 && my <= (h as isize) - 8 ==> dock_left(w) + 540 <= isize::MAX,
        ensures
            final(self).wf(),
            final(self).desk() == after_dock(old(self).desk(), mx, my, fresh, w, h),
            final(self).spotlight_anim == old(self).spotlight_anim,
            final(self).spotlight_active == old(self).spotlight_active,
            final(self).spotlight_query@ == old(self).spotlight_query@,
            final(self).mouse_was_pressed == old(self).mouse_was_pressed,
            final(self).alt_pressed == old(self).alt_pressed,
    {
        let dock_start_x = (w / 2) as isize - 282;
        let dock_y = h as isize - 60;
        if fresh && my >= dock_y && my <= dock_y + 52 {
            let ghost d0 = self.desk();
            let ghost slot = dock_slot(mx, w);
            let mut i: usize = 0;
            while i < 9
                invariant
                    i <= 9,
                    dock_start_x == dock_left(w),
                    d0 == old(self).desk(),
                    slot == dock_slot(mx, w),
                    fresh && my >= (h as isize) - 60 && my <= (h as isize) - 8,
                    dock_left(w) + 540 <= isize::MAX,
                    (slot matches Some(s) && s < i) ==> self.desk() == after_dock(d0, mx, my, fresh, w, h),
                    !(slot matches Some(s) && s < i) ==> self.desk() == d0,
                    self.wf(),
                    self.spotlight_anim == old(self).spotlight_anim,
                    self.spotlight_active == old(self).spotlight_active,
                    self.spotlight_query@ == old(self).spotlight_query@,
                    self.mouse_was_pressed == old(self).mouse_was_pressed,
                    self.alt_pressed == old(self).alt_pressed,
                decreases 9 - i,
            {
                let ix = dock_start_x + 12 + i as isize * 60;
                proof {
                    lemma_dock_hit(mx - dock_left(w) - 12, i as int);
                }
                if mx >= ix && mx <= ix + 48 {
                    if i < self.windows.len() {
                        let mut win = self.windows[i];
                        win.is_open = true;
                        if win.anim_scale == 0 {
                            win.anim_scale = 32;
                        }
                        self.windows.set(i, win);
                        let f = self.focused;
                        let mut wfo = self.windows[f];
                        wfo.active = false;
                        self.windows.set(f, wfo);
                        let mut wi = self.windows[i];
                        wi.active = true;
                        self.windows.set(i, wi);
                        self.focused = i;
                        assert forall|j: int| 0 <= j < 9 implies (#[trigger] self.windows@[j]).anim_scale <= 256 by {
                            assert(d0.0[j].anim_scale <= 256);
                        }
                    }
                }
                i += 1;
            }
        }
    }

    /// Applies a completed pointer packet: the pointer at (`mx`, `my`) with button bits
    /// `buttons`, on a screen of `w` by `h`.
    pub fn handle_pointer(&mut self, mx: isize, my: isize, buttons: u8, w: usize, h: usize)
        requires
            old(self).wf(),
            pointer_fits(old(self).desk(), mx, my, buttons % 2 == 1, old(self).mouse_was_pressed, w, h),
        ensures
            final(self).wf(),
            final(self).desk() == pointer_step(
                old(self).desk(),
                mx,
                my,
                buttons % 2 == 1,
                old(self).mouse_was_pressed,
                w,
                h,
            ),
            final(self).mouse_was_pressed == (buttons % 2 == 1),
            final(self).spotlight_anim == old(self).spotlight_anim,
            final(self).spotlight_active == old(self).spotlight_active,
            final(self).spotlight_query@ == old(self).spotlight_query@,
            final(self).alt_pressed == old(self).alt_pressed,
    {
        let pressed = buttons % 2 == 1;
        let was = self.mouse_was_pressed;
        let fresh = pressed && !was;
        assert forall|i: int| 0 <= i < 9 && eligible(#[trigger] self.windows@[i]) implies close_fits(self.windows@[i], mx, my) by {
            assert(eligible(self.desk().0[i]));
        }
        self.close_phase(mx, my, fresh);
        self.grab_phase(mx, my, fresh);
        if pressed {
            self.drag_phase(mx, my, w, h);
        } else if was {
            self.release_phase(mx, my, w, h);
        }
        self.dock_phase(mx, my, fresh, w, h);
        self.mouse_was_pressed = pressed;
    }
}

fn eligible_exec(w: &Window) -> (r: bool)
    ensures
        r == eligible(*w),
{
    w.is_open && w.anim_scale >= 180
}

/// Whether the close-button test of `win` runs without overflow.
fn close_fits_exec(win: &Window, mx: isize, my: isize) -> (r: bool)
    ensures
        r == close_fits(*win, mx, my),
{
    let um = usize::MAX as i128;
    let xr = (win.x as usize) as i128 + win.w as i128;
    if !(xr <= um && xr >= 18 && (win.y as usize) as i128 + 14 <= um) {
        return false;
    }
    let cx = ((win.x as usize) + win.w - 18) as isize;
    let cy = ((win.y as usize) + 14) as isize;
    let lo = isize::MIN as i128;
    let hi = isize::MAX as i128;
    let dx = mx as i128 - cx as i128;
    let dy = my as i128 - cy as i128;
    if !(lo <= dx && dx <= hi && lo <= dy && dy <= hi) {
        return false;
    }
    assert(-0x8000_0000_0000_0000 <= isize::MIN && isize::MAX <= 0x8000_0000_0000_0000);
    assert(0 <= dx * dx <= 0x4000_0000_0000_0000_0000_0000_0000_0000) by (nonlinear_arith)
        requires
            -0x8000_0000_0000_0000 <= dx <= 0x8000_0000_0000_0000,
    ;
    assert(0 <= dy * dy <= 0x4000_0000_0000_0000_0000_0000_0000_0000) by (nonlinear_arith)
        requires
            -0x8000_0000_0000_0000 <= dy <= 0x8000_0000_0000_0000,
    ;
    let dx2 = dx * dx;
    let dy2 = dy * dy;
    dx2 <= hi && dy2 <= hi && dx2 + dy2 <= hi
}

/// Whether the grab tests of `win` run without overflow.
fn grab_fits_exec(win: &Window, mx: isize, my: isize) -> (r: bool)
    ensures
        r == grab_fits(*win, mx, my),
{
    let lo = isize::MIN as i128;
    let hi = isize::MAX as i128;
    let ww = (win.w as isize) as i128;
    let wh = (win.h as isize) as i128;
    let x = win.x as i128;
    let y = win.y as i128;
    &&& lo <= x + ww - 18 && x + ww + 6 <= hi
    &&& lo <= y + wh - 18 && y + wh + 6 <= hi
    &&& y + 28 <= hi
    &&& lo <= mx as i128 - x && mx as i128 - x <= hi && lo <= my as i128 - y && my as i128 - y <= hi
}

fn on_corner_exec(win: &Window, mx: isize, my: isize) -> (r: bool)
    ensures
        r == on_corner(*win, mx, my),
{
    let ww = (win.w as isize) as i128;
    let wh = (win.h as isize) as i128;
    let x = win.x as i128;
    let y = win.y as i128;
    let m = mx as i128;
    let n = my as i128;
    m >= x + ww - 18 && m <= x + ww + 6 && n >= y + wh - 18 && n <= y + wh + 6
}

fn on_title_exec(win: &Window, mx: isize, my: isize) -> (r: bool)
    ensures
        r == on_title(*win, mx, my),
{
    let ww = (win.w as isize) as i128;
    let x = win.x as i128;
    let y = win.y as i128;
    let m = mx as i128;
    let n = my as i128;
    m >= x && m < x + ww && n >= y && n < y + 28
}

/// Whether the grab tests of the nine windows `ws` run without overflow.
fn grabs_fit_exec(ws: &Vec<Window>, mx: isize, my: isize) -> (r: bool)
    requires
        ws@.len() == 9,
    ensures
        r == grabs_fit(ws@, mx, my, 9),
{
    let mut k: usize = 9;
    while k > 0
        invariant
            ws@.len() == 9,
            k <= 9,
            grabs_fit(ws@, mx, my, 9) == grabs_fit(ws@, mx, my, k as int),
        decreases k,
    {
        let win = ws[k - 1];
        let el = eligible_exec(&win);
        if el && !grab_fits_exec(&win, mx, my) {
            return false;
        }
        if el && (on_corner_exec(&win, mx, my) || on_title_exec(&win, mx, my)) {
            return true;
        }
        k = k - 1;
    }
    true
}

fn copy_windows(ws: &Vec<Window>) -> (r: Vec<Window>)
    ensures
        r@ == ws@,
{
    let mut r: Vec<Window> = Vec::new();
    let mut i: usize = 0;
    while i < ws.len()
        invariant
            i <= ws@.len(),
            r@ == ws@.subrange(0, i as int),
        decreases ws@.len() - i,
    {
        r.push(ws[i]);
        i += 1;
        assert(r@ =~= ws@.subrange(0, i as int));
    }
    assert(r@ =~= ws@);
    r
}

impl WindowManager {
    /// Whether `handle_pointer(mx, my, buttons, w, h)` may be called now: all the arithmetic of
    /// the packet stays within range.
    pub fn pointer_ok(&self, mx: isize, my: isize, buttons: u8, w: usize, h: usize) -> (r: bool)
        requires
            self.wf(),
        ensures
            r == pointer_fits(self.desk(), mx, my, buttons % 2 == 1, self.mouse_was_pressed, w, h),
    {
        let pressed = buttons % 2 == 1;
        let was = self.mouse_was_pressed;
        let fresh = pressed && !was;
        let ghost d = self.desk();
        let mut i: usize = 0;
        while i < 9
            invariant
                self.wf(),
                i <= 9,
                forall|j: int| 0 <= j < i && eligible(#[trigger] self.windows@[j]) ==> close_fits(self.windows@[j], mx, my),
            decreases 9 - i,
        {
            let win = self.windows[i];
            if eligible_exec(&win) && !close_fits_exec(&win, mx, my) {
                assert(eligible(self.desk().0[i as int]) && !close_fits(self.desk().0[i as int], mx, my));
                return false;
            }
            i += 1;
        }
        let mut scratch = WindowManager {
            windows: copy_windows(&self.windows),
            focused: self.focused,
            drag: self.drag,
            mouse_was_pressed: was,
            spotlight_active: false,
            spotlight_anim: 0,
            spotlight_query: Vec::new(),
            alt_pressed: false,
        };
        assert(scratch.desk() == d);
        scratch.close_phase(mx, my, fresh);
        if fresh && !grabs_fit_exec(&scratch.windows, mx, my) {
            return false;
        }
        scratch.grab_phase(mx, my, fresh);
        if pressed {
            let ok = match scratch.drag {
                Some((idx, ox, oy, mode)) => {
                    let win = scratch.windows[idx];
                    let lo = isize::MIN as i128;
                    let hi = isize::MAX as i128;
                    let m = mx as i128;
                    let n = my as i128;
                    (mode != 0 || (lo <= m - ox as i128 && m - ox as i128 <= hi && lo <= n - oy as i128 && n
                        - oy as i128 <= hi)) && (mode != 1 || (lo <= m - win.x as i128 && m - win.x as i128 <= hi
                        && lo <= n - win.y as i128 && n - win.y as i128 <= hi && w >= 60 && h >= 80))
                },
                None => true,
            };
            if !ok {
                return false;
            }
        }
        let wi = (w as isize) as i128;
        let hi2 = (h as isize) as i128;
        let lo = isize::MIN as i128;
        if !pressed && was && !(lo + 45 <= wi) {
            return false;
        }
        if !(lo + 60 <= hi2) {
            return false;
        }
        let n = my as i128;
        if fresh && n >= hi2 - 60 && n <= hi2 - 8 {
            ((w / 2) as isize) as i128 - 282 + 540 <= isize::MAX as i128
        } else {
            true
        }
    }
}

} // verus!
