use crate::desktop::KeyboardState;
use crate::text::{contains_spec, has, lower_chars, lower_spec, starts, starts_with_spec, ends, ends_with_spec};
use vstd::prelude::*;

pub mod layout;
pub mod mouse;

verus! {

/// A desktop window: position, size, title, focus, opening animation (0..=256) and whether
/// it is open.
#[derive(Clone, Copy)]
pub struct Window {
    pub x: isize,
    pub y: isize,
    pub w: usize,
    pub h: usize,
    pub title: &'static str,
    pub active: bool,
    pub anim_scale: u16,
    pub is_open: bool,
}

/// The window set and the input state around it: focus, the window being dragged (its
/// index, the grab offset and whether it is moved or resized), the button state of the last
/// packet, the Spotlight launcher, and the Alt key.
pub struct WindowManager {
    pub windows: Vec<Window>,
    pub focused: usize,
    pub drag: Option<(usize, isize, isize, u8)>,
    pub mouse_was_pressed: bool,
    pub spotlight_active: bool,
    pub spotlight_anim: u16,
    pub spotlight_query: Vec<char>,
    pub alt_pressed: bool,
}

/// What a key asks of the console.
pub enum KeyAction {
    Nothing,
    /// Run the line typed at the prompt.
    Execute,
    Backspace,
    Type(char),
    /// Type this text at the prompt and run it.
    TypeAndExecute(Vec<char>),
}

/// One step of the opening/closing animation.
pub open spec fn eased(open: bool, s: int) -> int {
    if open && s < 256 {
        if s + 32 < 256 { s + 32 } else { 256 }
    } else if !open && s > 0 {
        if s >= 32 { s - 32 } else { 0 }
    } else {
        s
    }
}

pub open spec fn win(x: isize, y: isize, w: usize, h: usize, title: &'static str, active: bool, anim: u16, open: bool) -> Window {
    Window { x, y, w, h, title, active, anim_scale: anim, is_open: open }
}

/// The nine application windows; the terminal and the browser start open.
pub open spec fn initial_windows() -> Seq<Window> {
    seq![
        win(200, 120, 560, 340, "Terminal", true, 256, true),
        win(240, 150, 500, 320, "Web Browser", false, 256, true),
        win(280, 170, 460, 280, "Network Mesh", false, 0, false),
        win(300, 180, 520, 320, "Code Editor", false, 0, false),
        win(220, 130, 440, 280, "File Manager", false, 0, false),
        win(260, 160, 480, 300, "System Analytics", false, 0, false),
        win(320, 190, 400, 240, "Media Player", false, 0, false),
        win(340, 200, 420, 260, "3D Container", false, 0, false),
        win(360, 210, 440, 270, "Security Shield", false, 0, false),
    ]
}

impl WindowManager {
    /// Nine windows, a focus and a drag within them, and animations within 0..=256.
    pub open spec fn wf(&self) -> bool {
        &&& self.windows@.len() == 9
        &&& self.focused < 9
        &&& (self.drag matches Some((i, _, _, _)) ==> i < 9)
        &&& self.spotlight_anim <= 256
        &&& forall|i: int| 0 <= i < 9 ==> (#[trigger] self.windows@[i]).anim_scale <= 256
    }

    pub fn new() -> (r: Self)
        ensures
            r.wf(),
            r.windows@ == initial_windows(),
            r.focused == 0,
            r.drag is None,
            !r.mouse_was_pressed && !r.spotlight_active && !r.alt_pressed,
            r.spotlight_anim == 0,
            r.spotlight_query@.len() == 0,
    {
        let windows = vec![
            Window { x: 200, y: 120, w: 560, h: 340, title: "Terminal", active: true, anim_scale: 256, is_open: true },
            Window { x: 240, y: 150, w: 500, h: 320, title: "Web Browser", active: false, anim_scale: 256, is_open: true },
            Window { x: 280, y: 170, w: 460, h: 280, title: "Network Mesh", active: false, anim_scale: 0, is_open: false },
            Window { x: 300, y: 180, w: 520, h: 320, title: "Code Editor", active: false, anim_scale: 0, is_open: false },
            Window { x: 220, y: 130, w: 440, h: 280, title: "File Manager", active: false, anim_scale: 0, is_open: false },
            Window { x: 260, y: 160, w: 480, h: 300, title: "System Analytics", active: false, anim_scale: 0, is_open: false },
            Window { x: 320, y: 190, w: 400, h: 240, title: "Media Player", active: false, anim_scale: 0, is_open: false },
            Window { x: 340, y: 200, w: 420, h: 260, title: "3D Container", active: false, anim_scale: 0, is_open: false },
            Window { x: 360, y: 210, w: 440, h: 270, title: "Security Shield", active: false, anim_scale: 0, is_open: false },
        ];
        assert(windows@ =~= initial_windows());
        WindowManager {
            windows,
            focused: 0,
            drag: None,
            mouse_was_pressed: false,
            spotlight_active: false,
            spotlight_anim: 0,
            spotlight_query: Vec::new(),
            alt_pressed: false,
        }
    }

    /// Advances every window's opening or closing animation by one frame.
    pub fn animate_windows(&mut self)
        requires
            old(self).wf(),
        ensures
            final(self).wf(),
            forall|i: int| 0 <= i < 9 ==> {
                let a = #[trigger] old(self).windows@[i];
                final(self).windows@[i] == Window { anim_scale: eased(a.is_open, a.anim_scale as int) as u16, ..a }
            },
            final(self).focused == old(self).focused && final(self).drag == old(self).drag,
            final(self).spotlight_anim == old(self).spotlight_anim,
            final(self).spotlight_active == old(self).spotlight_active,
            final(self).spotlight_query@ == old(self).spotlight_query@,
            final(self).mouse_was_pressed == old(self).mouse_was_pressed,
            final(self).alt_pressed == old(self).alt_pressed,
    {
        let mut i: usize = 0;
        while i < self.windows.len()
            invariant
                self.windows@.len() == 9,
                i <= 9,
                self.focused == old(self).focused && self.drag == old(self).drag,
                self.spotlight_anim == old(self).spotlight_anim,
                self.spotlight_active == old(self).spotlight_active,
                self.spotlight_query@ == old(self).spotlight_query@,
                self.mouse_was_pressed == old(self).mouse_was_pressed,
                self.alt_pressed == old(self).alt_pressed,
                old(self).wf(),
                forall|j: int| 0 <= j < i ==> {
                    let a = #[trigger] old(self).windows@[j];
                    self.windows@[j] == Window { anim_scale: eased(a.is_open, a.anim_scale as int) as u16, ..a }
                },
                forall|j: int| i <= j < 9 ==> #[trigger] self.windows@[j] == old(self).windows@[j],
            decreases 9 - i,
        {
            let mut wnd = self.windows[i];
            assert(wnd.anim_scale <= 256);
            if wnd.is_open && wnd.anim_scale < 256 {
                wnd.anim_scale = if wnd.anim_scale + 32 < 256 { wnd.anim_scale + 32 } else { 256 };
            } else if !wnd.is_open && wnd.anim_scale > 0 {
                wnd.anim_scale = if wnd.anim_scale >= 32 { wnd.anim_scale - 32 } else { 0 };
            }
            self.windows.set(i, wnd);
            i += 1;
        }
        assert forall|j: int| 0 <= j < 9 implies (#[trigger] self.windows@[j]).anim_scale <= 256 by {
            let a = old(self).windows@[j];
            assert(a.anim_scale <= 256);
        }
    }

    /// Advances the Spotlight launcher's fade by one frame.
    pub fn animate_spotlight(&mut self)
        requires
            old(self).wf(),
        ensures
            final(self).wf(),
            final(self).spotlight_anim == eased(old(self).spotlight_active, old(self).spotlight_anim as int),
            final(self).windows@ == old(self).windows@,
            final(self).focused == old(self).focused && final(self).drag == old(self).drag,
            final(self).spotlight_active == old(self).spotlight_active,
            final(self).spotlight_query@ == old(self).spotlight_query@,
            final(self).mouse_was_pressed == old(self).mouse_was_pressed,
            final(self).alt_pressed == old(self).alt_pressed,
    {
        if self.spotlight_active && self.spotlight_anim < 256 {
            self.spotlight_anim = if self.spotlight_anim + 32 < 256 { self.spotlight_anim + 32 } else { 256 };
        } else if !self.spotlight_active && self.spotlight_anim > 0 {
            self.spotlight_anim = if self.spotlight_anim >= 32 { self.spotlight_anim - 32 } else { 0 };
        }
    }
}

/// Where a window is drawn while it animates: scaled by `anim_scale / 256` about its centre
/// and moved right and down where it would cross the top or left edge: (x, y, width, height).
pub open spec fn window_frame(win: Window) -> (int, int, int, int) {
    let rw = win.w * win.anim_scale / 256;
    let rh = win.h * win.anim_scale / 256;
    let rx = win.x + (win.w - rw) / 2;
    let ry = win.y + (win.h - rh) / 2;
    (if rx > 0 { rx } else { 0 }, if ry > 0 { ry } else { 0 }, rw, rh)
}

impl Window {
    /// The rectangle the window occupies on screen at its current animation step.
    pub fn frame(&self) -> (r: (usize, usize, usize, usize))
        requires
            self.anim_scale <= 256,
            self.w * 256 <= usize::MAX,
            self.h * 256 <= usize::MAX,
            self.x + self.w / 2 <= isize::MAX,
            self.y + self.h / 2 <= isize::MAX,
        ensures
            (r.0 as int, r.1 as int, r.2 as int, r.3 as int) == window_frame(*self),
    {
        let s = self.anim_scale as usize;
        assert(self.w * s <= self.w * 256 && self.h * s <= self.h * 256) by (nonlinear_arith)
            requires
                s <= 256,
        ;
        let rw = (self.w * s) / 256;
        let rh = (self.h * s) / 256;
        assert(rw <= self.w && rh <= self.h) by (nonlinear_arith)
            requires
                s <= 256,
                rw == (self.w * s) / 256,
                rh == (self.h * s) / 256,
        ;
        let rx = self.x + ((self.w - rw) / 2) as isize;
        let ry = self.y + ((self.h - rh) / 2) as isize;
        (
            if rx > 0 { rx as usize } else { 0 },
            if ry > 0 { ry as usize } else { 0 },
            rw,
            rh,
        )
    }
}

/// The taskbar clock for `ticks` timer ticks at 18 per second: `HH:MM:SS` in ASCII, the hours
/// counted modulo 24.
pub open spec fn clock_spec(ticks: u64) -> Seq<u8> {
    let t = ticks / 18;
    let hh = (t / 3600) % 24;
    let mm = (t / 60) % 60;
    let ss = t % 60;
    seq![
        (48 + hh / 10) as u8, (48 + hh % 10) as u8, 58u8,
        (48 + mm / 10) as u8, (48 + mm % 10) as u8, 58u8,
        (48 + ss / 10) as u8, (48 + ss % 10) as u8,
    ]
}

/// The taskbar clock's eight characters.
pub fn clock_text(ticks: u64) -> (r: [u8; 8])
    ensures
        r@ == clock_spec(ticks),
{
    let t = ticks / 18;
    let hh = ((t / 3600) % 24) as u8;
    let mm = ((t / 60) % 60) as u8;
    let ss = (t % 60) as u8;
    let r = [48 + hh / 10, 48 + hh % 10, 58, 48 + mm / 10, 48 + mm % 10, 58, 48 + ss / 10, 48 + ss % 10];
    assert(r@ =~= clock_spec(ticks));
    r
}

/// Every window's animation stays within 0..=256 however many frames pass.
pub proof fn lemma_animation_bounded(open: bool, s: int)
    requires
        0 <= s <= 256,
    ensures
        0 <= eased(open, s) <= 256,
        open ==> eased(open, s) >= s,
        !open ==> eased(open, s) <= s,
{
}

/// Where a Spotlight query goes: a window index 0..=8, or 9 for the console.
pub open spec fn spotlight_target(q: Seq<char>) -> int {
    let l = lower_spec(q);
    if contains_spec(l, "terminal"@) { 0 }
    else if contains_spec(l, "browser"@) || contains_spec(l, "web"@) { 1 }
    else if contains_spec(l, "mesh"@) { 2 }
    else if contains_spec(l, "code"@) { 3 }
    else if contains_spec(l, "file"@) { 4 }
    else if contains_spec(l, "analytic"@) || contains_spec(l, "stat"@) { 5 }
    else if contains_spec(l, "media"@) { 6 }
    else if contains_spec(l, "3d"@) { 7 }
    else if contains_spec(l, "security"@) { 8 }
    else { 9 }
}

/// The console line a Spotlight query becomes when it names no window: a `run` for
/// programs, the query itself for viewer commands, an `ask` otherwise.
pub open spec fn spotlight_line(q: Seq<char>) -> Seq<char> {
    let l = lower_spec(q);
    if starts_with_spec(l, "run "@) || ends_with_spec(l, ".wasm"@) {
        "run "@ + q
    } else if starts_with_spec(l, "view "@) || starts_with_spec(l, "open "@) || starts_with_spec(l, "cat "@) {
        q
    } else {
        "ask "@ + q
    }
}

fn spotlight_target_exec(q: &[char]) -> (r: usize)
    ensures
        r == spotlight_target(q@),
{
    let lv = lower_chars(q);
    let l = lv.as_slice();
    if has(l, "terminal") { 0 }
    else if has(l, "browser") || has(l, "web") { 1 }
    else if has(l, "mesh") { 2 }
    else if has(l, "code") { 3 }
    else if has(l, "file") { 4 }
    else if has(l, "analytic") || has(l, "stat") { 5 }
    else if has(l, "media") { 6 }
    else if has(l, "3d") { 7 }
    else if has(l, "security") { 8 }
    else { 9 }
}

fn spotlight_line_exec(q: &[char]) -> (r: Vec<char>)
    ensures
        r@ == spotlight_line(q@),
{
    let lv = lower_chars(q);
    let l = lv.as_slice();
    let mut r: Vec<char> = Vec::new();
    if starts(l, "run ") || ends(l, ".wasm") {
        crate::text::push_str(&mut r, "run ");
        crate::text::push_chars(&mut r, q);
    } else if starts(l, "view ") || starts(l, "open ") || starts(l, "cat ") {
        crate::text::push_chars(&mut r, q);
        assert(r@ =~= q@);
    } else {
        crate::text::push_str(&mut r, "ask ");
        crate::text::push_chars(&mut r, q);
    }
    r
}

/// The windows with window `i` opened and marked active (the previously focused window
/// keeps its mark).
pub open spec fn opened(ws: Seq<Window>, i: int) -> Seq<Window> {
    ws.update(i, Window { is_open: true, active: true, ..ws[i] })
}

impl WindowManager {
    fn open_window(&mut self, i: usize)
        requires
            old(self).wf(),
            i < 9,
        ensures
            final(self).wf(),
            final(self).windows@ == opened(old(self).windows@, i as int),
            final(self).focused == i,
            final(self).drag == old(self).drag,
            final(self).spotlight_anim == old(self).spotlight_anim,
            final(self).spotlight_active == old(self).spotlight_active,
            final(self).spotlight_query@ == old(self).spotlight_query@,
            final(self).mouse_was_pressed == old(self).mouse_was_pressed,
            final(self).alt_pressed == old(self).alt_pressed,
    {
        let mut wnd = self.windows[i];
        wnd.is_open = true;
        wnd.active = true;
        self.windows.set(i, wnd);
        self.focused = i;
        assert forall|j: int| 0 <= j < 9 implies (#[trigger] self.windows@[j]).anim_scale <= 256 by {
            assert(old(self).windows@[j].anim_scale <= 256);
        }
    }

    /// Handles one scan code: Alt and Alt+Space drive the Spotlight launcher, Escape closes
    /// it, Tab moves the focus; other keys go to Spotlight when it is open, end the matrix
    /// screen when it runs, and otherwise become console input for the caller to apply.
    pub fn handle_key(&mut self, scancode: u8, kbd: &mut KeyboardState, matrix_active: &mut usize) -> (act: KeyAction)
        requires
            old(self).wf(),
        ensures
            final(self).wf(),
            final(self).drag == old(self).drag,
            final(self).mouse_was_pressed == old(self).mouse_was_pressed,
            final(self).spotlight_anim == old(self).spotlight_anim,
            ({
                let s0 = *old(self);
                let s1 = *final(self);
                let ch = crate::desktop::key_char(old(kbd).shift_pressed, scancode);
                let spot = s0.spotlight_active;
                let q = s0.spotlight_query@;
                if scancode == 0x38 || scancode == 0xb8 {
                    &&& s1.alt_pressed == (scancode == 0x38)
                    &&& s1.windows@ == s0.windows@ && s1.focused == s0.focused && s1.spotlight_active == spot
                    &&& s1.spotlight_query@ == q && act is Nothing && *final(kbd) == *old(kbd)
                    &&& *final(matrix_active) == *old(matrix_active)
                } else if scancode == 0x39 && s0.alt_pressed {
                    &&& s1.spotlight_active == !spot
                    &&& s1.spotlight_query@ == if spot { Seq::<char>::empty() } else { q }
                    &&& s1.windows@ == s0.windows@ && s1.focused == s0.focused && s1.alt_pressed == s0.alt_pressed
                    &&& act is Nothing && *final(kbd) == *old(kbd) && *final(matrix_active) == *old(matrix_active)
                } else if scancode == 0x01 && spot {
                    &&& !s1.spotlight_active && s1.spotlight_query@.len() == 0
                    &&& s1.windows@ == s0.windows@ && s1.focused == s0.focused && s1.alt_pressed == s0.alt_pressed
                    &&& act is Nothing && *final(kbd) == *old(kbd) && *final(matrix_active) == *old(matrix_active)
                } else if scancode == 0x0f && !spot {
                    let f1 = (s0.focused + 1) % 9;
                    &&& s1.focused == f1
                    &&& s1.windows@ == s0.windows@.update(s0.focused as int, Window { active: false, ..s0.windows@[s0.focused as int] })
                        .update(f1, Window { active: true, ..s0.windows@.update(s0.focused as int, Window { active: false, ..s0.windows@[s0.focused as int] })[f1] })
                    &&& s1.spotlight_active == spot && s1.spotlight_query@ == q && s1.alt_pressed == s0.alt_pressed
                    &&& act is Nothing && *final(kbd) == *old(kbd) && *final(matrix_active) == *old(matrix_active)
                } else if scancode == 0x2a || scancode == 0x36 || scancode == 0xaa || scancode == 0xb6 || scancode & 0x80 != 0 {
                    &&& final(kbd).shift_pressed == if scancode == 0x2a || scancode == 0x36 { true } else if scancode == 0xaa || scancode == 0xb6 { false } else { old(kbd).shift_pressed }
                    &&& s1.windows@ == s0.windows@ && s1.focused == s0.focused && s1.spotlight_active == spot
                    &&& s1.spotlight_query@ == q && s1.alt_pressed == s0.alt_pressed
                    &&& act is Nothing && *final(matrix_active) == *old(matrix_active)
                } else if spot {
                    &&& *final(kbd) == *old(kbd) && *final(matrix_active) == *old(matrix_active)
                    &&& s1.alt_pressed == s0.alt_pressed
                    &&& if ch == '\x1b' {
                        !s1.spotlight_active && s1.spotlight_query@.len() == 0 && s1.windows@ == s0.windows@
                            && s1.focused == s0.focused && act is Nothing
                    } else if ch == '\n' {
                        &&& !s1.spotlight_active && s1.spotlight_query@.len() == 0
                        &&& if q.len() == 0 {
                            s1.windows@ == s0.windows@ && s1.focused == s0.focused && act is Nothing
                        } else if spotlight_target(q) < 9 {
                            s1.windows@ == opened(s0.windows@, spotlight_target(q)) && s1.focused == spotlight_target(q)
                                && act is Nothing
                        } else {
                            s1.windows@ == opened(s0.windows@, 0) && s1.focused == 0
                                && (act matches KeyAction::TypeAndExecute(t) && t@ == spotlight_line(q))
                        }
                    } else if ch == '\x08' {
                        s1.spotlight_active && s1.spotlight_query@ == (if q.len() > 0 { q.drop_last() } else { q })
                            && s1.windows@ == s0.windows@ && s1.focused == s0.focused && act is Nothing
                    } else {
                        s1.spotlight_active && s1.spotlight_query@ == (if ch != '\0' { q.push(ch) } else { q })
                            && s1.windows@ == s0.windows@ && s1.focused == s0.focused && act is Nothing
                    }
                } else {
                    &&& *final(kbd) == *old(kbd)
                    &&& s1.windows@ == s0.windows@ && s1.focused == s0.focused && s1.spotlight_active == spot
                    &&& s1.spotlight_query@ == q && s1.alt_pressed == s0.alt_pressed
                    &&& if *old(matrix_active) != 0 {
                        act is Nothing && *final(matrix_active) == if ch == '\x1b' || ch == '\n' { 0 } else { *old(matrix_active) }
                    } else {
                        &&& *final(matrix_active) == *old(matrix_active)
                        &&& if ch == '\n' { act is Execute } else if ch == '\x08' { act is Backspace }
                            else if ch != '\0' { (act matches KeyAction::Type(c) && c == ch) } else { act is Nothing }
                    }
                }
            }),
    {
        if scancode == 0x38 {
            self.alt_pressed = true;
            return KeyAction::Nothing;
        } else if scancode == 0xb8 {
            self.alt_pressed = false;
            return KeyAction::Nothing;
        }
        if scancode == 0x39 && self.alt_pressed {
            self.spotlight_active = !self.spotlight_active;
            if !self.spotlight_active {
                self.spotlight_query.clear();
            }
            return KeyAction::Nothing;
        }
        if scancode == 0x01 && self.spotlight_active {
            self.spotlight_active = false;
            self.spotlight_query.clear();
            return KeyAction::Nothing;
        }
        if scancode == 0x0f && !self.spotlight_active {
            let f = self.focused;
            let mut a = self.windows[f];
            a.active = false;
            self.windows.set(f, a);
            let f1 = (f + 1) % 9;
            let mut b = self.windows[f1];
            b.active = true;
            self.windows.set(f1, b);
            self.focused = f1;
            assert forall|j: int| 0 <= j < 9 implies (#[trigger] self.windows@[j]).anim_scale <= 256 by {
                assert(old(self).windows@[j].anim_scale <= 256);
            }
            return KeyAction::Nothing;
        }
        match kbd.handle_scancode(scancode) {
            Some(ch) => {
                if self.spotlight_active {
                    if ch == '\x1b' {
                        self.spotlight_active = false;
                        self.spotlight_query.clear();
                        return KeyAction::Nothing;
                    } else if ch == '\n' {
                        let mut act = KeyAction::Nothing;
                        if self.spotlight_query.len() > 0 {
                            let t = spotlight_target_exec(self.spotlight_query.as_slice());
                            if t < 9 {
                                self.open_window(t);
                            } else {
                                let line = spotlight_line_exec(self.spotlight_query.as_slice());
                                self.open_window(0);
                                act = KeyAction::TypeAndExecute(line);
                            }
                        }
                        self.spotlight_active = false;
                        self.spotlight_query.clear();
                        return act;
                    } else if ch == '\x08' {
                        self.spotlight_query.pop();
                        assert(self.spotlight_query@ =~= if old(self).spotlight_query@.len() > 0 {
                            old(self).spotlight_query@.drop_last()
                        } else {
                            old(self).spotlight_query@
                        });
                    } else if ch != '\0' {
                        self.spotlight_query.push(ch);
                    }
                    return KeyAction::Nothing;
                }
                if *matrix_active != 0 {
                    if ch == '\x1b' || ch == '\n' {
                        *matrix_active = 0;
                    }
                    return KeyAction::Nothing;
                }
                if ch == '\n' {
                    KeyAction::Execute
                } else if ch == '\x08' {
                    KeyAction::Backspace
                } else if ch != '\0' {
                    KeyAction::Type(ch)
                } else {
                    KeyAction::Nothing
                }
            },
            None => KeyAction::Nothing,
        }
    }
}

/// A Spotlight suggestion: icon, title and description.
pub type Suggestion = (&'static str, &'static str, &'static str);

/// The suggestions for a query: each entry whose keyword contains the lower-cased query,
/// or the AI routing entry when none does.
pub open spec fn suggestions(q: Seq<char>) -> Seq<Suggestion> {
    let l = lower_spec(q);
    let s0 = Seq::<Suggestion>::empty();
    let s1 = if contains_spec("terminal"@, l) { s0.push(("🖥️", "Terminal Console", "Launch or focus interactive command terminal")) } else { s0 };
    let s2 = if contains_spec("web"@, l) || contains_spec("browser"@, l) { s1.push(("🌐", "Web Browser", "Quantum decentralized mesh browser")) } else { s1 };
    let s3 = if contains_spec("code"@, l) || contains_spec("editor"@, l) { s2.push(("💻", "Code Editor", "Built-in kernel & skill source editor")) } else { s2 };
    let s4 = if contains_spec("spec"@, l) || contains_spec("pdf"@, l) { s3.push(("📑", "/docs/spec.pdf", "Universal Viewer: PDF Document")) } else { s3 };
    let s5 = if contains_spec("avatar"@, l) || contains_spec("png"@, l) { s4.push(("🖼️", "/media/avatar.png", "Universal Viewer: PNG Image")) } else { s4 };
    let s6 = if contains_spec("audio"@, l) || contains_spec("wav"@, l) { s5.push(("🎵", "/media/audio.wav", "Universal Viewer: PCM Audio")) } else { s5 };
    let s7 = if contains_spec("wasm"@, l) || contains_spec("skill"@, l) { s6.push(("⚙️", "/apps/quantum_skill.wasm", "WebAssembly Sandbox Process")) } else { s6 };
    let s8 = if contains_spec("identity"@, l) || contains_spec("json"@, l) { s7.push(("📄", "/user/atul/identity.json", "User Credentials & Authorization")) } else { s7 };
    if s8.len() == 0 {
        seq![("✦", "AI Intent Routing", "Dispatch natural-language query to AI Engine on Enter")]
    } else {
        s8
    }
}

/// `n` contains the characters `h` (the pattern reversed: is `h` a part of the keyword `n`).
fn keyword_has(n: &str, h: &[char]) -> (r: bool)
    ensures
        r == contains_spec(n@, h@),
{
    let nv = crate::text::chars_of(n);
    crate::text::contains_chars(nv.as_slice(), h)
}

/// The Spotlight suggestions for a query, in display order.
pub fn spotlight_results(q: &[char]) -> (r: Vec<Suggestion>)
    ensures
        r@ == suggestions(q@),
{
    let lv = lower_chars(q);
    let l = lv.as_slice();
    let mut r: Vec<Suggestion> = Vec::new();
    if keyword_has("terminal", l) { r.push(("🖥️", "Terminal Console", "Launch or focus interactive command terminal")); }
    if keyword_has("web", l) || keyword_has("browser", l) { r.push(("🌐", "Web Browser", "Quantum decentralized mesh browser")); }
    if keyword_has("code", l) || keyword_has("editor", l) { r.push(("💻", "Code Editor", "Built-in kernel & skill source editor")); }
    if keyword_has("spec", l) || keyword_has("pdf", l) { r.push(("📑", "/docs/spec.pdf", "Universal Viewer: PDF Document")); }
    if keyword_has("avatar", l) || keyword_has("png", l) { r.push(("🖼️", "/media/avatar.png", "Universal Viewer: PNG Image")); }
    if keyword_has("audio", l) || keyword_has("wav", l) { r.push(("🎵", "/media/audio.wav", "Universal Viewer: PCM Audio")); }
    if keyword_has("wasm", l) || keyword_has("skill", l) { r.push(("⚙️", "/apps/quantum_skill.wasm", "WebAssembly Sandbox Process")); }
    if keyword_has("identity", l) || keyword_has("json", l) { r.push(("📄", "/user/atul/identity.json", "User Credentials & Authorization")); }
    if r.len() == 0 {
        r.push(("✦", "AI Intent Routing", "Dispatch natural-language query to AI Engine on Enter"));
    }
    r
}

} // verus!
