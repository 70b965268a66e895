use vstd::prelude::*;

verus! {

/// The login screen's state: the passcode typed so far, the animation phases, and whether
/// access was granted (and for how many frames).
pub struct LoginGate {
    pub passcode: [u8; 16],
    pub pass_len: usize,
    pub pulse: u16,
    pub rotation: i32,
    pub auth_success: bool,
    pub auth_error: bool,
    pub unlock_timer: u32,
}

/// The pointer on the login screen and the PS/2 packet being assembled.
pub struct LoginMouse {
    pub bytes: [u8; 3],
    pub cycle: u8,
    pub x: isize,
    pub y: isize,
    pub was_pressed: bool,
}

/// The login keyboard layout: letters (upper case with shift), digits without shift, and space.
pub open spec fn login_char(code: u8, shift: bool) -> char {
    let upper: Seq<char> = "QWERTYUIOPASDFGHJKLZXCVBNM"@;
    if 0x10 <= code <= 0x19 {
        let c = if shift { "QWERTYUIOP"@[code - 0x10] } else { "qwertyuiop"@[code - 0x10] };
        c
    } else if 0x1e <= code <= 0x26 {
        if shift { "ASDFGHJKL"@[code - 0x1e] } else { "asdfghjkl"@[code - 0x1e] }
    } else if 0x2c <= code <= 0x32 {
        if shift { "ZXCVBNM"@[code - 0x2c] } else { "zxcvbnm"@[code - 0x2c] }
    } else if !shift && 0x02 <= code <= 0x0b {
        "1234567890"@[code - 0x02]
    } else if code == 0x39 {
        ' '
    } else {
        '\0'
    }
}

fn pick(s: &str, i: u8) -> (c: char)
    requires
        (i as int) < s@.len(),
    ensures
        c == s@[i as int],
{
    s.get_char(i as usize)
}

/// The character of a make code on the login screen.
pub fn translate_scancode(code: u8, shift: bool) -> (c: char)
    ensures
        c == login_char(code, shift),
{
    proof {
        reveal_strlit("QWERTYUIOP");
        reveal_strlit("qwertyuiop");
        reveal_strlit("ASDFGHJKL");
        reveal_strlit("asdfghjkl");
        reveal_strlit("ZXCVBNM");
        reveal_strlit("zxcvbnm");
        reveal_strlit("1234567890");
    }
    if 0x10 <= code && code <= 0x19 {
        if shift { pick("QWERTYUIOP", code - 0x10) } else { pick("qwertyuiop", code - 0x10) }
    } else if 0x1e <= code && code <= 0x26 {
        if shift { pick("ASDFGHJKL", code - 0x1e) } else { pick("asdfghjkl", code - 0x1e) }
    } else if 0x2c <= code && code <= 0x32 {
        if shift { pick("ZXCVBNM", code - 0x2c) } else { pick("zxcvbnm", code - 0x2c) }
    } else if !shift && 0x02 <= code && code <= 0x0b {
        pick("1234567890", code - 0x02)
    } else if code == 0x39 {
        ' '
    } else {
        '\0'
    }
}

/// A printable ASCII character other than space, as `char::is_ascii_graphic`.
pub open spec fn is_graphic(c: char) -> bool {
    '!' <= c <= '~'
}

impl LoginGate {
    pub fn new() -> (r: Self)
        ensures
            r.passcode@ == Seq::new(16, |i: int| 0u8),
            r.pass_len == 0 && r.pulse == 0 && r.rotation == 0,
            !r.auth_success && !r.auth_error && r.unlock_timer == 0,
    {
        let r = Self {
            passcode: [0; 16],
            pass_len: 0,
            pulse: 0,
            rotation: 0,
            auth_success: false,
            auth_error: false,
            unlock_timer: 0,
        };
        assert(r.passcode@ =~= Seq::new(16, |i: int| 0u8));
        r
    }

    /// The login loop runs until access was granted thirty frames ago.
    pub fn done(&self) -> (r: bool)
        ensures
            r == (self.auth_success && self.unlock_timer >= 30),
    {
        self.auth_success && self.unlock_timer >= 30
    }

    /// Advances the animations by one frame and counts frames since access was granted.
    pub fn frame(&mut self)
        requires
            old(self).pulse + 12 <= u16::MAX,
            old(self).rotation + 2 <= i32::MAX,
            old(self).auth_success ==> old(self).unlock_timer < u32::MAX,
        ensures
            final(self).pulse == (old(self).pulse + 12) % 1024,
            final(self).rotation == crate::ai_model::trunc_rem(old(self).rotation + 2, 360),
            final(self).unlock_timer == if old(self).auth_success { old(self).unlock_timer + 1 } else { old(self).unlock_timer as int },
            final(self).passcode == old(self).passcode && final(self).pass_len == old(self).pass_len,
            final(self).auth_success == old(self).auth_success && final(self).auth_error == old(self).auth_error,
    {
        self.pulse = (self.pulse + 12) % 1024;
        self.rotation = (self.rotation + 2) % 360;
        if self.auth_success {
            self.unlock_timer += 1;
        }
    }

    /// Grants access; returns whether the chime should sound (the first time only).
    pub fn try_unlock(&mut self) -> (chime: bool)
        ensures
            chime == !old(self).auth_success,
            final(self).auth_success && !final(self).auth_error,
            final(self).passcode == old(self).passcode && final(self).pass_len == old(self).pass_len,
            final(self).pulse == old(self).pulse && final(self).rotation == old(self).rotation,
            final(self).unlock_timer == old(self).unlock_timer,
    {
        let chime = !self.auth_success;
        self.auth_success = true;
        self.auth_error = false;
        chime
    }

    /// Handles one scan code: shift keys, Enter (grants access), Backspace, and printable
    /// keys appended to the passcode while it has room. Returns whether the chime sounds.
    pub fn handle_key(&mut self, scancode: u8, shift: &mut bool) -> (chime: bool)
        requires
            old(self).pass_len <= 16,
        ensures
            final(self).pass_len <= 16,
            final(self).pulse == old(self).pulse && final(self).rotation == old(self).rotation,
            final(self).unlock_timer == old(self).unlock_timer,
            scancode == 0x2a || scancode == 0x36 ==> *final(shift) && *final(self) == *old(self) && !chime,
            scancode == 0xaa || scancode == 0xb6 ==> !*final(shift) && *final(self) == *old(self) && !chime,
            scancode == 0x1c ==> *final(shift) == *old(shift) && chime == !old(self).auth_success
                && final(self).auth_success && !final(self).auth_error && final(self).pass_len == old(self).pass_len
                && final(self).passcode == old(self).passcode,
            scancode == 0x0e ==> *final(shift) == *old(shift) && !chime && final(self).auth_success == old(self).auth_success
                && final(self).passcode == old(self).passcode && if old(self).pass_len > 0 {
                final(self).pass_len == old(self).pass_len - 1 && !final(self).auth_error
            } else {
                final(self).pass_len == 0 && final(self).auth_error == old(self).auth_error
            },
            !(scancode == 0x2a || scancode == 0x36 || scancode == 0xaa || scancode == 0xb6 || scancode == 0x1c
                || scancode == 0x0e) ==> {
                let ch = login_char(scancode, *old(shift));
                let takes = scancode & 0x80 == 0 && (is_graphic(ch) || ch == ' ') && old(self).pass_len < 16;
                &&& *final(shift) == *old(shift) && !chime && final(self).auth_success == old(self).auth_success
                &&& takes ==> final(self).passcode@ == old(self).passcode@.update(old(self).pass_len as int, ch as u8)
                    && final(self).pass_len == old(self).pass_len + 1 && !final(self).auth_error
                &&& !takes ==> *final(self) == *old(self)
            },
    {
        if scancode == 0x2a || scancode == 0x36 {
            *shift = true;
            false
        } else if scancode == 0xaa || scancode == 0xb6 {
            *shift = false;
            false
        } else if scancode == 0x1c {
            self.try_unlock()
        } else if scancode == 0x0e {
            if self.pass_len > 0 {
                self.pass_len -= 1;
                self.auth_error = false;
            }
            false
        } else {
            if scancode & 0x80 == 0 {
                let ch = translate_scancode(scancode, *shift);
                if ('!' <= ch && ch <= '~') || ch == ' ' {
                    if self.pass_len < 16 {
                        self.passcode[self.pass_len] = ch as u8;
                        self.pass_len += 1;
                        self.auth_error = false;
                    }
                }
            }
            false
        }
    }
}

/// The pointer position after a move of (`dx`, `dy`), clamped to the screen.
pub open spec fn clamp_to(v: int, hi: int) -> int {
    let lo = if v > 0 { v } else { 0 };
    if lo < hi { lo } else { hi }
}

/// The arithmetic of a completed packet stays within range: the new position, the distance
/// to the scanner at the centre, and the submit button's place.
pub open spec fn login_packet_fits(m: LoginMouse, last: u8, w: usize, h: usize) -> bool {
    let flags = m.bytes[0];
    let dx = crate::desktop::ps2_delta(m.bytes[1], flags & 0x10 != 0);
    let dy = crate::desktop::ps2_delta(last, flags & 0x20 != 0);
    let nx = clamp_to(m.x + dx, w as isize - 1);
    let ny = clamp_to(m.y - dy, h as isize - 1);
    let pressed = flags & 1 != 0;
    m.cycle == 2 && flags & 0x08 != 0 ==> {
        &&& isize::MIN <= m.x + dx <= isize::MAX && isize::MIN <= m.y - dy <= isize::MAX
        &&& w as isize != isize::MIN && h as isize != isize::MIN
        &&& pressed && !m.was_pressed ==> {
            let ex = nx - (w / 2) as isize;
            let ey = ny - (h * 42 / 100) as isize;
            &&& h * 56 <= usize::MAX && h * 42 <= usize::MAX && w / 2 + 125 <= usize::MAX
            &&& isize::MIN <= ex <= isize::MAX && isize::MIN <= ey <= isize::MAX
            &&& ex * ex <= isize::MAX && ey * ey <= isize::MAX && ex * ex + ey * ey <= isize::MAX
            &&& isize::MIN < nx - ((w / 2 + 125) as isize) <= isize::MAX
            &&& isize::MIN < ny - ((h * 56 / 100) as isize) <= isize::MAX
        }
    }
}

pub open spec fn abs_int(v: int) -> int {
    if v < 0 { -v } else { v }
}

impl LoginMouse {
    pub fn new(w: usize, h: usize) -> (r: Self)
        requires
            h * 2 <= usize::MAX,
        ensures
            r.x == (w / 2) as isize && r.y == (h * 2 / 3) as isize,
            r.cycle == 0 && !r.was_pressed,
    {
        LoginMouse { bytes: [0; 3], cycle: 0, x: (w / 2) as isize, y: (h * 2 / 3) as isize, was_pressed: false }
    }

    /// Feeds one byte of a PS/2 packet to the login screen. On a complete, synchronised packet
    /// the pointer moves; a fresh press on the scanner (within 55 pixels of its centre) or on
    /// the submit button grants access. Returns whether the chime sounds.
    /// Whether `feed(last, _, w, h)` may be called now: the arithmetic of the packet it would
    /// complete stays within range.
    pub fn packet_ok(&self, last: u8, w: usize, h: usize) -> (r: bool)
        ensures
            r == login_packet_fits(*self, last, w, h),
    {
        let flags = self.bytes[0];
        if !(self.cycle == 2 && flags & 0x08 != 0) {
            return true;
        }
        let dx: i128 = if flags & 0x10 != 0 { self.bytes[1] as i128 - 256 } else { self.bytes[1] as i128 };
        let dy: i128 = if flags & 0x20 != 0 { last as i128 - 256 } else { last as i128 };
        let ax = self.x as i128 + dx;
        let ay = self.y as i128 - dy;
        let lo = isize::MIN as i128;
        let hi = isize::MAX as i128;
        if !(lo <= ax && ax <= hi && lo <= ay && ay <= hi && (w as isize) != isize::MIN && (h as isize)
            != isize::MIN) {
            return false;
        }
        if !(flags & 1 != 0 && !self.was_pressed) {
            return true;
        }
        if !(h <= usize::MAX / 56 && w / 2 <= usize::MAX - 125) {
            return false;
        }
        let wl = (w as isize) as i128 - 1;
        let hl = (h as isize) as i128 - 1;
        let px = if ax > 0 { ax } else { 0 };
        let nx = if px < wl { px } else { wl };
        let py = if ay > 0 { ay } else { 0 };
        let ny = if py < hl { py } else { hl };
        let ex = nx - ((w / 2) as isize) as i128;
        let ey = ny - ((h * 42 / 100) as isize) as i128;
        if !(lo <= ex && ex <= hi && lo <= ey && ey <= hi) {
            return false;
        }
        assert(-0x8000_0000_0000_0000 <= isize::MIN && isize::MAX <= 0x8000_0000_0000_0000);
        assert(-0x8000_0000_0000_0000 <= ex <= 0x8000_0000_0000_0000 && -0x8000_0000_0000_0000 <= ey <= 0x8000_0000_0000_0000);
        assert(0 <= ex * ex <= 0x4000_0000_0000_0000_0000_0000_0000_0000) by (nonlinear_arith)
            requires
                -0x8000_0000_0000_0000 <= ex <= 0x8000_0000_0000_0000,
        ;
        assert(0 <= ey * ey <= 0x4000_0000_0000_0000_0000_0000_0000_0000) by (nonlinear_arith)
            requires
                -0x8000_0000_0000_0000 <= ey <= 0x8000_0000_0000_0000,
        ;
        let ex2 = ex * ex;
        let ey2 = ey * ey;
        if !(ex2 <= hi && ey2 <= hi && ex2 + ey2 <= hi) {
            return false;
        }
        let bx = nx - ((w / 2 + 125) as isize) as i128;
        let by = ny - ((h * 56 / 100) as isize) as i128;
        lo < bx && bx <= hi && lo < by && by <= hi
    }

    pub fn feed(&mut self, b: u8, gate: &mut LoginGate, w: usize, h: usize) -> (chime: bool)
        requires
            old(self).cycle < 3,
            login_packet_fits(*old(self), b, w, h),
        ensures
            final(self).cycle < 3,
            old(self).cycle < 2 ==> final(self).cycle == old(self).cycle + 1
                && final(self).bytes@ == old(self).bytes@.update(old(self).cycle as int, b)
                && final(self).x == old(self).x && final(self).y == old(self).y
                && final(self).was_pressed == old(self).was_pressed && *final(gate) == *old(gate) && !chime,
            old(self).cycle == 2 ==> {
                let flags = old(self).bytes[0];
                let dx = crate::desktop::ps2_delta(old(self).bytes[1], flags & 0x10 != 0);
                let dy = crate::desktop::ps2_delta(b, flags & 0x20 != 0);
                let nx = clamp_to(old(self).x + dx, w as isize - 1);
                let ny = clamp_to(old(self).y - dy, h as isize - 1);
                let pressed = flags & 1 != 0;
                let ex = nx - (w / 2) as isize;
                let ey = ny - (h * 42 / 100) as isize;
                let hit = pressed && !old(self).was_pressed && (ex * ex + ey * ey < 55 * 55 || (abs_int(
                    nx - ((w / 2 + 125) as isize),
                ) < 24 && abs_int(ny - ((h * 56 / 100) as isize)) < 16));
                &&& final(self).cycle == 0
                &&& final(self).bytes@ == old(self).bytes@.update(2, b)
                &&& if flags & 0x08 != 0 {
                    &&& final(self).x == nx && final(self).y == ny && final(self).was_pressed == pressed
                    &&& hit ==> chime == !old(gate).auth_success && final(gate).auth_success && !final(gate).auth_error
                        && final(gate).pass_len == old(gate).pass_len && final(gate).passcode == old(gate).passcode
                        && final(gate).unlock_timer == old(gate).unlock_timer
                    &&& !hit ==> !chime && *final(gate) == *old(gate)
                } else {
                    final(self).x == old(self).x && final(self).y == old(self).y
                        && final(self).was_pressed == old(self).was_pressed && *final(gate) == *old(gate) && !chime
                }
            },
    {
        self.bytes[self.cycle as usize] = b;
        self.cycle += 1;
        if self.cycle < 3 {
            return false;
        }
        self.cycle = 0;
        let flags = self.bytes[0];
        if flags & 0x08 == 0 {
            return false;
        }
        let mut dx = self.bytes[1] as isize;
        let mut dy = self.bytes[2] as isize;
        if flags & 0x10 != 0 {
            dx -= 256;
        }
        if flags & 0x20 != 0 {
            dy -= 256;
        }
        let ghost m0 = *old(self);
        assert(dx == crate::desktop::ps2_delta(self.bytes[1], flags & 0x10 != 0));
        assert(dy == crate::desktop::ps2_delta(b, flags & 0x20 != 0));
        let wi = w as isize;
        let hi = h as isize;
        let nx = self.x + dx;
        let nx = if nx > 0 { nx } else { 0 };
        self.x = if nx < wi - 1 { nx } else { wi - 1 };
        let ny = self.y - dy;
        let ny = if ny > 0 { ny } else { 0 };
        self.y = if ny < hi - 1 { ny } else { hi - 1 };
        let pressed = flags & 1 != 0;
        let mut chime = false;
        if pressed && !self.was_pressed {
            let cx = w / 2;
            let cy = h * 42 / 100;
            let ex = self.x - cx as isize;
            let ey = self.y - cy as isize;
            assert(ex * ex <= isize::MAX && ey * ey <= isize::MAX && ex * ex + ey * ey <= isize::MAX);
            assert(ex * ex >= 0 && ey * ey >= 0) by (nonlinear_arith);
            let dist2 = ex * ex + ey * ey;
            if dist2 < 55 * 55 {
                chime = gate.try_unlock();
            }
            let btn_x = (cx + 125) as isize;
            let btn_y = (h * 56 / 100) as isize;
            let ax = self.x - btn_x;
            let ay = self.y - btn_y;
            let ax = if ax < 0 { -ax } else { ax };
            let ay = if ay < 0 { -ay } else { ay };
            if ax < 24 && ay < 16 {
                let c2 = gate.try_unlock();
                chime = chime || c2;
            }
        }
        self.was_pressed = pressed;
        chime
    }
}

} // verus!
