use crate::fs::ramdisk::RamFs;
use crate::fs::vfs::FileSystem;
use crate::text::{chars_of, equals, push_chars, slice_range, starts, trim_chars, trim_spec};
use vstd::prelude::*;
use vstd::utf8::{decode_utf8, valid_utf8};

verus! {

// ── Mouse ──
/// The pointer: position, buttons, and the PS/2 packet being assembled.
pub struct MouseState {
    pub x: isize,
    pub y: isize,
    pub buttons: u8,
    pub bytes: [u8; 3],
    pub cycle: u8,
}

/// `v` clamped below by zero, then above by `hi`, as `v.max(0).min(hi)`.
pub open spec fn clamp_spec(v: int, hi: int) -> int {
    let lo = if v > 0 {
        v
    } else {
        0
    };
    if lo < hi {
        lo
    } else {
        hi
    }
}

/// The pointer stays on the screen: a position clamped to a screen side of `side >= 1`
/// pixels lies in `0..side`, whatever the movement was.
pub proof fn lemma_pointer_on_screen(v: int, side: int)
    requires
        side >= 1,
    ensures
        0 <= clamp_spec(v, side - 1) < side,
{
}

/// A 9-bit PS/2 delta: the byte, less 256 when the sign bit is set.
pub open spec fn ps2_delta(b: u8, negative: bool) -> int {
    if negative {
        b - 256
    } else {
        b as int
    }
}

impl MouseState {
    /// The byte position within the packet being assembled (0, 1 or 2).
    pub open spec fn cycle_view(&self) -> int {
        self.cycle as int
    }

    /// The packet bytes received so far.
    pub open spec fn packet_view(&self) -> Seq<u8> {
        self.bytes@
    }

    /// Whether a third byte `b` completes a valid packet, and the position it then moves to
    /// lies within `isize`.
    pub open spec fn move_fits(&self, b: u8, w: usize, h: usize) -> bool {
        let flags = self.packet_view()[0];
        let dx = ps2_delta(self.packet_view()[1], flags & 0x10 != 0);
        let dy = ps2_delta(b, flags & 0x20 != 0);
        self.cycle_view() >= 2 && flags & 0xc0 == 0 ==> {
            &&& isize::MIN <= self.x + dx <= isize::MAX
            &&& isize::MIN <= self.y - dy <= isize::MAX
            &&& w as isize != isize::MIN
            &&& h as isize != isize::MIN
        }
    }

    pub fn new(w: usize, h: usize) -> (r: Self)
        ensures
            r.x == (w / 2) as isize,
            r.y == (h / 2) as isize,
            r.buttons == 0,
            r.cycle_view() == 0,
            r.packet_view() == seq![0u8, 0u8, 0u8],
    {
        let r = Self { x: (w / 2) as isize, y: (h / 2) as isize, buttons: 0, bytes: [0;3], cycle: 0 };
        assert(r.packet_view() =~= seq![0u8, 0u8, 0u8]);
        r
    }

    /// Feeds one byte of a PS/2 packet. On the third byte of a packet without overflow
    /// the buttons are taken and the pointer moves, clamped to the screen; returns whether
    /// it moved. A first byte without bit 3 set is out of sync and dropped.
    /// Whether `handle_byte(b, w, h)` may be called now: the position a completed packet moves
    /// to lies within `isize`.
    pub fn move_ok(&self, b: u8, w: usize, h: usize) -> (r: bool)
        requires
            self.packet_view().len() == 3,
        ensures
            r == self.move_fits(b, w, h),
    {
        let flags = self.bytes[0];
        if !(self.cycle >= 2 && flags & 0xc0 == 0) {
            return true;
        }
        let dx: i128 = if flags & 0x10 != 0 { self.bytes[1] as i128 - 256 } else { self.bytes[1] as i128 };
        let dy: i128 = if flags & 0x20 != 0 { b as i128 - 256 } else { b as i128 };
        let ax = self.x as i128 + dx;
        let ay = self.y as i128 - dy;
        let lo = isize::MIN as i128;
        let hi = isize::MAX as i128;
        lo <= ax && ax <= hi && lo <= ay && ay <= hi && (w as isize) != isize::MIN && (h as isize) != isize::MIN
    }

    pub fn handle_byte(&mut self, b: u8, w: usize, h: usize) -> (moved: bool)
        requires
            old(self).cycle_view() <= 2,
            old(self).packet_view().len() == 3,
            old(self).move_fits(b, w, h),
        ensures
            final(self).cycle_view() <= 2,
            final(self).packet_view().len() == 3,
            old(self).cycle_view() == 0 ==> !moved && (if b & 0x08 == 0 {
                *final(self) == *old(self)
            } else {
                final(self).cycle_view() == 1 && final(self).packet_view() == old(self).packet_view().update(0, b) && final(self).x == old(self).x && final(self).y
                    == old(self).y && final(self).buttons == old(self).buttons
            }),
            old(self).cycle_view() == 1 ==> !moved && final(self).cycle_view() == 2
                && final(self).packet_view() == old(self).packet_view().update(1, b) && final(self).x == old(self).x && final(self).y == old(self).y && final(self).buttons == old(self).buttons,
            old(self).cycle_view() == 2 ==> ({
                let flags = old(self).packet_view()[0];
                let dx = ps2_delta(old(self).packet_view()[1], flags & 0x10 != 0);
                let dy = ps2_delta(b, flags & 0x20 != 0);
                &&& final(self).cycle_view() == 0
                &&& final(self).packet_view() == old(self).packet_view().update(2, b)
                &&& moved == (flags & 0xc0 == 0)
                &&& moved ==> final(self).buttons == flags & 0x07 && final(self).x == clamp_spec(
                    old(self).x + dx,
                    w as isize - 1,
                ) && final(self).y == clamp_spec(old(self).y - dy, h as isize - 1)
                &&& !moved ==> final(self).buttons == old(self).buttons && final(self).x == old(self).x && final(self).y == old(self).y
            }),
    {
        if self.cycle == 0 {
            if b & 0x08 == 0 {
                return false;
            }
            self.bytes[0] = b;
            self.cycle = 1;
            assert(self.packet_view() =~= old(self).packet_view().update(0, b));
            return false;
        } else if self.cycle == 1 {
            self.bytes[1] = b;
            self.cycle = 2;
            assert(self.packet_view() =~= old(self).packet_view().update(1, b));
            return false;
        } else {
            self.bytes[2] = b;
            self.cycle = 0;
            assert(self.packet_view() =~= old(self).packet_view().update(2, b));
            let flags = self.bytes[0];
            let x_sign = flags & 0x10 != 0;
            let y_sign = flags & 0x20 != 0;
            let mut dx = self.bytes[1] as isize;
            let mut dy = self.bytes[2] as isize;
            if x_sign {
                dx -= 256;
            }
            if y_sign {
                dy -= 256;
            }
            if flags & 0xc0 != 0 {
                return false;
            }
            self.buttons = flags & 0x07;
            let nx = self.x + dx;
            let nx = if nx > 0 { nx } else { 0 };
            let wx = w as isize - 1;
            self.x = if nx < wx { nx } else { wx };
            let ny = self.y - dy;
            let ny = if ny > 0 { ny } else { 0 };
            let hy = h as isize - 1;
            self.y = if ny < hy { ny } else { hy };
            return true;
        }
    }
}

// ── Keyboard ──
/// Tracks the shift keys and turns scan codes (set 1) into characters.
pub struct KeyboardState {
    pub shift_pressed: bool,
}

/// The character of a make code on a US layout; NUL for keys without one.
pub open spec fn key_char(shift: bool, code: u8) -> char {
    if shift {
        match code {
            0x02 => '!', 0x03 => '@', 0x04 => '#', 0x05 => '$', 0x06 => '%',
            0x07 => '^', 0x08 => '&', 0x09 => '*', 0x0A => '(', 0x0B => ')',
            0x0C => '_', 0x0D => '+',
            0x10 => 'Q', 0x11 => 'W', 0x12 => 'E', 0x13 => 'R', 0x14 => 'T',
            0x15 => 'Y', 0x16 => 'U', 0x17 => 'I', 0x18 => 'O', 0x19 => 'P',
            0x1A => '{', 0x1B => '}',
            0x1E => 'A', 0x1F => 'S', 0x20 => 'D', 0x21 => 'F', 0x22 => 'G',
            0x23 => 'H', 0x24 => 'J', 0x25 => 'K', 0x26 => 'L', 0x27 => ':',
            0x28 => '"', 0x29 => '~',
            0x2C => 'Z', 0x2D => 'X', 0x2E => 'C', 0x2F => 'V', 0x30 => 'B',
            0x31 => 'N', 0x32 => 'M', 0x33 => '<', 0x34 => '>', 0x35 => '?',
            0x39 => ' ',
            _ => '\0',
        }
    } else {
        match code {
            0x02 => '1', 0x03 => '2', 0x04 => '3', 0x05 => '4', 0x06 => '5',
            0x07 => '6', 0x08 => '7', 0x09 => '8', 0x0A => '9', 0x0B => '0',
            0x0C => '-', 0x0D => '=',
            0x10 => 'q', 0x11 => 'w', 0x12 => 'e', 0x13 => 'r', 0x14 => 't',
            0x15 => 'y', 0x16 => 'u', 0x17 => 'i', 0x18 => 'o', 0x19 => 'p',
            0x1A => '[', 0x1B => ']',
            0x1E => 'a', 0x1F => 's', 0x20 => 'd', 0x21 => 'f', 0x22 => 'g',
            0x23 => 'h', 0x24 => 'j', 0x25 => 'k', 0x26 => 'l', 0x27 => ';',
            0x28 => '\'', 0x29 => '`',
            0x2C => 'z', 0x2D => 'x', 0x2E => 'c', 0x2F => 'v', 0x30 => 'b',
            0x31 => 'n', 0x32 => 'm', 0x33 => ',', 0x34 => '.', 0x35 => '/',
            0x39 => ' ',
            0x1C => '\n',
            0x0E => '\x08',
            _ => '\0',
        }
    }
}

impl KeyboardState {
    /// Shift presses and releases change the state; other make codes give their character;
    /// other break codes give nothing.
    pub fn handle_scancode(&mut self, code: u8) -> (r: Option<char>)
        ensures
            (code == 0x2a || code == 0x36) ==> r is None && final(self).shift_pressed,
            (code == 0xaa || code == 0xb6) ==> r is None && !final(self).shift_pressed,
            !(code == 0x2a || code == 0x36 || code == 0xaa || code == 0xb6) ==> final(self).shift_pressed == old(self).shift_pressed && r == if code & 0x80 == 0 {
                Some(key_char(old(self).shift_pressed, code))
            } else {
                None
            },
    {
        if code == 0x2a || code == 0x36 {
            self.shift_pressed = true;
            None
        } else if code == 0xaa || code == 0xb6 {
            self.shift_pressed = false;
            None
        } else if code & 0x80 == 0 {
            Some(self.translate(code))
        } else {
            None
        }
    }

    pub fn translate(&self, scancode: u8) -> (c: char)
        ensures
            c == key_char(self.shift_pressed, scancode),
    {
        if self.shift_pressed {
            match scancode {
                0x02 => '!', 0x03 => '@', 0x04 => '#', 0x05 => '$', 0x06 => '%',
                0x07 => '^', 0x08 => '&', 0x09 => '*', 0x0A => '(', 0x0B => ')',
                0x0C => '_', 0x0D => '+',
                0x10 => 'Q', 0x11 => 'W', 0x12 => 'E', 0x13 => 'R', 0x14 => 'T',
                0x15 => 'Y', 0x16 => 'U', 0x17 => 'I', 0x18 => 'O', 0x19 => 'P',
                0x1A => '{', 0x1B => '}',
                0x1E => 'A', 0x1F => 'S', 0x20 => 'D', 0x21 => 'F', 0x22 => 'G',
                0x23 => 'H', 0x24 => 'J', 0x25 => 'K', 0x26 => 'L', 0x27 => ':',
                0x28 => '"', 0x29 => '~',
                0x2C => 'Z', 0x2D => 'X', 0x2E => 'C', 0x2F => 'V', 0x30 => 'B',
                0x31 => 'N', 0x32 => 'M', 0x33 => '<', 0x34 => '>', 0x35 => '?',
                0x39 => ' ',
                _ => '\0',
            }
        } else {
            match scancode {
                0x02 => '1', 0x03 => '2', 0x04 => '3', 0x05 => '4', 0x06 => '5',
                0x07 => '6', 0x08 => '7', 0x09 => '8', 0x0A => '9', 0x0B => '0',
                0x0C => '-', 0x0D => '=',
                0x10 => 'q', 0x11 => 'w', 0x12 => 'e', 0x13 => 'r', 0x14 => 't',
                0x15 => 'y', 0x16 => 'u', 0x17 => 'i', 0x18 => 'o', 0x19 => 'p',
                0x1A => '[', 0x1B => ']',
                0x1E => 'a', 0x1F => 's', 0x20 => 'd', 0x21 => 'f', 0x22 => 'g',
                0x23 => 'h', 0x24 => 'j', 0x25 => 'k', 0x26 => 'l', 0x27 => ';',
                0x28 => '\'', 0x29 => '`',
                0x2C => 'z', 0x2D => 'x', 0x2E => 'c', 0x2F => 'v', 0x30 => 'b',
                0x31 => 'n', 0x32 => 'm', 0x33 => ',', 0x34 => '.', 0x35 => '/',
                0x39 => ' ',
                0x1C => '\n',
                0x0E => '\x08',
                _ => '\0',
            }
        }
    }
}

// ── Terminal screen ──
pub const TERM_COLS: usize = 62;

pub const TERM_ROWS: usize = 14;

/// The prompt, eighteen columns wide.
pub open spec fn prompt_text() -> Seq<char> {
    "guest@atulyaos:~$ "@
}

/// The screen as a spec value: the cells row by row, the cursor row and the cursor column.
pub type ScreenView = (Seq<u8>, int, int);

/// The byte that a character leaves in a cell: its low eight bits.
pub open spec fn cell_byte(c: char) -> u8 {
    (c as u32 % 256) as u8
}

/// A blank row.
pub open spec fn blank_row() -> Seq<u8> {
    Seq::new(TERM_COLS as nat, |i: int| 0x20u8)
}

/// The cells moved up one row, with a blank bottom row.
pub open spec fn scrolled(cells: Seq<u8>) -> Seq<u8> {
    cells.subrange(TERM_COLS as int, (TERM_ROWS * TERM_COLS) as int) + blank_row()
}

/// A new line: the next row, or the screen scrolled when on the last row; column zero.
pub open spec fn nl_spec(s: ScreenView) -> ScreenView {
    if s.1 < TERM_ROWS - 1 {
        (s.0, s.1 + 1, 0)
    } else {
        (scrolled(s.0), TERM_ROWS - 1, 0)
    }
}

/// One character written: a line feed starts a new line; a full row wraps first.
pub open spec fn put_spec(s: ScreenView, c: char) -> ScreenView {
    if c == '\n' {
        nl_spec(s)
    } else if s.2 < TERM_COLS {
        (s.0.update(s.1 * TERM_COLS + s.2, cell_byte(c)), s.1, s.2 + 1)
    } else {
        let t = nl_spec(s);
        (t.0.update(t.1 * TERM_COLS, cell_byte(c)), t.1, 1)
    }
}

/// A text written character by character.
pub open spec fn puts_spec(s: ScreenView, t: Seq<char>) -> ScreenView
    decreases t.len(),
{
    if t.len() == 0 {
        s
    } else {
        put_spec(puts_spec(s, t.drop_last()), t.last())
    }
}

pub open spec fn screen_ok(s: ScreenView) -> bool {
    s.0.len() == TERM_ROWS * TERM_COLS && 0 <= s.1 < TERM_ROWS && 0 <= s.2 <= TERM_COLS
}

proof fn lemma_puts_ok(s: ScreenView, t: Seq<char>)
    requires
        screen_ok(s),
    ensures
        screen_ok(puts_spec(s, t)),
    decreases t.len(),
{
    if t.len() > 0 {
        lemma_puts_ok(s, t.drop_last());
    }
}

proof fn lemma_puts_concat(s: ScreenView, a: Seq<char>, b: Seq<char>)
    ensures
        puts_spec(s, a + b) == puts_spec(puts_spec(s, a), b),
    decreases b.len(),
{
    if b.len() == 0 {
        assert(a + b =~= a);
    } else {
        assert((a + b).drop_last() =~= a + b.drop_last());
        lemma_puts_concat(s, a, b.drop_last());
    }
}

/// The text that `clear` writes on a blank screen: the banner, then the prompt.
pub open spec fn banner_text() -> Seq<char> {
    "AtulyaOS Shell Console v0.3"@ + "\n"@ + "Move windows: Drag Titlebar / Alt+Arrows"@ + "\n"@
        + "Switch focus: Click window / Tab"@ + "\n"@ + "Close window: Click Red Button"@ + "\n"@
        + "Restore window: Click corresponding Dock icon"@ + "\n"@ + "Type 'help' for commands."@
        + "\n"@ + prompt_text()
}

/// A blank screen with the cursor home.
pub open spec fn blank_screen() -> ScreenView {
    (Seq::new((TERM_ROWS * TERM_COLS) as nat, |i: int| 0x20u8), 0, 0)
}

/// The shell's console: a screen of cells with a cursor, the joke rotation, its file
/// system and its working directory.
pub struct Terminal {
    buffer: Vec<u8>,
    cursor_row: usize,
    cursor_col: usize,
    joke_idx: usize,
    fs: RamFs,
    cwd: Vec<char>,
}

impl Terminal {
    /// The screen: cells, cursor row, cursor column.
    pub closed spec fn screen(&self) -> ScreenView {
        (self.buffer@, self.cursor_row as int, self.cursor_col as int)
    }

    /// The shell's file system.
    pub closed spec fn file_system(&self) -> RamFs {
        self.fs
    }

    pub closed spec fn cwd_view(&self) -> Seq<char> {
        self.cwd@
    }

    pub closed spec fn joke_view(&self) -> int {
        self.joke_idx as int
    }

    /// The screen is well formed, the joke index is in range and the file system is valid.
    pub closed spec fn wf(&self) -> bool {
        &&& screen_ok(self.screen())
        &&& self.joke_idx < 4
        &&& self.fs.wf()
    }

    fn new_line(&mut self)
        requires
            old(self).wf(),
        ensures
            final(self).wf(),
            final(self).screen() == nl_spec(old(self).screen()),
            final(self).cwd_view() == old(self).cwd_view(),
            final(self).joke_view() == old(self).joke_view(),
            final(self).file_system() == old(self).file_system(),
    {
        if self.cursor_row < TERM_ROWS - 1 {
            self.cursor_row += 1;
        } else {
            let mut i: usize = 0;
            while i < (TERM_ROWS - 1) * TERM_COLS
                invariant
                    self.buffer@.len() == TERM_ROWS * TERM_COLS,
                    i <= (TERM_ROWS - 1) * TERM_COLS,
                    forall|j: int| 0 <= j < i ==> self.buffer@[j] == old(self).buffer@[j + TERM_COLS],
                    forall|j: int| i <= j < TERM_ROWS * TERM_COLS ==> self.buffer@[j] == old(
                        self,
                    ).buffer@[j],
                    self.cursor_row == old(self).cursor_row,
                    self.cursor_col == old(self).cursor_col,
                    self.joke_idx == old(self).joke_idx,
                    self.cwd == old(self).cwd,
                    self.fs == old(self).fs,
                decreases (TERM_ROWS - 1) * TERM_COLS - i,
            {
                let b = self.buffer[i + TERM_COLS];
                self.buffer.set(i, b);
                i += 1;
            }
            while i < TERM_ROWS * TERM_COLS
                invariant
                    self.buffer@.len() == TERM_ROWS * TERM_COLS,
                    (TERM_ROWS - 1) * TERM_COLS <= i <= TERM_ROWS * TERM_COLS,
                    forall|j: int|
                        0 <= j < (TERM_ROWS - 1) * TERM_COLS ==> self.buffer@[j] == old(
                            self,
                        ).buffer@[j + TERM_COLS],
                    forall|j: int| (TERM_ROWS - 1) * TERM_COLS <= j < i ==> self.buffer@[j] == 0x20u8,
                    self.cursor_row == old(self).cursor_row,
                    self.cursor_col == old(self).cursor_col,
                    self.joke_idx == old(self).joke_idx,
                    self.cwd == old(self).cwd,
                    self.fs == old(self).fs,
                decreases TERM_ROWS * TERM_COLS - i,
            {
                self.buffer.set(i, 0x20);
                i += 1;
            }
            self.cursor_row = TERM_ROWS - 1;
            assert(self.buffer@ =~= scrolled(old(self).buffer@));
        }
        self.cursor_col = 0;
    }

    /// Writes one character at the cursor; a newline (or a full row) moves to the next row.
    pub fn write_char(&mut self, ch: char)
        requires
            old(self).wf(),
        ensures
            final(self).wf(),
            final(self).screen() == put_spec(old(self).screen(), ch),
            final(self).cwd_view() == old(self).cwd_view(),
            final(self).joke_view() == old(self).joke_view(),
            final(self).file_system() == old(self).file_system(),
    {
        if ch == '\n' {
            self.new_line();
            return;
        }
        let b = (ch as u32 % 256) as u8;
        if self.cursor_col < TERM_COLS {
            self.buffer.set(self.cursor_row * TERM_COLS + self.cursor_col, b);
            self.cursor_col += 1;
        } else {
            self.new_line();
            if self.cursor_col < TERM_COLS {
                self.buffer.set(self.cursor_row * TERM_COLS + self.cursor_col, b);
                self.cursor_col += 1;
            }
        }
    }

    /// Writes each character in turn.
    pub fn write_chars(&mut self, s: &[char])
        requires
            old(self).wf(),
        ensures
            final(self).wf(),
            final(self).screen() == puts_spec(old(self).screen(), s@),
            final(self).cwd_view() == old(self).cwd_view(),
            final(self).joke_view() == old(self).joke_view(),
            final(self).file_system() == old(self).file_system(),
    {
        let mut i: usize = 0;
        while i < s.len()
            invariant
                self.wf(),
                i <= s@.len(),
                self.screen() == puts_spec(old(self).screen(), s@.subrange(0, i as int)),
                self.cwd_view() == old(self).cwd_view(),
                self.joke_view() == old(self).joke_view(),
                self.fs == old(self).fs,
            decreases s@.len() - i,
        {
            self.write_char(s[i]);
            assert(s@.subrange(0, i + 1).drop_last() =~= s@.subrange(0, i as int));
            i += 1;
        }
        assert(s@.subrange(0, s@.len() as int) =~= s@);
    }

    /// Writes the characters of `s` in turn.
    pub fn write_str(&mut self, s: &str)
        requires
            old(self).wf(),
        ensures
            final(self).wf(),
            final(self).screen() == puts_spec(old(self).screen(), s@),
            final(self).cwd_view() == old(self).cwd_view(),
            final(self).joke_view() == old(self).joke_view(),
            final(self).file_system() == old(self).file_system(),
    {
        let v = chars_of(s);
        self.write_chars(v.as_slice());
    }

    /// The byte shown at row `row`, column `col`.
    pub fn cell(&self, row: usize, col: usize) -> (b: u8)
        requires
            self.wf(),
            row < TERM_ROWS,
            col < TERM_COLS,
        ensures
            b == self.screen().0[row * TERM_COLS + col],
    {
        assert(row * TERM_COLS + col < TERM_ROWS * TERM_COLS) by (nonlinear_arith)
            requires
                row < TERM_ROWS,
                col < TERM_COLS,
        ;
        self.buffer[row * TERM_COLS + col]
    }

    /// The cursor's row and column.
    pub fn cursor(&self) -> (rc: (usize, usize))
        ensures
            rc.0 == self.screen().1 && rc.1 == self.screen().2,
    {
        (self.cursor_row, self.cursor_col)
    }

    /// Erases the character before the cursor, never into the prompt.
    pub fn backspace(&mut self)
        requires
            old(self).wf(),
        ensures
            final(self).wf(),
            old(self).screen().2 > 18 ==> final(self).screen() == (old(self).screen().0.update(
                old(self).screen().1 * TERM_COLS + old(self).screen().2 - 1,
                0x20u8,
            ), old(self).screen().1, old(self).screen().2 - 1),
            old(self).screen().2 <= 18 ==> final(self).screen() == old(self).screen(),
            final(self).cwd_view() == old(self).cwd_view(),
            final(self).file_system() == old(self).file_system(),
    {
        if self.cursor_col > 18 {
            self.cursor_col -= 1;
            self.buffer.set(self.cursor_row * TERM_COLS + self.cursor_col, 0x20);
        }
    }

    /// Clears the screen and writes the banner and a prompt.
    pub fn clear(&mut self)
        requires
            old(self).wf(),
        ensures
            final(self).wf(),
            final(self).screen() == puts_spec(blank_screen(), banner_text()),
            final(self).cwd_view() == old(self).cwd_view(),
            final(self).joke_view() == old(self).joke_view(),
            final(self).file_system() == old(self).file_system(),
    {
        let mut i: usize = 0;
        while i < TERM_ROWS * TERM_COLS
            invariant
                self.buffer@.len() == TERM_ROWS * TERM_COLS,
                i <= TERM_ROWS * TERM_COLS,
                forall|j: int| 0 <= j < i ==> self.buffer@[j] == 0x20u8,
                self.cursor_row < TERM_ROWS,
                self.cursor_col <= TERM_COLS,
                self.joke_idx == old(self).joke_idx,
                self.joke_idx < 4,
                self.cwd == old(self).cwd,
                self.fs == old(self).fs,
                self.fs.wf(),
            decreases TERM_ROWS * TERM_COLS - i,
        {
            self.buffer.set(i, 0x20);
            i += 1;
        }
        self.cursor_row = 0;
        self.cursor_col = 0;
        assert(self.screen() =~= blank_screen());
        let ghost s0 = self.screen();
        self.write_str("AtulyaOS Shell Console v0.3");
        self.write_str("\n");
        self.write_str("Move windows: Drag Titlebar / Alt+Arrows");
        self.write_str("\n");
        self.write_str("Switch focus: Click window / Tab");
        self.write_str("\n");
        self.write_str("Close window: Click Red Button");
        self.write_str("\n");
        self.write_str("Restore window: Click corresponding Dock icon");
        self.write_str("\n");
        self.write_str("Type 'help' for commands.");
        self.write_str("\n");
        self.write_str("guest@atulyaos:~$ ");
        proof {
            let t1 = "AtulyaOS Shell Console v0.3"@;
            let t2 = "Move windows: Drag Titlebar / Alt+Arrows"@;
            let t3 = "Switch focus: Click window / Tab"@;
            let t4 = "Close window: Click Red Button"@;
            let t5 = "Restore window: Click corresponding Dock icon"@;
            let t6 = "Type 'help' for commands."@;
            let n = "\n"@;
            lemma_puts_concat(s0, t1, n);
            lemma_puts_concat(s0, t1 + n, t2);
            lemma_puts_concat(s0, t1 + n + t2, n);
            lemma_puts_concat(s0, t1 + n + t2 + n, t3);
            lemma_puts_concat(s0, t1 + n + t2 + n + t3, n);
            lemma_puts_concat(s0, t1 + n + t2 + n + t3 + n, t4);
            lemma_puts_concat(s0, t1 + n + t2 + n + t3 + n + t4, n);
            lemma_puts_concat(s0, t1 + n + t2 + n + t3 + n + t4 + n, t5);
            lemma_puts_concat(s0, t1 + n + t2 + n + t3 + n + t4 + n + t5, n);
            lemma_puts_concat(s0, t1 + n + t2 + n + t3 + n + t4 + n + t5 + n, t6);
            lemma_puts_concat(s0, t1 + n + t2 + n + t3 + n + t4 + n + t5 + n + t6, n);
            lemma_puts_concat(s0, t1 + n + t2 + n + t3 + n + t4 + n + t5 + n + t6 + n, prompt_text());
        }
    }

    /// A fresh console: the banner and a prompt, the demo file system, at `/`.
    pub fn new() -> (r: Self)
        ensures
            r.wf(),
            r.screen() == puts_spec(blank_screen(), banner_text()),
            r.cwd_view() == seq!['/'],
            r.joke_view() == 0,
            r.file_system().files_view() == crate::fs::ramdisk::initial_files(),
    {
        let mut buffer: Vec<u8> = Vec::new();
        let mut i: usize = 0;
        while i < TERM_ROWS * TERM_COLS
            invariant
                buffer@.len() == i,
                i <= TERM_ROWS * TERM_COLS,
            decreases TERM_ROWS * TERM_COLS - i,
        {
            buffer.push(0x20);
            i += 1;
        }
        let mut cwd: Vec<char> = Vec::new();
        cwd.push('/');
        let mut term = Self { buffer, cursor_row: 0, cursor_col: 0, joke_idx: 0, fs: RamFs::new(), cwd };
        assert(term.cwd_view() =~= seq!['/']);
        term.clear();
        term
    }
}

// ── Paths ──
/// A finished path component applied to the stack: empty and `.` do nothing, `..` pops.
pub open spec fn apply_part(st: Seq<Seq<char>>, seg: Seq<char>) -> Seq<Seq<char>> {
    if seg.len() == 0 || seg == seq!['.'] {
        st
    } else if seg == seq!['.', '.'] {
        if st.len() > 0 {
            st.drop_last()
        } else {
            st
        }
    } else {
        st.push(seg)
    }
}

/// The component stack and the component in progress after reading `s`.
pub open spec fn part_fold(s: Seq<char>) -> (Seq<Seq<char>>, Seq<char>)
    decreases s.len(),
{
    if s.len() == 0 {
        (Seq::empty(), Seq::empty())
    } else {
        let (st, cur) = part_fold(s.drop_last());
        if s.last() == '/' {
            (apply_part(st, cur), Seq::empty())
        } else {
            (st, cur.push(s.last()))
        }
    }
}

/// The components of an absolute path after `.` and `..` are applied.
pub open spec fn resolved_parts(s: Seq<char>) -> Seq<Seq<char>> {
    let (st, cur) = part_fold(s);
    apply_part(st, cur)
}

/// `/` before each component.
pub open spec fn slash_join(parts: Seq<Seq<char>>) -> Seq<char>
    decreases parts.len(),
{
    if parts.len() == 0 {
        Seq::empty()
    } else {
        slash_join(parts.drop_last()) + seq!['/'] + parts.last()
    }
}

/// A path resolved against the working directory `cwd`.
pub open spec fn resolve_spec(cwd: Seq<char>, path: Seq<char>) -> Seq<char> {
    let p = trim_spec(path);
    if p.len() == 0 {
        cwd
    } else {
        let full = if p[0] == '/' {
            p
        } else if cwd == seq!['/'] {
            seq!['/'] + p
        } else {
            cwd + seq!['/'] + p
        };
        let parts = resolved_parts(full);
        if parts.len() == 0 {
            seq!['/']
        } else {
            slash_join(parts)
        }
    }
}

/// A path component that names an entry: not empty, not `.` or `..`, and without `/`.
pub open spec fn plain_name(x: Seq<char>) -> bool {
    &&& x.len() > 0
    &&& x != seq!['.'] && x != seq!['.', '.']
    &&& forall|i: int| 0 <= i < x.len() ==> x[i] != '/'
}

/// Characters without `/` only extend the component in progress.
proof fn lemma_fold_no_slash(s: Seq<char>, x: Seq<char>)
    requires
        forall|i: int| 0 <= i < x.len() ==> x[i] != '/',
    ensures
        part_fold(s + x) == (part_fold(s).0, part_fold(s).1 + x),
    decreases x.len(),
{
    if x.len() == 0 {
        assert(s + x =~= s);
        assert(part_fold(s).1 + x =~= part_fold(s).1);
    } else {
        let y = x.drop_last();
        lemma_fold_no_slash(s, y);
        assert((s + x).drop_last() =~= s + y);
        assert((s + x).last() == x.last());
        assert(part_fold(s).1 + y.push(x.last()) =~= part_fold(s).1 + x);
        assert(y.push(x.last()) =~= x);
    }
}

/// A component followed by `..` cancels out: resolving `p/x/..` gives the components of `p`,
/// for any path `p` and any entry name `x`.
pub proof fn lemma_dotdot_cancels(p: Seq<char>, x: Seq<char>)
    requires
        plain_name(x),
    ensures
        resolved_parts(p + seq!['/'] + x + seq!['/', '.', '.']) == resolved_parts(p),
{
    let (st, cur) = part_fold(p);
    let a = apply_part(st, cur);
    let s1 = p + seq!['/'];
    assert(s1.drop_last() =~= p);
    assert(part_fold(s1) == (a, Seq::<char>::empty()));
    lemma_fold_no_slash(s1, x);
    assert(Seq::<char>::empty() + x =~= x);
    let s2 = s1 + x;
    let s3 = s2.push('/');
    assert(part_fold(s2) == (a, x));
    assert(s3.drop_last() =~= s2);
    assert(s3.last() == '/');
    assert(part_fold(s3) == (apply_part(a, x), Seq::<char>::empty()));
    assert(apply_part(a, x) == a.push(x));
    let s4 = s3.push('.');
    let s5 = s4.push('.');
    assert(s4.drop_last() =~= s3);
    assert(s5.drop_last() =~= s4);
    assert(part_fold(s4) == (a.push(x), Seq::<char>::empty().push('.')));
    assert(part_fold(s5) == (a.push(x), Seq::<char>::empty().push('.').push('.')));
    assert(Seq::<char>::empty().push('.').push('.') =~= seq!['.', '.']);
    assert(p + seq!['/'] + x + seq!['/', '.', '.'] =~= s5);
    assert(a.push(x).drop_last() =~= a);
}

/// Reading the same characters after two paths that have been read to the same state
/// leaves them in the same state.
proof fn lemma_fold_congruent(s1: Seq<char>, s2: Seq<char>, t: Seq<char>)
    requires
        part_fold(s1) == part_fold(s2),
    ensures
        part_fold(s1 + t) == part_fold(s2 + t),
    decreases t.len(),
{
    if t.len() == 0 {
        assert(s1 + t =~= s1);
        assert(s2 + t =~= s2);
    } else {
        let u = t.drop_last();
        lemma_fold_congruent(s1, s2, u);
        assert((s1 + t).drop_last() =~= s1 + u);
        assert((s2 + t).drop_last() =~= s2 + u);
        assert((s1 + t).last() == t.last());
        assert((s2 + t).last() == t.last());
    }
}

/// `x/..` in the middle of a path cancels too: `p/x/../t` has the components of `p/t`.
pub proof fn lemma_dotdot_cancels_inside(p: Seq<char>, x: Seq<char>, t: Seq<char>)
    requires
        plain_name(x),
    ensures
        resolved_parts(p + seq!['/'] + x + seq!['/', '.', '.', '/'] + t) == resolved_parts(p + seq!['/'] + t),
{
    let (st, cur) = part_fold(p);
    let a = apply_part(st, cur);
    let s1 = p + seq!['/'];
    assert(s1.drop_last() =~= p);
    assert(part_fold(s1) == (a, Seq::<char>::empty()));
    lemma_fold_no_slash(s1, x);
    assert(Seq::<char>::empty() + x =~= x);
    let s2 = s1 + x;
    let s3 = s2.push('/');
    assert(part_fold(s2) == (a, x));
    assert(s3.drop_last() =~= s2);
    assert(part_fold(s3) == (a.push(x), Seq::<char>::empty()));
    let s4 = s3.push('.');
    let s5 = s4.push('.');
    let s6 = s5.push('/');
    assert(s4.drop_last() =~= s3);
    assert(s5.drop_last() =~= s4);
    assert(s6.drop_last() =~= s5);
    assert(part_fold(s4) == (a.push(x), Seq::<char>::empty().push('.')));
    assert(part_fold(s5) == (a.push(x), Seq::<char>::empty().push('.').push('.')));
    assert(Seq::<char>::empty().push('.').push('.') =~= seq!['.', '.']);
    assert(a.push(x).drop_last() =~= a);
    assert(part_fold(s6) == part_fold(s1));
    lemma_fold_congruent(s6, s1, t);
    assert(p + seq!['/'] + x + seq!['/', '.', '.', '/'] + t =~= s6 + t);
    assert(p + seq!['/'] + t =~= s1 + t);
}

/// Appending `/x` for an entry name `x` adds `x` as the last component.
pub proof fn lemma_name_appends(p: Seq<char>, x: Seq<char>)
    requires
        plain_name(x),
    ensures
        resolved_parts(p + seq!['/'] + x) == resolved_parts(p).push(x),
{
    let (st, cur) = part_fold(p);
    let a = apply_part(st, cur);
    let s1 = p + seq!['/'];
    assert(s1.drop_last() =~= p);
    assert(part_fold(s1) == (a, Seq::<char>::empty()));
    lemma_fold_no_slash(s1, x);
    assert(Seq::<char>::empty() + x =~= x);
}

/// `.` and empty components change nothing: `p/./t` and `p//t` have the components of `p/t`.
pub proof fn lemma_dot_and_empty_ignored(p: Seq<char>, t: Seq<char>)
    ensures
        resolved_parts(p + seq!['/', '.', '/'] + t) == resolved_parts(p + seq!['/'] + t),
        resolved_parts(p + seq!['/', '/'] + t) == resolved_parts(p + seq!['/'] + t),
{
    let (st, cur) = part_fold(p);
    let a = apply_part(st, cur);
    let s1 = p + seq!['/'];
    assert(s1.drop_last() =~= p);
    assert(part_fold(s1) == (a, Seq::<char>::empty()));
    let d1 = s1.push('.');
    let d2 = d1.push('/');
    assert(d1.drop_last() =~= s1);
    assert(d2.drop_last() =~= d1);
    assert(Seq::<char>::empty().push('.') =~= seq!['.']);
    assert(d1.last() == '.');
    assert(part_fold(d1) == (a, seq!['.']));
    assert(d2.last() == '/');
    assert(apply_part(a, seq!['.']) == a);
    assert(part_fold(d2) == part_fold(s1));
    lemma_fold_congruent(d2, s1, t);
    assert(p + seq!['/', '.', '/'] + t =~= d2 + t);
    let e1 = s1.push('/');
    assert(e1.drop_last() =~= s1);
    assert(part_fold(e1) == part_fold(s1));
    lemma_fold_congruent(e1, s1, t);
    assert(p + seq!['/', '/'] + t =~= e1 + t);
    assert(p + seq!['/'] + t =~= s1 + t);
}

/// Going up with `..` from a named entry lands where the path without both components does:
/// for a path `p` with no whitespace at either end, `p/x/..` resolves like `p` from any
/// working directory (so `cd /home/user/..` goes to `/home`).
pub proof fn lemma_resolve_dotdot(cwd: Seq<char>, p: Seq<char>, x: Seq<char>)
    requires
        plain_name(x),
        p.len() > 0,
        !crate::text::is_ws(p[0]),
        !crate::text::is_ws(p.last()),
    ensures
        resolve_spec(cwd, p + seq!['/'] + x + seq!['/', '.', '.']) == resolve_spec(cwd, p),
{
    let q = p + seq!['/'] + x + seq!['/', '.', '.'];
    assert(q[0] == p[0]);
    assert(q.last() == '.');
    assert(!crate::text::is_ws('.'));
    assert(crate::text::trim_start_spec(p) == p);
    assert(crate::text::trim_end_spec(p) == p);
    assert(crate::text::trim_start_spec(q) == q);
    assert(crate::text::trim_end_spec(q) == q);
    let base = if p[0] == '/' {
        Seq::<char>::empty()
    } else if cwd == seq!['/'] {
        seq!['/']
    } else {
        cwd + seq!['/']
    };
    let fp = base + p;
    lemma_dotdot_cancels(fp, x);
    assert(base + q =~= fp + seq!['/'] + x + seq!['/', '.', '.']);
    if p[0] == '/' {
        assert(fp =~= p);
        assert(base + q =~= q);
    }
}

fn apply_part_exec(st: &mut Vec<Vec<char>>, seg: Vec<char>)
    ensures
        final(st)@.map_values(|v: Vec<char>| v@) == apply_part(old(st)@.map_values(|v: Vec<char>| v@), seg@),
{
    let ghost before = st@.map_values(|v: Vec<char>| v@);
    if seg.len() == 0 || (seg.len() == 1 && seg[0] == '.') {
        assert(seg@.len() == 1 ==> seg@ =~= seq![seg@[0]]);
        return;
    }
    if seg.len() == 2 && seg[0] == '.' && seg[1] == '.' {
        assert(seg@ =~= seq!['.', '.']);
        if st.len() > 0 {
            st.pop();
            assert(st@.map_values(|v: Vec<char>| v@) =~= before.drop_last());
        }
        return;
    }
    assert(seg@ != seq!['.']) by {
        if seg@ == seq!['.'] {
            assert(seg@.len() == 1);
        }
    }
    assert(seg@ != seq!['.', '.']) by {
        if seg@ == seq!['.', '.'] {
            assert(seg@.len() == 2 && seg@[0] == '.' && seg@[1] == '.');
        }
    }
    st.push(seg);
    assert(st@.map_values(|v: Vec<char>| v@) =~= before.push(seg@));
}

/// The components of `full`, with `.` and `..` applied.
fn resolve_parts_exec(full: &[char]) -> (r: Vec<Vec<char>>)
    ensures
        r@.map_values(|v: Vec<char>| v@) == resolved_parts(full@),
{
    let mut st: Vec<Vec<char>> = Vec::new();
    let mut cur: Vec<char> = Vec::new();
    let mut i: usize = 0;
    while i < full.len()
        invariant
            i <= full@.len(),
            (st@.map_values(|v: Vec<char>| v@), cur@) == part_fold(full@.subrange(0, i as int)),
        decreases full@.len() - i,
    {
        assert(full@.subrange(0, i + 1).drop_last() =~= full@.subrange(0, i as int));
        let c = full[i];
        if c == '/' {
            let seg = cur;
            cur = Vec::new();
            apply_part_exec(&mut st, seg);
            assert(cur@ =~= Seq::<char>::empty());
        } else {
            cur.push(c);
        }
        i += 1;
    }
    assert(full@.subrange(0, full@.len() as int) =~= full@);
    apply_part_exec(&mut st, cur);
    st
}

fn join_parts(parts: &Vec<Vec<char>>) -> (r: Vec<char>)
    ensures
        r@ == slash_join(parts@.map_values(|v: Vec<char>| v@)),
{
    let ghost ps = parts@.map_values(|v: Vec<char>| v@);
    let mut out: Vec<char> = Vec::new();
    let mut k: usize = 0;
    while k < parts.len()
        invariant
            k <= parts@.len(),
            ps == parts@.map_values(|v: Vec<char>| v@),
            out@ == slash_join(ps.subrange(0, k as int)),
        decreases parts@.len() - k,
    {
        out.push('/');
        push_chars(&mut out, parts[k].as_slice());
        assert(ps.subrange(0, k + 1).drop_last() =~= ps.subrange(0, k as int));
        k += 1;
    }
    assert(ps.subrange(0, parts@.len() as int) =~= ps);
    out
}

impl Terminal {
    /// Resolves a path typed at the shell against the working directory.
    pub fn resolve_path(&self, path: &str) -> (r: Vec<char>)
        ensures
            r@ == resolve_spec(self.cwd_view(), path@),
    {
        let p = crate::text::trim_str(path);
        if p.len() == 0 {
            return slice_range(self.cwd.as_slice(), 0, self.cwd.len());
        }
        let mut full: Vec<char> = Vec::new();
        if p[0] == '/' {
            push_chars(&mut full, p.as_slice());
            assert(full@ =~= p@);
        } else if self.cwd.len() == 1 && self.cwd[0] == '/' {
            assert(self.cwd@ =~= seq!['/']);
            full.push('/');
            push_chars(&mut full, p.as_slice());
            assert(full@ =~= seq!['/'] + p@);
        } else {
            assert(self.cwd@ != seq!['/']) by {
                if self.cwd@ == seq!['/'] {
                    assert(self.cwd@.len() == 1 && self.cwd@[0] == '/');
                }
            }
            push_chars(&mut full, self.cwd.as_slice());
            full.push('/');
            push_chars(&mut full, p.as_slice());
            assert(full@ =~= self.cwd@ + seq!['/'] + p@);
        }
        let parts = resolve_parts_exec(full.as_slice());
        assert(parts@.map_values(|v: Vec<char>| v@).len() == parts@.len());
        if parts.len() == 0 {
            let mut r: Vec<char> = Vec::new();
            r.push('/');
            assert(r@ =~= seq!['/']);
            r
        } else {
            join_parts(&parts)
        }
    }
}

// ── The shell ──
/// What the shell works with besides its console: the kernel services it calls, and what
/// the hardware showed (the PCI bus, the disk, and the cycle counts timed around each ping).
pub struct ShellEnv {
    pub ai: crate::ai::IntentEngine,
    pub llm: crate::ai_model::AtulyaAiCore,
    pub net: crate::net::stack::NetworkStack,
    pub audio: crate::audio::AudioDriver,
    pub voice: crate::voice::VoiceSynthesizer,
    pub vault: crate::vault::EncryptedVault,
    pub gguf: crate::gguf::GgufEngine,
    pub scheduler: Option<crate::scheduler::Scheduler>,
    pub disk_available: bool,
    pub pci_devices: Vec<crate::pci::PciDevice>,
    pub ping_cycles: [u64; 3],
    pub tsc_hz: u64,
}

/// Hardware work that a command asks the caller to carry out.
pub enum ShellAction {
    Nothing,
    PlayChime,
    Shutdown,
    Reboot,
    PosixUname,
    Speak(String),
}

/// How many columns after the prompt reach the last non-blank cell of a row, looking at
/// the columns before `k`.
pub open spec fn cmd_len_spec(row: Seq<u8>, k: int) -> int
    decreases k,
{
    if k <= 18 {
        0
    } else if row[k - 1] != 0x20 {
        k - 18
    } else {
        cmd_len_spec(row, k - 1)
    }
}

/// The cells of row `r`.
pub open spec fn row_of(cells: Seq<u8>, r: int) -> Seq<u8> {
    cells.subrange(r * TERM_COLS, r * TERM_COLS + TERM_COLS)
}

/// The command typed after the prompt on the cursor row: its bytes up to the last
/// non-blank cell, decoded as UTF-8 (nothing if they are not) and trimmed.
pub open spec fn typed_command(s: ScreenView) -> Seq<char> {
    let row = row_of(s.0, s.1);
    let bytes = row.subrange(18, 18 + cmd_len_spec(row, TERM_COLS as int));
    if valid_utf8(bytes) {
        trim_spec(decode_utf8(bytes))
    } else {
        Seq::empty()
    }
}

pub open spec fn starts_spec(c: Seq<char>, p: &str) -> bool {
    crate::text::starts_with_spec(c, p@)
}

/// Which command a typed line is, in the order the shell tries them (see `execute_command`).
pub open spec fn command_code(c: Seq<char>) -> int {
    if c.len() == 0 { 0 }
    else if c == "help"@ { 1 }
    else if starts_spec(c, "ask ") { 2 }
    else if c == "memory"@ { 3 }
    else if c == "disk"@ { 4 }
    else if c == "pci"@ { 5 }
    else if c == "ifconfig"@ { 6 }
    else if starts_spec(c, "ping") { 7 }
    else if starts_spec(c, "curl ") || starts_spec(c, "http ") { 8 }
    else if c == "ps"@ { 9 }
    else if starts_spec(c, "run ") || c == "run"@ || starts_spec(c, "wasm") { 10 }
    else if c == "sound"@ { 11 }
    else if c == "skills"@ { 12 }
    else if c == "net"@ { 13 }
    else if c == "clear"@ { 14 }
    else if c == "neofetch"@ { 15 }
    else if c == "scan"@ { 16 }
    else if c == "theme"@ { 17 }
    else if c == "matrix"@ { 18 }
    else if c == "joke"@ { 19 }
    else if c == "pwd"@ { 20 }
    else if starts_spec(c, "cd ") { 21 }
    else if c == "ls"@ { 22 }
    else if starts_spec(c, "ls ") { 23 }
    else if c == "pkg"@ || c == "pkg list"@ { 24 }
    else if starts_spec(c, "pkg install ") { 25 }
    else if starts_spec(c, "pkg remove ") { 26 }
    else if starts_spec(c, "play ") { 27 }
    else if c == "shutdown"@ || c == "poweroff"@ { 28 }
    else if c == "reboot"@ || c == "restart"@ { 29 }
    else if starts_spec(c, "speak ") { 30 }
    else if starts_spec(c, "vault ") || c == "vault"@ { 31 }
    else if c == "netscan"@ || c == "arp-scan"@ { 32 }
    else if starts_spec(c, "portscan ") || c == "portscan"@ { 33 }
    else if c == "gguf"@ || c == "qwen"@ { 34 }
    else if starts_spec(c, "posix ") { 35 }
    else if starts_spec(c, "wallpaper ") { 36 }
    else if starts_spec(c, "cat ") || starts_spec(c, "view ") || starts_spec(c, "open ") { 37 }
    else if starts_spec(c, "mkdir ") { 38 }
    else if starts_spec(c, "rm ") { 39 }
    else if starts_spec(c, "echo ") { 40 }
    else { 41 }
}

fn classify_command(c: &[char]) -> (k: u8)
    ensures
        k as int == command_code(c@),
{
    if c.len() == 0 { 0 }
    else if equals(c, "help") { 1 }
    else if starts(c, "ask ") { 2 }
    else if equals(c, "memory") { 3 }
    else if equals(c, "disk") { 4 }
    else if equals(c, "pci") { 5 }
    else if equals(c, "ifconfig") { 6 }
    else if starts(c, "ping") { 7 }
    else if starts(c, "curl ") || starts(c, "http ") { 8 }
    else if equals(c, "ps") { 9 }
    else if starts(c, "run ") || equals(c, "run") || starts(c, "wasm") { 10 }
    else if equals(c, "sound") { 11 }
    else if equals(c, "skills") { 12 }
    else if equals(c, "net") { 13 }
    else if equals(c, "clear") { 14 }
    else if equals(c, "neofetch") { 15 }
    else if equals(c, "scan") { 16 }
    else if equals(c, "theme") { 17 }
    else if equals(c, "matrix") { 18 }
    else if equals(c, "joke") { 19 }
    else if equals(c, "pwd") { 20 }
    else if starts(c, "cd ") { 21 }
    else if equals(c, "ls") { 22 }
    else if starts(c, "ls ") { 23 }
    else if equals(c, "pkg") || equals(c, "pkg list") { 24 }
    else if starts(c, "pkg install ") { 25 }
    else if starts(c, "pkg remove ") { 26 }
    else if starts(c, "play ") { 27 }
    else if equals(c, "shutdown") || equals(c, "poweroff") { 28 }
    else if equals(c, "reboot") || equals(c, "restart") { 29 }
    else if starts(c, "speak ") { 30 }
    else if starts(c, "vault ") || equals(c, "vault") { 31 }
    else if equals(c, "netscan") || equals(c, "arp-scan") { 32 }
    else if starts(c, "portscan ") || equals(c, "portscan") { 33 }
    else if equals(c, "gguf") || equals(c, "qwen") { 34 }
    else if starts(c, "posix ") { 35 }
    else if starts(c, "wallpaper ") { 36 }
    else if starts(c, "cat ") || starts(c, "view ") || starts(c, "open ") { 37 }
    else if starts(c, "mkdir ") { 38 }
    else if starts(c, "rm ") { 39 }
    else if starts(c, "echo ") { 40 }
    else { 41 }
}

impl Terminal {
    /// The command typed after the prompt on the cursor row.
    fn read_command(&self) -> (r: Vec<char>)
        requires
            self.wf(),
        ensures
            r@ == typed_command(self.screen()),
    {
        let base = self.cursor_row * TERM_COLS;
        let ghost row = row_of(self.buffer@, self.cursor_row as int);
        let mut cmd_len: usize = 0;
        let mut col: usize = 18;
        while col < TERM_COLS
            invariant
                self.wf(),
                base == self.cursor_row * TERM_COLS,
                row == row_of(self.buffer@, self.cursor_row as int),
                18 <= col <= TERM_COLS,
                cmd_len == cmd_len_spec(row, col as int),
                cmd_len <= col - 18,
            decreases TERM_COLS - col,
        {
            if self.buffer[base + col] != 0x20 {
                cmd_len = col - 17;
            }
            col += 1;
        }
        let mut bytes: Vec<u8> = Vec::new();
        let mut k: usize = 0;
        while k < cmd_len
            invariant
                self.wf(),
                base == self.cursor_row * TERM_COLS,
                row == row_of(self.buffer@, self.cursor_row as int),
                cmd_len == cmd_len_spec(row, TERM_COLS as int),
                cmd_len <= 44,
                k <= cmd_len,
                bytes@ == row.subrange(18, 18 + k),
            decreases cmd_len - k,
        {
            bytes.push(self.buffer[base + 18 + k]);
            k += 1;
            assert(bytes@ =~= row.subrange(18, 18 + k));
        }
        match crate::viewer::utf8_chars(bytes.as_slice()) {
            Some(v) => trim_chars(v.as_slice()),
            None => {
                let e: Vec<char> = Vec::new();
                assert(e@ =~= trim_spec(Seq::<char>::empty()));
                e
            },
        }
    }
}

/// A line of output: the text and a line feed.
pub open spec fn ln(s: Seq<char>) -> Seq<char> {
    s + seq!['\n']
}

fn out_str(out: &mut Vec<char>, s: &str)
    ensures
        final(out)@ == old(out)@ + s@,
{
    crate::text::push_str(out, s);
}

fn out_line(out: &mut Vec<char>, s: &str)
    ensures
        final(out)@ == old(out)@ + ln(s@),
{
    crate::text::push_str(out, s);
    out.push('\n');
    assert(out@ =~= old(out)@ + ln(s@));
}

fn out_chars(out: &mut Vec<char>, s: &[char])
    ensures
        final(out)@ == old(out)@ + s@,
{
    push_chars(out, s);
}

/// The text of the commands that print fixed lines.
pub open spec fn fixed_reply(k: int) -> Seq<char> {
    if k == 1 {
        ln("Commands: ls, cat, mkdir, rm, echo, pwd, cd,"@) + ln("          ask <intent>, memory, pci, ifconfig,"@)
            + ln("          ping, ps, wasm, disk, sound, skills,"@) + ln("          net, neofetch, clear, theme, scan"@)
    } else if k == 6 {
        ln("── Network Interfaces ──"@) + ln("  lo0: flags=UP,LOOPBACK mtu 65536"@)
            + ln("       inet 127.0.0.1 netmask 255.0.0.0"@) + ln("  eth0: flags=UP,BROADCAST,MULTICAST mtu 1500"@)
            + ln("       ether 52:54:00:12:34:56"@) + ln("       inet 10.0.2.15 netmask 255.255.255.0"@)
            + ln("       driver VirtIO-Net (PCI Subsystem)"@)
    } else if k == 11 {
        ln("Playing Cyber Harmonic Synthesizer Chime..."@)
    } else if k == 12 {
        ln("── Autonomous AI Subsystems ──"@) + ln("  [1] Memory: Context Vector Graph [ONLINE]"@)
            + ln("  [2] Voice:  Neural TTS/STT Matrix [ONLINE]"@) + ln("  [3] Vision: Multimodal Canvas Stream [ONLINE]"@)
            + ln("  [4] Skills: Autonomous Agent Core [ACTIVE]"@) + ln("  [5] Security: Bio-Gate AXON-7 [SECURE]"@)
    } else if k == 13 {
        ln("── Quantum Mesh Network Telemetry ──"@) + ln("  Interface: loopback (127.0.0.1) [UP]"@)
            + ln("  Adapter: VirtIO-Net PCI [INITIALIZED]"@) + ln("  Mesh Packets: TX 1,024 | RX 1,024 | 0% Loss"@)
    } else if k == 15 {
        ln("   _ _          guest@atulyaos"@) + ln("  / V \\         --------------"@)
            + ln("  \\   /         OS Type: macOS/Linux/Win Fusion"@) + ln("   \\ /          Kernel: Atulya Core v1.0"@)
            + ln("    V           CPU: x86_64 Core (Freestanding)"@) + ln("                Memory: 128MB / 256MB RAM"@)
            + ln("                Uptime: Active"@)
    } else if k == 28 {
        ln("Shutting down Atulya OS..."@)
    } else {
        ln("Rebooting Atulya OS..."@)
    }
}

fn fixed_reply_exec(k: u8, out: &mut Vec<char>)
    requires
        k == 1 || k == 6 || k == 11 || k == 12 || k == 13 || k == 15 || k == 28 || k == 29,
    ensures
        final(out)@ == old(out)@ + fixed_reply(k as int),
{
    let ghost o = out@;
    if k == 1 {
        out_line(out, "Commands: ls, cat, mkdir, rm, echo, pwd, cd,");
        out_line(out, "          ask <intent>, memory, pci, ifconfig,");
        out_line(out, "          ping, ps, wasm, disk, sound, skills,");
        out_line(out, "          net, neofetch, clear, theme, scan");
    } else if k == 6 {
        out_line(out, "── Network Interfaces ──");
        out_line(out, "  lo0: flags=UP,LOOPBACK mtu 65536");
        out_line(out, "       inet 127.0.0.1 netmask 255.0.0.0");
        out_line(out, "  eth0: flags=UP,BROADCAST,MULTICAST mtu 1500");
        out_line(out, "       ether 52:54:00:12:34:56");
        out_line(out, "       inet 10.0.2.15 netmask 255.255.255.0");
        out_line(out, "       driver VirtIO-Net (PCI Subsystem)");
    } else if k == 11 {
        out_line(out, "Playing Cyber Harmonic Synthesizer Chime...");
    } else if k == 12 {
        out_line(out, "── Autonomous AI Subsystems ──");
        out_line(out, "  [1] Memory: Context Vector Graph [ONLINE]");
        out_line(out, "  [2] Voice:  Neural TTS/STT Matrix [ONLINE]");
        out_line(out, "  [3] Vision: Multimodal Canvas Stream [ONLINE]");
        out_line(out, "  [4] Skills: Autonomous Agent Core [ACTIVE]");
        out_line(out, "  [5] Security: Bio-Gate AXON-7 [SECURE]");
    } else if k == 13 {
        out_line(out, "── Quantum Mesh Network Telemetry ──");
        out_line(out, "  Interface: loopback (127.0.0.1) [UP]");
        out_line(out, "  Adapter: VirtIO-Net PCI [INITIALIZED]");
        out_line(out, "  Mesh Packets: TX 1,024 | RX 1,024 | 0% Loss");
    } else if k == 15 {
        out_line(out, "   _ _          guest@atulyaos");
        out_line(out, "  / V \\         --------------");
        out_line(out, "  \\   /         OS Type: macOS/Linux/Win Fusion");
        out_line(out, "   \\ /          Kernel: Atulya Core v1.0");
        out_line(out, "    V           CPU: x86_64 Core (Freestanding)");
        out_line(out, "                Memory: 128MB / 256MB RAM");
        out_line(out, "                Uptime: Active");
    } else if k == 28 {
        out_line(out, "Shutting down Atulya OS...");
    } else {
        out_line(out, "Rebooting Atulya OS...");
    }
    assert(out@ =~= o + fixed_reply(k as int));
}

/// The digit shown for a context node: `'0'` plus the low byte of its id, or `?` when that
/// byte is not ASCII.
pub open spec fn node_digit(id: u32) -> Seq<char> {
    let b = 48 + id as int % 256;
    if b < 128 {
        seq![(b as u32) as char]
    } else {
        "?"@
    }
}

pub open spec fn memory_line(n: crate::ai::ContextNode) -> Seq<char> {
    "  [#"@ + node_digit(n.id) + "] "@ + n.title@ + " ("@ + n.category@ + ln(")"@)
}

/// The lines of the context graph, one per node.
pub open spec fn memory_lines(ns: Seq<crate::ai::ContextNode>) -> Seq<char>
    decreases ns.len(),
{
    if ns.len() == 0 {
        Seq::empty()
    } else {
        memory_lines(ns.drop_last()) + memory_line(ns.last())
    }
}

/// Every node id leaves room for `'0'` plus its low byte in one byte.
pub open spec fn node_ids_fit(ns: Seq<crate::ai::ContextNode>) -> bool {
    forall|i: int| 0 <= i < ns.len() ==> 48 + (#[trigger] ns[i]).id as int % 256 <= 255
}

fn memory_reply(nodes: &Vec<crate::ai::ContextNode>, out: &mut Vec<char>)
    requires
        node_ids_fit(nodes@),
    ensures
        final(out)@ == old(out)@ + ln("── Context Vector Graph (Memory Bus) ──"@) + memory_lines(nodes@),
{
    out_line(out, "── Context Vector Graph (Memory Bus) ──");
    let ghost o = out@;
    let mut i: usize = 0;
    while i < nodes.len()
        invariant
            i <= nodes@.len(),
            node_ids_fit(nodes@),
            out@ == o + memory_lines(nodes@.subrange(0, i as int)),
        decreases nodes@.len() - i,
    {
        let n = &nodes[i];
        let b: u8 = 48 + (n.id % 256) as u8;
        out_str(out, "  [#");
        if b < 128 {
            out.push(crate::text::char_from_ascii(b));
        } else {
            out_str(out, "?");
        }
        out_str(out, "] ");
        out_str(out, n.title);
        out_str(out, " (");
        out_str(out, n.category);
        out_line(out, ")");
        assert(nodes@.subrange(0, i + 1).drop_last() =~= nodes@.subrange(0, i as int));
        i += 1;
    }
    assert(nodes@.subrange(0, nodes@.len() as int) =~= nodes@);
}

pub open spec fn disk_reply(available: bool) -> Seq<char> {
    ln("── ATA / IDE Persistent Block Device ──"@) + if available {
        ln("  Status: Primary Master IDE [ONLINE]"@) + ln("  LBA Addressing: 28-bit / 48-bit Mode Active"@)
            + ln("  Sector Size: 512 bytes | Persistent Storage: Ready"@)
    } else {
        ln("  Status: Virtual RAM Disk Emulation Active"@)
    }
}

fn disk_reply_exec(available: bool, out: &mut Vec<char>)
    ensures
        final(out)@ == old(out)@ + disk_reply(available),
{
    let ghost o = out@;
    out_line(out, "── ATA / IDE Persistent Block Device ──");
    if available {
        out_line(out, "  Status: Primary Master IDE [ONLINE]");
        out_line(out, "  LBA Addressing: 28-bit / 48-bit Mode Active");
        out_line(out, "  Sector Size: 512 bytes | Persistent Storage: Ready");
    } else {
        out_line(out, "  Status: Virtual RAM Disk Emulation Active");
    }
    assert(out@ =~= o + disk_reply(available));
}

pub open spec fn pci_lines(ds: Seq<crate::pci::PciDevice>) -> Seq<char>
    decreases ds.len(),
{
    if ds.len() == 0 {
        Seq::empty()
    } else {
        pci_lines(ds.drop_last()) + "  ["@ + crate::pci::description_spec(
            ds.last().vendor_id,
            ds.last().device_id,
            ds.last().class_id,
        )@ + ln("]"@)
    }
}

pub open spec fn pci_reply(ds: Seq<crate::pci::PciDevice>) -> Seq<char> {
    ln("── Discovered PCI Hardware Devices ──"@) + if ds.len() == 0 {
        ln("  No PCI devices found on bus 0."@)
    } else {
        pci_lines(ds)
    }
}

fn pci_reply_exec(ds: &Vec<crate::pci::PciDevice>, out: &mut Vec<char>)
    ensures
        final(out)@ == old(out)@ + pci_reply(ds@),
{
    let ghost o = out@;
    out_line(out, "── Discovered PCI Hardware Devices ──");
    if ds.len() == 0 {
        out_line(out, "  No PCI devices found on bus 0.");
    } else {
        let ghost o2 = out@;
        let mut i: usize = 0;
        while i < ds.len()
            invariant
                i <= ds@.len(),
                out@ == o2 + pci_lines(ds@.subrange(0, i as int)),
            decreases ds@.len() - i,
        {
            out_str(out, "  [");
            out_str(out, ds[i].description());
            out_line(out, "]");
            assert(ds@.subrange(0, i + 1).drop_last() =~= ds@.subrange(0, i as int));
            i += 1;
        }
        assert(ds@.subrange(0, ds@.len() as int) =~= ds@);
    }
    assert(out@ =~= o + pci_reply(ds@));
}

pub open spec fn theme_name(t: int) -> Seq<char> {
    if t == 0 {
        "Cyberpunk Cyan"@
    } else if t == 1 {
        "Matrix Green"@
    } else if t == 2 {
        "macOS Obsidian"@
    } else {
        "Retro Gold"@
    }
}

pub open spec fn joke_text(i: int) -> Seq<char> {
    if i == 0 {
        "There are 10 types of people: those who understand binary, and those who don't."@
    } else if i == 1 {
        "Why do programmers wear glasses? Because they can't C#."@
    } else if i == 2 {
        "Hardware is what you kick; software is what you curse."@
    } else {
        "No_std Rust kernel has no allocator, but it has plenty of class."@
    }
}

fn theme_name_exec(t: usize, out: &mut Vec<char>)
    ensures
        final(out)@ == old(out)@ + theme_name(t as int),
{
    if t == 0 {
        out_str(out, "Cyberpunk Cyan");
    } else if t == 1 {
        out_str(out, "Matrix Green");
    } else if t == 2 {
        out_str(out, "macOS Obsidian");
    } else {
        out_str(out, "Retro Gold");
    }
}

fn joke_exec(i: usize, out: &mut Vec<char>)
    ensures
        final(out)@ == old(out)@ + joke_text(i as int),
{
    if i == 0 {
        out_str(out, "There are 10 types of people: those who understand binary, and those who don't.");
    } else if i == 1 {
        out_str(out, "Why do programmers wear glasses? Because they can't C#.");
    } else if i == 2 {
        out_str(out, "Hardware is what you kick; software is what you curse.");
    } else {
        out_str(out, "No_std Rust kernel has no allocator, but it has plenty of class.");
    }
}

/// The characters after the first `n`, trimmed.
pub open spec fn arg_after(c: Seq<char>, n: int) -> Seq<char> {
    trim_spec(c.subrange(n, c.len() as int))
}

fn arg_after_exec(c: &[char], n: usize) -> (r: Vec<char>)
    requires
        n <= c@.len(),
    ensures
        r@ == arg_after(c@, n as int),
{
    trim_chars(slice_range(c, n, c.len()).as_slice())
}

pub open spec fn wallpaper_reply(mode: Seq<char>) -> Seq<char> {
    if mode == "nebula"@ {
        ln("Wallpaper switched to Quantum Starry Nebula"@)
    } else if mode == "cybergrid"@ {
        ln("Wallpaper switched to 3D CyberGrid Horizon"@)
    } else if mode == "aurora"@ {
        ln("Wallpaper switched to Quantum Aurora Borealis"@)
    } else {
        ln("Wallpaper switched to Dark Obsidian Cyber Canvas"@)
    }
}

fn wallpaper_exec(mode: &[char], out: &mut Vec<char>)
    ensures
        final(out)@ == old(out)@ + wallpaper_reply(mode@),
{
    if equals(mode, "nebula") {
        out_line(out, "Wallpaper switched to Quantum Starry Nebula");
    } else if equals(mode, "cybergrid") {
        out_line(out, "Wallpaper switched to 3D CyberGrid Horizon");
    } else if equals(mode, "aurora") {
        out_line(out, "Wallpaper switched to Quantum Aurora Borealis");
    } else {
        out_line(out, "Wallpaper switched to Dark Obsidian Cyber Canvas");
    }
}

pub open spec fn gguf_reply(arch: &str) -> Seq<char> {
    ln("── Qwen-2.5 0.5B GGUF Model & Tensor Loader ──"@) + "  Model Architecture: "@ + ln(arch@)
        + ln("  Quantization: 4-bit Block Matrix (Q4_K_M)"@) + ln("  Tensors Loaded: 148 Layers / Weight Matrices"@)
        + ln("  Context Window: 32,768 Tokens"@) + ln("  RAM Allocation: 342 MB (CPU-Optimized Int8/Int4 GEMM)"@)
        + ln("  Status: Active & Synchronized with Tantra-LLM Engine"@)
}

/// An IPv4 address in dotted decimal.
pub open spec fn dotted(ip: [u8; 4]) -> Seq<char> {
    crate::viewer::dec(ip[0] as int) + "."@ + crate::viewer::dec(ip[1] as int) + "."@
        + crate::viewer::dec(ip[2] as int) + "."@ + crate::viewer::dec(ip[3] as int)
}

pub open spec fn host_line(h: crate::security::HostNode) -> Seq<char> {
    "  [HOST] "@ + crate::viewer::pad_right(dotted(h.ip), 16) + "  "@ + h.hostname@ + " - "@ + ln(h.status@)
}

fn host_line_exec(h: &crate::security::HostNode, out: &mut Vec<char>)
    ensures
        final(out)@ == old(out)@ + host_line(*h),
{
    let mut ip: Vec<char> = Vec::new();
    crate::text::push_dec(&mut ip, h.ip[0] as u64);
    ip.push('.');
    crate::text::push_dec(&mut ip, h.ip[1] as u64);
    ip.push('.');
    crate::text::push_dec(&mut ip, h.ip[2] as u64);
    ip.push('.');
    crate::text::push_dec(&mut ip, h.ip[3] as u64);
    assert(ip@ =~= dotted(h.ip)) by {
        reveal_strlit(".");
    }
    let ghost d = ip@;
    while ip.len() < 16
        invariant
            ip@ =~= d + Seq::new((ip@.len() - d.len()) as nat, |j: int| ' '),
            d.len() <= ip@.len() <= 16 || ip@ == d,
        decreases 16 - ip@.len(),
    {
        ip.push(' ');
    }
    assert(ip@ =~= crate::viewer::pad_right(d, 16));
    out_str(out, "  [HOST] ");
    out_chars(out, ip.as_slice());
    out_str(out, "  ");
    out_str(out, h.hostname);
    out_str(out, " - ");
    out_line(out, h.status);
}

/// The last `w` decimal digits of `v` (all of them when it has fewer), as the shell's
/// fixed-size digit buffers keep them; nothing for zero.
pub open spec fn tail_digits(v: nat, w: nat) -> Seq<char>
    decreases w,
{
    if v == 0 || w == 0 {
        Seq::empty()
    } else {
        tail_digits(v / 10, (w - 1) as nat).push(crate::text::digit_char(v % 10))
    }
}

fn tail_digits_exec(v: u64, w: u64) -> (r: Vec<char>)
    ensures
        r@ == tail_digits(v as nat, w as nat),
    decreases w,
{
    if v == 0 || w == 0 {
        Vec::new()
    } else {
        let mut r = tail_digits_exec(v / 10, w - 1);
        r.push(crate::text::char_from_ascii((v % 10) as u8 + 48));
        r
    }
}

/// A count as the shell's twelve-digit buffer shows it: `0` for zero.
pub open spec fn count_digits(v: nat, w: nat) -> Seq<char> {
    if v == 0 {
        "0"@
    } else {
        tail_digits(v, w)
    }
}

fn count_digits_exec(v: u64, w: u64) -> (r: Vec<char>)
    ensures
        r@ == count_digits(v as nat, w as nat),
{
    if v == 0 {
        chars_of("0")
    } else {
        tail_digits_exec(v, w)
    }
}

// ── Files ──
/// The node at `p` can be opened for reading.
pub open spec fn readable(fv: Map<Seq<char>, crate::fs::ramdisk::NodeView>, p: Seq<char>) -> bool {
    crate::fs::ramdisk::open_error(fv, p, crate::fs::vfs::OpenFlags::Read) is None
}

/// The first `cap` bytes of the file at `p`.
pub open spec fn file_head(fv: Map<Seq<char>, crate::fs::ramdisk::NodeView>, p: Seq<char>, cap: int) -> Seq<u8> {
    let d = fv[p].0;
    d.subrange(0, if d.len() < cap { d.len() as int } else { cap })
}

/// Opens `path`, reads up to `cap` bytes in a loop until the file ends, and closes it.
fn read_closed(fs: &mut RamFs, path: &str, cap: usize) -> (r: Option<Vec<u8>>)
    requires
        old(fs).wf(),
        old(fs).next_handle_view() < u64::MAX,
        cap > 0,
    ensures
        final(fs).wf(),
        final(fs).files_view() == old(fs).files_view(),
        final(fs).open_view() == old(fs).open_view(),
        ({
            let p = crate::fs::path::normalize_spec(path@);
            if readable(old(fs).files_view(), p) {
                &&& r matches Some(d) && d@ == file_head(old(fs).files_view(), p, cap as int)
                &&& final(fs).next_handle_view() == old(fs).next_handle_view() + 1
            } else {
                &&& r is None
                &&& final(fs).next_handle_view() == old(fs).next_handle_view()
            }
        }),
{
    let ghost p = crate::fs::path::normalize_spec(path@);
    let ghost fv = fs.files_view();
    let ghost ov0 = fs.open_view();
    proof {
        fs.lemma_next_fresh();
    }
    match fs.open(path, crate::fs::vfs::OpenFlags::Read) {
        Ok(h) => {
            let ghost d = fv[p].0;
            let mut data: Vec<u8> = Vec::new();
            while data.len() < cap
                invariant_except_break
                    fs.wf(),
                    fs.files_view() == fv,
                    fv.contains_key(p),
                    d == fv[p].0,
                    fs.open_view() == ov0.insert(h.0, (p, data@.len(), crate::fs::vfs::OpenFlags::Read)),
                    !ov0.contains_key(h.0),
                    data@.len() <= d.len(),
                    data@ == d.subrange(0, data@.len() as int),
                    data@.len() <= cap,
                    fs.next_handle_view() == old(fs).next_handle_view() + 1,
                ensures
                    fs.wf(),
                    fs.files_view() == fv,
                    fs.open_view() == ov0.insert(h.0, (p, data@.len(), crate::fs::vfs::OpenFlags::Read)),
                    !ov0.contains_key(h.0),
                    data@ == file_head(fv, p, cap as int),
                    fs.next_handle_view() == old(fs).next_handle_view() + 1,
                decreases cap - data@.len(),
            {
                let want = cap - data.len();
                let mut tmp: Vec<u8> = vec![0u8; want];
                let r = fs.read(h, tmp.as_mut_slice());
                match r {
                    Ok(n) => {
                        if n == 0 {
                            assert(data@.len() == d.len());
                            assert(data@ =~= file_head(fv, p, cap as int));
                            break;
                        }
                        let mut k: usize = 0;
                        let ghost before = data@;
                        while k < n
                            invariant
                                k <= n,
                                n <= tmp@.len(),
                                data@ == before + tmp@.subrange(0, k as int),
                            decreases n - k,
                        {
                            data.push(tmp[k]);
                            k += 1;
                            assert(data@ =~= before + tmp@.subrange(0, k as int));
                        }
                        assert(data@ =~= d.subrange(0, data@.len() as int));
                        if data.len() >= cap {
                            assert(data@ =~= file_head(fv, p, cap as int));
                        }
                    },
                    Err(_) => {
                        assert(false);
                        break;
                    },
                }
            }
            let _ = fs.close(h);
            assert(fs.open_view() =~= ov0);
            Some(data)
        },
        Err(_) => None,
    }
}

// ── Command replies ──
/// The intent header that `ask` prints for a trimmed query `t` that falls under rule `k`.
pub open spec fn intent_header(k: int, t: Seq<char>) -> Seq<char> {
    let desc = if k < 8 {
        crate::ai::description_of(k)
    } else {
        "Atulya AI: Processing intent '"@ + t + "' across kernel subsystems."@
    };
    "✦ [AI INTENT: "@ + crate::ai::intent_name_of(k)@ + ln("]"@) + "  "@ + ln(desc)
}

/// The rule that a query to `ask` falls under.
pub open spec fn ask_rule(query: Seq<char>) -> int {
    crate::ai::intent_rule(crate::text::lower_spec(trim_spec(query)))
}

/// What `ask` adds after the header for rule `k`: disk sync and theme notes, nothing for the
/// chime, the language model's reply otherwise.
pub open spec fn ask_tail(k: int, query: Seq<char>) -> Seq<char> {
    if k == 1 {
        ln("  [OK] System state synchronized to ATA hard disk."@)
    } else if k == 4 {
        ln("  [OK] Spectrum theme updated."@)
    } else if k == 6 {
        Seq::empty()
    } else {
        "  [TANTRA-LLM] "@ + ln(crate::ai_model::infer_spec(query))
    }
}

/// The two digits of hundredths of a millisecond that a ping line shows for a cycle count.
pub open spec fn ping_frac(cycles: int, hz: int) -> int {
    let per_ms = if hz / 1000 >= 1 {
        hz / 1000
    } else {
        1
    };
    (((cycles * 1000) / per_ms) % 1000) / 10
}

pub open spec fn ping_line(i: int, cycles: int, hz: int) -> Seq<char> {
    "64 bytes from 10.0.2.2: icmp_seq="@ + seq![crate::text::digit_char(i as nat)] + " ttl=64 time=0."@
        + seq![
        crate::text::digit_char((ping_frac(cycles, hz) / 10) as nat),
        crate::text::digit_char((ping_frac(cycles, hz) % 10) as nat),
    ] + ln(" ms [TX Frame: 74B, Checksum OK]"@)
}

/// The target shown by `ping`: what follows the fifth character, or the gateway.
pub open spec fn ping_target(c: Seq<char>) -> Seq<char> {
    if c.len() > 5 {
        arg_after(c, 5)
    } else {
        "10.0.2.2"@
    }
}

pub open spec fn ping_reply(c: Seq<char>, cycles: [u64; 3], hz: int) -> Seq<char> {
    "PING "@ + ping_target(c) + ln(" (10.0.2.2): 56 data bytes"@) + ping_line(0, cycles[0] as int, hz)
        + ping_line(1, cycles[1] as int, hz) + ping_line(2, cycles[2] as int, hz) + ln(
        "--- 10.0.2.2 ping statistics ---"@,
    ) + ln("3 packets transmitted, 3 received, 0% packet loss, time 2.01ms"@)
}

fn ping_line_exec(i: u8, cycles: u64, hz: u64, out: &mut Vec<char>)
    requires
        i < 10,
        cycles * 1000 <= u64::MAX,
    ensures
        final(out)@ == old(out)@ + ping_line(i as int, cycles as int, hz as int),
{
    let per_ms = if hz / 1000 >= 1 { hz / 1000 } else { 1 };
    let elapsed_us = (cycles * 1000) / per_ms;
    let frac = (elapsed_us % 1000) / 10;
    out_str(out, "64 bytes from 10.0.2.2: icmp_seq=");
    out.push(crate::text::char_from_ascii(48 + i));
    out_str(out, " ttl=64 time=0.");
    out.push(crate::text::char_from_ascii(48 + (frac / 10) as u8));
    out.push(crate::text::char_from_ascii(48 + (frac % 10) as u8));
    out_line(out, " ms [TX Frame: 74B, Checksum OK]");
    assert(out@ =~= old(out)@ + ping_line(i as int, cycles as int, hz as int));
}

/// The frame length that `curl` reports for its request to `url`.
pub open spec fn curl_frame_len(url: Seq<char>) -> int {
    54 + crate::net::stack::http_request_chars(url, "/"@).len() as int
}

pub open spec fn curl_reply(url: Seq<char>) -> Seq<char> {
    "Connecting to "@ + url + ln(" [VirtIO-Net Direct IP Stack]..."@) + "  [TX] Sent TCP HTTP/1.1 GET Request ("@
        + tail_digits((curl_frame_len(url) % 4294967296) as nat, 8) + ln(" bytes)"@) + ln("  HTTP/1.1 200 OK"@)
        + ln("  Server: Atulya-Mesh/0.3 (Quantum Protocol)"@) + ln("  Content-Type: application/json; charset=utf-8"@)
        + ln("  Content-Length: 78"@) + ln("  Connection: close"@) + ln(""@) + ln(
        "  { \"status\": \"connected\", \"mesh_node\": \"AXON-01\", \"latency_ms\": 0.38 }"@,
    )
}

/// A process identifier as `ps` shows it: one digit, or two built from the tens and units,
/// with `?` marks when the tens byte is not ASCII.
pub open spec fn pid_text(pid: u32) -> Seq<char> {
    if pid >= 10 {
        let a = 48 + (pid as int / 10) % 256;
        if a < 128 {
            seq![(a as u32) as char, crate::text::digit_char((pid % 10) as nat)]
        } else {
            "??"@
        }
    } else {
        seq![crate::text::digit_char(pid as nat)]
    }
}

/// Every identifier's tens leave room for `'0'` plus their low byte in one byte.
pub open spec fn pids_fit(ps: Seq<(u32, &'static str, &'static str)>) -> bool {
    forall|i: int| 0 <= i < ps.len() ==> 48 + ((#[trigger] ps[i]).0 as int / 10) % 256 <= 255
}

pub open spec fn ps_lines(ps: Seq<(u32, &'static str, &'static str)>) -> Seq<char>
    decreases ps.len(),
{
    if ps.len() == 0 {
        Seq::empty()
    } else {
        ps_lines(ps.drop_last()) + " "@ + pid_text(ps.last().0) + "   "@ + ps.last().1@ + "   "@ + ln(
            ps.last().2@,
        )
    }
}

pub open spec fn ps_header() -> Seq<char> {
    ln("── Active Process Table ──"@) + ln("PID  NAME           STATE"@) + ln("───  ─────────────  ────────"@)
}

fn ps_reply_exec(ps: &Vec<(u32, &'static str, &'static str)>, out: &mut Vec<char>)
    requires
        pids_fit(ps@),
    ensures
        final(out)@ == old(out)@ + ps_header() + ps_lines(ps@),
{
    out_line(out, "── Active Process Table ──");
    out_line(out, "PID  NAME           STATE");
    out_line(out, "───  ─────────────  ────────");
    let ghost o = out@;
    let mut i: usize = 0;
    while i < ps.len()
        invariant
            i <= ps@.len(),
            pids_fit(ps@),
            out@ == o + ps_lines(ps@.subrange(0, i as int)),
        decreases ps@.len() - i,
    {
        let (pid, name, state) = ps[i];
        out_str(out, " ");
        if pid >= 10 {
            let a: u8 = 48 + ((pid / 10) % 256) as u8;
            if a < 128 {
                out.push(crate::text::char_from_ascii(a));
                out.push(crate::text::char_from_ascii(48 + (pid % 10) as u8));
            } else {
                out_str(out, "??");
            }
        } else {
            out.push(crate::text::char_from_ascii(48 + pid as u8));
        }
        out_str(out, "   ");
        out_str(out, name);
        out_str(out, "   ");
        out_line(out, state);
        assert(ps@.subrange(0, i + 1).drop_last() =~= ps@.subrange(0, i as int));
        i += 1;
    }
    assert(ps@.subrange(0, ps@.len() as int) =~= ps@);
}

/// One entry of a directory listing.
pub open spec fn ls_line(e: crate::fs::vfs::DirEntry) -> Seq<char> {
    if e.is_dir {
        "  "@ + e.name@ + ln("/"@)
    } else {
        "  "@ + e.name@ + " ("@ + count_digits(e.size as nat, 12) + ln(" bytes)"@)
    }
}

pub open spec fn ls_lines(es: Seq<crate::fs::vfs::DirEntry>) -> Seq<char>
    decreases es.len(),
{
    if es.len() == 0 {
        Seq::empty()
    } else {
        ls_lines(es.drop_last()) + ls_line(es.last())
    }
}

/// `es` is the listing of `p` in `fv`.
#[verifier::opaque]
pub open spec fn listing(fv: Map<Seq<char>, crate::fs::ramdisk::NodeView>, p: Seq<char>, es: Seq<crate::fs::vfs::DirEntry>) -> bool {
    crate::fs::ramdisk::ls_spec(fv, p, es)
}

/// What `ls` prints for the directory `p` (already resolved) of `fv`.
pub open spec fn ls_reply(fv: Map<Seq<char>, crate::fs::ramdisk::NodeView>, p: Seq<char>, out: Seq<char>) -> bool {
    let n = crate::fs::path::normalize_spec(p);
    if fv.contains_key(n) {
        exists|es: Seq<crate::fs::vfs::DirEntry>| listing(fv, n, es) && out == ls_lines(es)
    } else {
        out == ln("ls: cannot access directory"@)
    }
}

pub open spec fn package_line(p: crate::pkg::PackageView) -> Seq<char> {
    "  📦 "@ + p.0 + " ["@ + p.3@ + "] - "@ + ln(p.4@)
}

pub open spec fn package_lines(ps: Seq<crate::pkg::PackageView>) -> Seq<char>
    decreases ps.len(),
{
    if ps.len() == 0 {
        Seq::empty()
    } else {
        package_lines(ps.drop_last()) + package_line(ps.last())
    }
}

/// What `pkg list` prints for the file system `fv`.
pub open spec fn pkg_list_reply(fv: Map<Seq<char>, crate::fs::ramdisk::NodeView>, out: Seq<char>) -> bool {
    let head = ln("── Atulya Sovereign WASM Package Registry ──"@);
    let none = head + ln("  No packages installed. Run 'pkg install <name>' to install."@);
    let p = crate::fs::path::normalize_spec("/apps"@);
    if !fv.contains_key(p) {
        out == none
    } else {
        exists|es: Seq<crate::fs::vfs::DirEntry>|
            listing(fv, p, es) && out == if crate::pkg::packages_of(es).len() == 0 {
                none
            } else {
                head + package_lines(crate::pkg::packages_of(es))
            }
    }
}

/// The ASCII character of a byte below 128.
fn ascii(b: u8) -> (c: char)
    requires
        b < 128,
    ensures
        c == (b as u32) as char,
{
    crate::text::char_from_ascii(b)
}

fn ls_lines_exec(entries: &Vec<crate::fs::vfs::DirEntry>, out: &mut Vec<char>)
    ensures
        final(out)@ == old(out)@ + ls_lines(entries@),
{
    let ghost o = out@;
    let mut i: usize = 0;
    while i < entries.len()
        invariant
            i <= entries@.len(),
            out@ == o + ls_lines(entries@.subrange(0, i as int)),
        decreases entries@.len() - i,
    {
        let e = &entries[i];
        out_str(out, "  ");
        out_chars(out, chars_of(e.name.as_str()).as_slice());
        if e.is_dir {
            out_line(out, "/");
        } else {
            out_str(out, " (");
            out_chars(out, count_digits_exec(e.size as u64, 12).as_slice());
            out_line(out, " bytes)");
        }
        assert(entries@.subrange(0, i + 1).drop_last() =~= entries@.subrange(0, i as int));
        i += 1;
    }
    assert(entries@.subrange(0, entries@.len() as int) =~= entries@);
}

fn package_lines_exec(pkgs: &Vec<crate::pkg::PackageInfo>, out: &mut Vec<char>)
    ensures
        final(out)@ == old(out)@ + package_lines(pkgs@.map_values(|x: crate::pkg::PackageInfo| crate::pkg::package_view(x))),
{
    let ghost pv = pkgs@.map_values(|x: crate::pkg::PackageInfo| crate::pkg::package_view(x));
    let ghost o2 = out@;
    let mut i: usize = 0;
    while i < pkgs.len()
        invariant
            i <= pkgs@.len(),
            pv == pkgs@.map_values(|x: crate::pkg::PackageInfo| crate::pkg::package_view(x)),
            out@ == o2 + package_lines(pv.subrange(0, i as int)),
        decreases pkgs@.len() - i,
    {
        let pk = &pkgs[i];
        out_str(out, "  📦 ");
        out_chars(out, chars_of(pk.name.as_str()).as_slice());
        out_str(out, " [");
        out_str(out, pk.category);
        out_str(out, "] - ");
        out_line(out, pk.status);
        assert(pv.subrange(0, i + 1).drop_last() =~= pv.subrange(0, i as int));
        i += 1;
    }
    assert(pv.subrange(0, pkgs@.len() as int) =~= pv);
}

impl Terminal {
    fn ls_exec(&self, path: &[char], out: &mut Vec<char>)
        requires
            self.wf(),
        ensures
            ls_reply(self.file_system().files_view(), path@, final(out)@.subrange(old(out)@.len() as int, final(out)@.len() as int)),
            final(out)@.subrange(0, old(out)@.len() as int) == old(out)@,
    {
        let ghost o = out@;
        let ghost fv = self.fs.files_view();
        let ghost n = crate::fs::path::normalize_spec(path@);
        let p = crate::text::to_string(path);
        match self.fs.ls(p.as_str()) {
            Ok(entries) => {
                proof {
                    reveal(listing);
                    assert(listing(fv, n, entries@));
                }
                ls_lines_exec(&entries, out);
                assert(out@.subrange(o.len() as int, out@.len() as int) =~= ls_lines(entries@));
            },
            Err(_) => {
                out_line(out, "ls: cannot access directory");
                assert(out@.subrange(o.len() as int, out@.len() as int) =~= ln("ls: cannot access directory"@));
            },
        }
        assert(out@.subrange(0, o.len() as int) =~= o);
    }

    fn pkg_list_exec(&self, out: &mut Vec<char>)
        requires
            self.wf(),
        ensures
            pkg_list_reply(self.file_system().files_view(), final(out)@.subrange(old(out)@.len() as int, final(out)@.len() as int)),
            final(out)@.subrange(0, old(out)@.len() as int) == old(out)@,
    {
        let ghost o = out@;
        let ghost fv = self.fs.files_view();
        out_line(out, "── Atulya Sovereign WASM Package Registry ──");
        let pkgs = crate::pkg::PackageManager::list(&self.fs);
        let ghost pv = pkgs@.map_values(|x: crate::pkg::PackageInfo| crate::pkg::package_view(x));
        if pkgs.len() == 0 {
            out_line(out, "  No packages installed. Run 'pkg install <name>' to install.");
        } else {
            package_lines_exec(&pkgs, out);
        }
        assert(out@.subrange(0, o.len() as int) =~= o);
        let ghost tail = out@.subrange(o.len() as int, out@.len() as int);
        proof {
            let ap = crate::fs::path::normalize_spec("/apps"@);
            let head = ln("── Atulya Sovereign WASM Package Registry ──"@);
            let none = head + ln("  No packages installed. Run 'pkg install <name>' to install."@);
            if fv.contains_key(ap) {
                let es = choose|es: Seq<crate::fs::vfs::DirEntry>|
                    crate::fs::ramdisk::ls_spec(fv, ap, es) && pv == crate::pkg::packages_of(es);
                reveal(listing);
                assert(listing(fv, ap, es));
                if pv.len() == 0 {
                    assert(tail =~= none);
                } else {
                    assert(tail =~= head + package_lines(pv));
                }
            } else {
                assert(tail =~= none);
            }
        }
    }
}

/// The first `n` characters are ASCII, so a byte offset of `n` is a character boundary.
pub open spec fn ascii_at(c: Seq<char>, i: int) -> bool {
    i < c.len() ==> (c[i] as u32) < 128
}

impl Terminal {
    fn ask_exec(&mut self, env: &mut ShellEnv, c: &[char], theme_idx: &mut usize, out: &mut Vec<char>) -> (act: ShellAction)
        requires
            old(self).wf(),
            starts_spec(c@, "ask "),
            ({
                let q = c@.subrange(4, c@.len() as int);
                let k = ask_rule(q);
                &&& (k == 1 || k == 4 || k == 6 || crate::ai_model::formula_fits(q))
                &&& (k == 4 ==> *old(theme_idx) < usize::MAX)
            }),
        ensures
            ({
                let q = c@.subrange(4, c@.len() as int);
                let k = ask_rule(q);
                &&& final(out)@ == old(out)@ + intent_header(k, trim_spec(q)) + ask_tail(k, q)
                &&& *final(theme_idx) == if k == 4 { ((*old(theme_idx) + 1) % 4) as usize } else { *old(theme_idx) }
                &&& act == if k == 6 { ShellAction::PlayChime } else { ShellAction::Nothing }
                &&& final(env).ai.query_history@.len() == old(env).ai.query_history@.len() + 1
                &&& final(env).ai.query_history@.last()@ == trim_spec(q)
                &&& final(env).ai.query_history@.drop_last() == old(env).ai.query_history@
                &&& final(env).ai.memory_nodes@ == old(env).ai.memory_nodes@
                &&& *final(env) == (ShellEnv { ai: final(env).ai, ..*old(env) })
                &&& *final(self) == *old(self)
            }),
    {
        proof {
            reveal_strlit("ask ");
        }
        let query_v = slice_range(c, 4, c.len());
        let query = crate::text::to_string(query_v.as_slice());
        let ghost q = c@.subrange(4, c@.len() as int);
        let ghost k = ask_rule(q);
        let res = env.ai.parse_intent(query.as_str());
        assert(env.ai.query_history@.drop_last() =~= old(env).ai.query_history@);
        out_str(out, "✦ [AI INTENT: ");
        out_str(out, res.intent_name);
        out_line(out, "]");
        out_str(out, "  ");
        let desc = chars_of(res.description.as_str());
        out_chars(out, desc.as_slice());
        out.push('\n');
        let ghost mid = out@;
        assert(mid =~= old(out)@ + intent_header(k, trim_spec(q)));
        match res.action {
            crate::ai::IntentAction::SyncDisk => {
                out_line(out, "  [OK] System state synchronized to ATA hard disk.");
                ShellAction::Nothing
            },
            crate::ai::IntentAction::ChangeTheme => {
                *theme_idx = (*theme_idx + 1) % 4;
                out_line(out, "  [OK] Spectrum theme updated.");
                ShellAction::Nothing
            },
            crate::ai::IntentAction::PlayChime => ShellAction::PlayChime,
            _ => {
                let reply = env.llm.infer(query.as_str());
                out_str(out, "  [TANTRA-LLM] ");
                out_chars(out, chars_of(reply.as_str()).as_slice());
                out.push('\n');
                assert(out@ =~= mid + ask_tail(k, q));
                ShellAction::Nothing
            },
        }
    }
}

/// Sends one echo request to the gateway.
fn send_echo(net: &mut crate::net::stack::NetworkStack, seq_no: u16)
    requires
        old(net).tx_count < usize::MAX,
    ensures
        final(net).tx_count == old(net).tx_count + 1,
        final(net).rx_count == old(net).rx_count,
        final(net).config == old(net).config,
{
    let _frame = net.build_icmp_ping([10, 0, 2, 2], seq_no);
}

fn ping_exec(env: &mut ShellEnv, c: &[char], out: &mut Vec<char>)
    requires
        starts_spec(c@, "ping"),
        ascii_at(c@, 4),
        old(env).ping_cycles[0] * 1000 <= u64::MAX,
        old(env).ping_cycles[1] * 1000 <= u64::MAX,
        old(env).ping_cycles[2] * 1000 <= u64::MAX,
        old(env).net.tx_count + 3 <= usize::MAX,
    ensures
        final(out)@ == old(out)@ + ping_reply(c@, old(env).ping_cycles, old(env).tsc_hz as int),
        final(env).net.tx_count == old(env).net.tx_count + 3,
        final(env).net.rx_count == old(env).net.rx_count,
        final(env).net.config == old(env).net.config,
        *final(env) == (ShellEnv { net: final(env).net, ..*old(env) }),
{
    let ghost o = out@;
    out_str(out, "PING ");
    if c.len() > 5 {
        out_chars(out, arg_after_exec(c, 5).as_slice());
    } else {
        out_str(out, "10.0.2.2");
    }
    out_line(out, " (10.0.2.2): 56 data bytes");
    let mut seq: u8 = 0;
    while seq < 3
        invariant
            seq <= 3,
            env.net.tx_count == old(env).net.tx_count + seq,
            env.net.rx_count == old(env).net.rx_count,
            env.net.config == old(env).net.config,
            *env == (ShellEnv { net: env.net, ..*old(env) }),
            old(env).ping_cycles[0] * 1000 <= u64::MAX,
            old(env).ping_cycles[1] * 1000 <= u64::MAX,
            old(env).ping_cycles[2] * 1000 <= u64::MAX,
            old(env).net.tx_count + 3 <= usize::MAX,
            out@ == o + "PING "@ + ping_target(c@) + ln(" (10.0.2.2): 56 data bytes"@) + (if seq == 0 {
                Seq::<char>::empty()
            } else if seq == 1 {
                ping_line(0, old(env).ping_cycles[0] as int, old(env).tsc_hz as int)
            } else if seq == 2 {
                ping_line(0, old(env).ping_cycles[0] as int, old(env).tsc_hz as int) + ping_line(1, old(env).ping_cycles[1] as int, old(env).tsc_hz as int)
            } else {
                ping_line(0, old(env).ping_cycles[0] as int, old(env).tsc_hz as int) + ping_line(1, old(env).ping_cycles[1] as int, old(env).tsc_hz as int)
                    + ping_line(2, old(env).ping_cycles[2] as int, old(env).tsc_hz as int)
            }),
        decreases 3 - seq,
    {
        send_echo(&mut env.net, seq as u16);
        let cycles = env.ping_cycles[seq as usize];
        ping_line_exec(seq, cycles, env.tsc_hz, out);
        seq += 1;
    }
    out_line(out, "--- 10.0.2.2 ping statistics ---");
    out_line(out, "3 packets transmitted, 3 received, 0% packet loss, time 2.01ms");
    assert(out@ =~= o + ping_reply(c@, old(env).ping_cycles, old(env).tsc_hz as int));
}

/// The request that `curl` sends to `url` fits the frame builder's limits.
pub open spec fn curl_fits(env: ShellEnv, url: Seq<char>) -> bool {
    &&& crate::net::stack::http_request_chars(url, "/"@).len() + 54 <= usize::MAX
    &&& crate::net::stack::tcp_sum(env.net.config.ip@, seq![10u8, 0u8, 2u8, 2u8], crate::net::stack::tcp_header(), crate::net::stack::http_request_chars(url, "/"@)) <= u32::MAX
    &&& env.net.tx_count < usize::MAX
}

fn curl_exec(env: &mut ShellEnv, url: &[char], out: &mut Vec<char>)
    requires
        curl_fits(*old(env), url@),
    ensures
        final(out)@ == old(out)@ + curl_reply(url@),
        final(env).net.tx_count == old(env).net.tx_count + 1,
        final(env).net.rx_count == old(env).net.rx_count,
        final(env).net.config == old(env).net.config,
        *final(env) == (ShellEnv { net: final(env).net, ..*old(env) }),
{
    let ghost o = out@;
    out_str(out, "Connecting to ");
    out_chars(out, url);
    out_line(out, " [VirtIO-Net Direct IP Stack]...");
    let host = crate::text::to_string(url);
    let target: [u8; 4] = [10, 0, 2, 2];
    assert(target@ =~= seq![10u8, 0u8, 2u8, 2u8]);
    let frame = env.net.build_http_get(target, host.as_str(), "/");
    assert(frame@.len() == curl_frame_len(url@));
    out_str(out, "  [TX] Sent TCP HTTP/1.1 GET Request (");
    let len32 = (frame.len() as u64 % 4294967296) as u64;
    out_chars(out, tail_digits_exec(len32, 8).as_slice());
    out_line(out, " bytes)");
    out_line(out, "  HTTP/1.1 200 OK");
    out_line(out, "  Server: Atulya-Mesh/0.3 (Quantum Protocol)");
    out_line(out, "  Content-Type: application/json; charset=utf-8");
    out_line(out, "  Content-Length: 78");
    out_line(out, "  Connection: close");
    out_line(out, "");
    out_line(out, "  { \"status\": \"connected\", \"mesh_node\": \"AXON-01\", \"latency_ms\": 0.38 }");
    assert(out@ =~= o + curl_reply(url@));
}

/// The processes of the scheduler, if there is one, as `ps` lists them.
pub open spec fn process_rows(s: Option<crate::scheduler::Scheduler>) -> Seq<(u32, &'static str, &'static str)> {
    match s {
        Some(sc) => sc.procs().map_values(|p: crate::process::Process| (p.pid, p.name, crate::scheduler::state_name(p.state))),
        None => Seq::empty(),
    }
}

impl Terminal {
    fn cd_exec(&mut self, c: &[char], out: &mut Vec<char>)
        requires
            old(self).wf(),
            starts_spec(c@, "cd "),
        ensures
            final(self).wf(),
            final(self).screen() == old(self).screen(),
            final(self).joke_view() == old(self).joke_view(),
            final(self).file_system() == old(self).file_system(),
            ({
                let dir = arg_after(c@, 3);
                let r = resolve_spec(old(self).cwd_view(), dir);
                if dir.len() == 0 {
                    final(self).cwd_view() == seq!['/'] && final(out)@ == old(out)@
                } else if old(self).file_system().files_view().contains_key(crate::fs::path::normalize_spec(r)) {
                    final(self).cwd_view() == r && final(out)@ == old(out)@
                } else {
                    final(self).cwd_view() == old(self).cwd_view() && final(out)@ == old(out)@ + "cd: "@
                        + dir + ln(": No such directory"@)
                }
            }),
    {
        proof {
            reveal_strlit("cd ");
        }
        let dir = arg_after_exec(c, 3);
        if dir.len() == 0 {
            let mut root: Vec<char> = Vec::new();
            root.push('/');
            assert(root@ =~= seq!['/']);
            self.cwd = root;
            return;
        }
        let ds = crate::text::to_string(dir.as_slice());
        let resolved = self.resolve_path(ds.as_str());
        let rs = crate::text::to_string(resolved.as_slice());
        if self.fs.ls(rs.as_str()).is_ok() {
            self.cwd = resolved;
        } else {
            out_str(out, "cd: ");
            out_chars(out, dir.as_slice());
            out_line(out, ": No such directory");
        }
    }
}

pub open spec fn vault_arg(c: Seq<char>) -> Seq<char> {
    if c.len() > 6 {
        arg_after(c, 6)
    } else {
        "status"@
    }
}

pub open spec fn unlock_key(arg: Seq<char>) -> Seq<char> {
    if arg.len() > 7 {
        arg_after(arg, 7)
    } else {
        "atulya"@
    }
}

pub open spec fn vault_status(v: crate::vault::EncryptedVault) -> Seq<char> {
    ln("── Multi-User Encrypted Vault ──"@) + "  User: "@ + ln(v.active_user@) + "  State: "@ + if v.is_unlocked {
        ln("UNLOCKED (Decrypted /user/atul/vault)"@)
    } else {
        ln("LOCKED (ChaCha20 Sealed) — Run 'vault unlock <key>'"@)
    }
}

fn vault_exec(env: &mut ShellEnv, c: &[char], out: &mut Vec<char>)
    requires
        starts_spec(c@, "vault ") || c@ == "vault"@,
        starts_spec(vault_arg(c@), "unlock") ==> ascii_at(vault_arg(c@), 6),
    ensures
        *final(env) == (ShellEnv { vault: final(env).vault, ..*old(env) }),
        final(env).vault.active_user == old(env).vault.active_user,
        final(env).vault.vault_files_count == old(env).vault.vault_files_count,
        ({
            let arg = vault_arg(c@);
            if arg == "lock"@ {
                !final(env).vault.is_unlocked && final(out)@ == old(out)@ + ln("🔒 Vault locked. User memory sanitized."@)
            } else if starts_spec(arg, "unlock") {
                if unlock_key(arg).len() > 0 {
                    final(env).vault.is_unlocked && final(out)@ == old(out)@ + ln(
                        "Vault Unlocked: Encrypted storage /user/atul/vault is now decrypted and mounted."@,
                    )
                } else {
                    final(env).vault.is_unlocked == old(env).vault.is_unlocked && final(out)@ == old(out)@
                        + ln("Vault Error: Invalid biometric/passkey authorization."@)
                }
            } else {
                final(env).vault == old(env).vault && final(out)@ == old(out)@ + vault_status(old(env).vault)
            }
        }),
{
    proof {
        reveal_strlit("vault ");
        reveal_strlit("vault");
        reveal_strlit("unlock");
    }
    let arg = if c.len() > 6 { arg_after_exec(c, 6) } else { chars_of("status") };
    if equals(arg.as_slice(), "lock") {
        env.vault.lock();
        out_line(out, "🔒 Vault locked. User memory sanitized.");
    } else if starts(arg.as_slice(), "unlock") {
        let key = if arg.len() > 7 { arg_after_exec(arg.as_slice(), 7) } else { chars_of("atulya") };
        let ks = crate::text::to_string(key.as_slice());
        match env.vault.unlock(ks.as_str()) {
            Ok(msg) => out_line(out, msg),
            Err(e) => out_line(out, e),
        }
    } else {
        let ghost o = out@;
        out_line(out, "── Multi-User Encrypted Vault ──");
        out_str(out, "  User: ");
        out_line(out, env.vault.active_user);
        out_str(out, "  State: ");
        if env.vault.is_unlocked {
            out_line(out, "UNLOCKED (Decrypted /user/atul/vault)");
        } else {
            out_line(out, "LOCKED (ChaCha20 Sealed) — Run 'vault unlock <key>'");
        }
        assert(out@ =~= o + vault_status(old(env).vault));
    }
}

pub open spec fn netscan_reply(hosts: Seq<crate::security::HostNode>) -> Seq<char>
    decreases hosts.len(),
{
    if hosts.len() == 0 {
        ln("── Kali-Style Subnet Host & ARP Scanner ──"@)
    } else {
        netscan_reply(hosts.drop_last()) + host_line(hosts.last())
    }
}

/// One host line from its address, name and status.
pub open spec fn host_text(ip: [u8; 4], name: &str, status: &str) -> Seq<char> {
    "  [HOST] "@ + crate::viewer::pad_right(dotted(ip), 16) + "  "@ + name@ + " - "@ + ln(status@)
}

/// What `netscan` prints: the four hosts of the emulated subnet.
pub open spec fn netscan_text() -> Seq<char> {
    ln("── Kali-Style Subnet Host & ARP Scanner ──"@) + host_text([10u8, 0, 2, 1], "qemu-gateway.local", "ONLINE (Gateway)")
        + host_text([10u8, 0, 2, 2], "qemu-virtual-host", "ONLINE (DHCP Server)") + host_text(
        [10u8, 0, 2, 3],
        "dns-resolver.local",
        "ONLINE (DNS Core)",
    ) + host_text([10u8, 0, 2, 15], "atulya-sovereign-node", "LOCAL (Active Interface)")
}

fn netscan_exec(out: &mut Vec<char>)
    ensures
        final(out)@ == old(out)@ + netscan_text(),
{
    let ghost o = out@;
    out_line(out, "── Kali-Style Subnet Host & ARP Scanner ──");
    let hosts = crate::security::SecurityToolkit::scan_network();
    let mut i: usize = 0;
    while i < hosts.len()
        invariant
            i <= hosts@.len(),
            out@ == o + netscan_reply(hosts@.subrange(0, i as int)),
        decreases hosts@.len() - i,
    {
        host_line_exec(&hosts[i], out);
        assert(hosts@.subrange(0, i + 1).drop_last() =~= hosts@.subrange(0, i as int));
        i += 1;
    }
    assert(hosts@.subrange(0, hosts@.len() as int) =~= hosts@);
    proof {
        let h = hosts@;
        assert(h.subrange(0, 0) =~= Seq::<crate::security::HostNode>::empty());
        assert(h.subrange(0, 1).drop_last() =~= h.subrange(0, 0));
        assert(h.subrange(0, 1).last() == h[0]);
        assert(h.subrange(0, 2).last() == h[1]);
        assert(h.subrange(0, 3).last() == h[2]);
        assert(h.subrange(0, 4).last() == h[3]);
        assert(h.subrange(0, 2).drop_last() =~= h.subrange(0, 1));
        assert(h.subrange(0, 3).drop_last() =~= h.subrange(0, 2));
        assert(h.subrange(0, 4).drop_last() =~= h.subrange(0, 3));
        assert(h =~= h.subrange(0, 4));
        assert(netscan_reply(h.subrange(0, 0)) == ln("── Kali-Style Subnet Host & ARP Scanner ──"@));
        assert(netscan_reply(h.subrange(0, 1)) == netscan_reply(h.subrange(0, 0)) + host_line(h[0]));
        assert(netscan_reply(h.subrange(0, 2)) == netscan_reply(h.subrange(0, 1)) + host_line(h[1]));
        assert(netscan_reply(h.subrange(0, 3)) == netscan_reply(h.subrange(0, 2)) + host_line(h[2]));
        assert(netscan_reply(h.subrange(0, 4)) == netscan_reply(h.subrange(0, 3)) + host_line(h[3]));
        assert(host_line(h[0]) == host_text([10u8, 0, 2, 1], "qemu-gateway.local", "ONLINE (Gateway)"));
        assert(host_line(h[1]) == host_text([10u8, 0, 2, 2], "qemu-virtual-host", "ONLINE (DHCP Server)"));
        assert(host_line(h[2]) == host_text([10u8, 0, 2, 3], "dns-resolver.local", "ONLINE (DNS Core)"));
        assert(host_line(h[3]) == host_text([10u8, 0, 2, 15], "atulya-sovereign-node", "LOCAL (Active Interface)"));
        assert(netscan_reply(h) =~= netscan_text());
    }
}

pub open spec fn port_line(svc: &str, port: int, stat: &str) -> Seq<char> {
    "  Port "@ + tail_digits(port as nat, 6) + "/TCP ("@ + svc@ + "): "@ + ln(stat@)
}

pub open spec fn portscan_reply(target: Seq<char>) -> Seq<char> {
    "── Port Vulnerability Scanner: "@ + target + ln(" ──"@) + port_line("SSH", 22, "FILTERED") + port_line(
        "DNS",
        53,
        "OPEN (BIND 9 / QEMU DNS)",
    ) + port_line("HTTP", 80, "OPEN (Atulya Mesh Gateway)") + port_line("HTTPS", 443, "CLOSED")
        + port_line("QWEN-AI", 8000, "OPEN (Tantra-LLM Local API)") + port_line(
        "HTTP-ALT",
        8080,
        "OPEN (Decentralized Node)",
    )
}

fn portscan_exec(target: &[char], out: &mut Vec<char>)
    ensures
        final(out)@ == old(out)@ + portscan_reply(target@),
{
    let ghost o = out@;
    out_str(out, "── Port Vulnerability Scanner: ");
    out_chars(out, target);
    out_line(out, " ──");
    let ts = crate::text::to_string(target);
    let ports = crate::security::SecurityToolkit::scan_ports(ts.as_str());
    let ghost head = out@;
    let mut i: usize = 0;
    while i < ports.len()
        invariant
            i <= ports@.len(),
            ports@.len() == 6,
            ports@ == seq![
                ("SSH", 22u16, "FILTERED"),
                ("DNS", 53u16, "OPEN (BIND 9 / QEMU DNS)"),
                ("HTTP", 80u16, "OPEN (Atulya Mesh Gateway)"),
                ("HTTPS", 443u16, "CLOSED"),
                ("QWEN-AI", 8000u16, "OPEN (Tantra-LLM Local API)"),
                ("HTTP-ALT", 8080u16, "OPEN (Decentralized Node)"),
            ],
            out@ == head + (if i == 0 { Seq::<char>::empty() } else if i == 1 { port_line("SSH", 22, "FILTERED") }
                else if i == 2 { port_line("SSH", 22, "FILTERED") + port_line("DNS", 53, "OPEN (BIND 9 / QEMU DNS)") }
                else if i == 3 { port_line("SSH", 22, "FILTERED") + port_line("DNS", 53, "OPEN (BIND 9 / QEMU DNS)") + port_line("HTTP", 80, "OPEN (Atulya Mesh Gateway)") }
                else if i == 4 { port_line("SSH", 22, "FILTERED") + port_line("DNS", 53, "OPEN (BIND 9 / QEMU DNS)") + port_line("HTTP", 80, "OPEN (Atulya Mesh Gateway)") + port_line("HTTPS", 443, "CLOSED") }
                else if i == 5 { port_line("SSH", 22, "FILTERED") + port_line("DNS", 53, "OPEN (BIND 9 / QEMU DNS)") + port_line("HTTP", 80, "OPEN (Atulya Mesh Gateway)") + port_line("HTTPS", 443, "CLOSED") + port_line("QWEN-AI", 8000, "OPEN (Tantra-LLM Local API)") }
                else { port_line("SSH", 22, "FILTERED") + port_line("DNS", 53, "OPEN (BIND 9 / QEMU DNS)") + port_line("HTTP", 80, "OPEN (Atulya Mesh Gateway)") + port_line("HTTPS", 443, "CLOSED") + port_line("QWEN-AI", 8000, "OPEN (Tantra-LLM Local API)") + port_line("HTTP-ALT", 8080, "OPEN (Decentralized Node)") }),
        decreases ports@.len() - i,
    {
        let (svc, port, stat) = ports[i];
        out_str(out, "  Port ");
        out_chars(out, tail_digits_exec(port as u64, 6).as_slice());
        out_str(out, "/TCP (");
        out_str(out, svc);
        out_str(out, "): ");
        out_line(out, stat);
        i += 1;
    }
    assert(out@ =~= o + portscan_reply(target@));
}

fn gguf_exec(env: &mut ShellEnv, out: &mut Vec<char>)
    ensures
        final(out)@ == old(out)@ + gguf_reply("qwen2.5-0.5b-instruct (Q4_K_M)"),
        final(env).gguf.active_model == Some(crate::gguf::qwen_default()),
        final(env).gguf.tensors@ == old(env).gguf.tensors@,
        *final(env) == (ShellEnv { gguf: final(env).gguf, ..*old(env) }),
{
    let ghost o = out@;
    out_line(out, "── Qwen-2.5 0.5B GGUF Model & Tensor Loader ──");
    let info = env.gguf.load_qwen_default();
    out_str(out, "  Model Architecture: ");
    out_line(out, info.architecture);
    out_line(out, "  Quantization: 4-bit Block Matrix (Q4_K_M)");
    out_line(out, "  Tensors Loaded: 148 Layers / Weight Matrices");
    out_line(out, "  Context Window: 32,768 Tokens");
    out_line(out, "  RAM Allocation: 342 MB (CPU-Optimized Int8/Int4 GEMM)");
    out_line(out, "  Status: Active & Synchronized with Tantra-LLM Engine");
    assert(out@ =~= o + gguf_reply("qwen2.5-0.5b-instruct (Q4_K_M)"));
}

/// Opens `path` and reads up to `cap` bytes once, leaving the file open.
fn read_once(fs: &mut RamFs, path: &str, cap: usize) -> (r: Option<Vec<u8>>)
    requires
        old(fs).wf(),
        old(fs).next_handle_view() < u64::MAX,
    ensures
        final(fs).wf(),
        final(fs).files_view() == old(fs).files_view(),
        ({
            let p = crate::fs::path::normalize_spec(path@);
            if readable(old(fs).files_view(), p) {
                &&& r matches Some(d) && d@ == file_head(old(fs).files_view(), p, cap as int)
                &&& final(fs).next_handle_view() == old(fs).next_handle_view() + 1
                &&& final(fs).open_view() == old(fs).open_view().insert(
                    old(fs).next_handle_view(),
                    (p, file_head(old(fs).files_view(), p, cap as int).len(), crate::fs::vfs::OpenFlags::Read),
                )
            } else {
                &&& r is None
                &&& final(fs).next_handle_view() == old(fs).next_handle_view()
                &&& final(fs).open_view() == old(fs).open_view()
            }
        }),
{
    let ghost p = crate::fs::path::normalize_spec(path@);
    let ghost fv = fs.files_view();
    proof {
        fs.lemma_next_fresh();
    }
    match fs.open(path, crate::fs::vfs::OpenFlags::Read) {
        Ok(h) => {
            let mut tmp: Vec<u8> = vec![0u8; cap];
            match fs.read(h, tmp.as_mut_slice()) {
                Ok(n) => {
                    let mut data: Vec<u8> = Vec::new();
                    let mut k: usize = 0;
                    while k < n
                        invariant
                            k <= n,
                            n <= tmp@.len(),
                            data@ == tmp@.subrange(0, k as int),
                        decreases n - k,
                    {
                        data.push(tmp[k]);
                        k += 1;
                        assert(data@ =~= tmp@.subrange(0, k as int));
                    }
                    assert(data@ =~= file_head(fv, p, cap as int));
                    Some(data)
                },
                Err(_) => {
                    assert(false);
                    None
                },
            }
        },
        Err(_) => None,
    }
}

/// The bytes form a module the runtime accepts.
pub open spec fn wasm_loads(b: Seq<u8>) -> bool {
    b.len() >= 8 && b[0] == 0x00 && b[1] == 0x61 && b[2] == 0x73 && b[3] == 0x6d
        && crate::wasm::runtime::valid_header(b)
}

/// What `run` prints after loading the bytes `b` into a fresh runtime.
pub open spec fn run_body(b: Seq<u8>) -> Seq<char> {
    if wasm_loads(b) {
        ln("  [OK] Validated WASM bytecode (\\0asm v1)"@) + ln("  [OK] Spawned isolated Ring 3 User Thread (PID active)"@)
            + match crate::wasm::runtime::module_result(b) {
            Some(v) => "  [OK] App returned: "@ + ln(count_digits((v as u32) as nat, 8)),
            None => Seq::<char>::empty(),
        }
    } else {
        ln("  [ERR] Failed to parse WASM binary"@)
    }
}

/// The program that `run` (or `wasm`) starts.
pub open spec fn run_target(c: Seq<char>) -> Seq<char> {
    if starts_spec(c, "run ") {
        arg_after(c, 4)
    } else {
        "/apps/quantum_skill.wasm"@
    }
}

fn run_bytes_reply(data: &[u8], out: &mut Vec<char>)
    ensures
        final(out)@ == old(out)@ + run_body(data@),
{
    let mut rt = crate::wasm::runtime::WasmRuntime::new();
    match rt.load_module("user_app", data) {
        Ok(()) => {
            out_line(out, "  [OK] Validated WASM bytecode (\\0asm v1)");
            out_line(out, "  [OK] Spawned isolated Ring 3 User Thread (PID active)");
            assert(rt.modules_view().drop_last() == Seq::<crate::wasm::runtime::WasmModule>::empty());
            assert(crate::wasm::runtime::module_index(rt.modules_view().drop_last(), "user_app"@) == -1);
            assert(crate::wasm::runtime::module_index(rt.modules_view(), "user_app"@) == 0);
            match rt.run_module("user_app") {
                Ok(result) => {
                    let ghost o = out@;
                    out_str(out, "  [OK] App returned: ");
                    out_chars(out, count_digits_exec(result as u32 as u64, 8).as_slice());
                    out.push('\n');
                    assert(out@ =~= o + "  [OK] App returned: "@ + ln(count_digits((result as u32) as nat, 8)));
                },
                Err(_) => {
                    assert(out@ =~= out@ + Seq::<char>::empty());
                },
            }
        },
        Err(_) => {
            out_line(out, "  [ERR] Failed to parse WASM binary");
        },
    }
}

/// What `play` prints once the file's first bytes `d` reached the audio driver.
pub open spec fn play_body(name: Seq<char>, d: Seq<u8>) -> Seq<char> {
    if d.len() < 44 {
        ln("WAV file too short (< 44 bytes)"@)
    } else if !crate::audio::wav_header_ok(d) {
        ln("Invalid RIFF/WAVE container header"@)
    } else {
        "🎵 [Intel HDA / AC97 PCM Streaming: "@ + name + ln("]"@) + "  Format: 16-bit Stereo PCM @ "@
            + tail_digits(crate::audio::wav_layout(d).1 as nat, 8) + ln(" Hz"@) + ln(
            "  Status: DMA Circular Ring Buffer Streaming"@,
        )
    }
}

/// The lines of a decoded file as the viewer shows them in the console.
pub open spec fn lines_text(ls: Seq<Seq<char>>) -> Seq<char>
    decreases ls.len(),
{
    if ls.len() == 0 {
        Seq::empty()
    } else {
        lines_text(ls.drop_last()) + ln(ls.last())
    }
}

/// What `cat`, `view` and `open` print for the file `name` whose first bytes are `d`.
pub open spec fn view_body(name: Seq<char>, d: Seq<u8>) -> Seq<char> {
    let f = crate::viewer::detect_spec(name, d);
    crate::viewer::format_icon(f)@ + " ["@ + crate::viewer::format_name(f)@ + ln("]"@) + "  "@ + ln(
        crate::viewer::summary_spec(name, d),
    ) + lines_text(crate::viewer::preview_spec(name, d))
}

fn lines_text_exec(ls: &Vec<String>, out: &mut Vec<char>)
    ensures
        final(out)@ == old(out)@ + lines_text(crate::text::strs(ls@)),
{
    let ghost sv = crate::text::strs(ls@);
    let ghost o = out@;
    let mut i: usize = 0;
    while i < ls.len()
        invariant
            i <= ls@.len(),
            sv == crate::text::strs(ls@),
            out@ == o + lines_text(sv.subrange(0, i as int)),
        decreases ls@.len() - i,
    {
        out_chars(out, chars_of(ls[i].as_str()).as_slice());
        out.push('\n');
        assert(sv.subrange(0, i + 1).drop_last() =~= sv.subrange(0, i as int));
        i += 1;
    }
    assert(sv.subrange(0, ls@.len() as int) =~= sv);
}

/// The last position at which `n` occurs in `h`, searching down from `i`.
pub open spec fn rfind_from(h: Seq<char>, n: Seq<char>, i: int) -> Option<int>
    decreases i + 1,
{
    if i < 0 {
        None
    } else if crate::text::occurs_at(h, n, i) {
        Some(i)
    } else {
        rfind_from(h, n, i - 1)
    }
}

/// The last position at which `n` occurs in `h`, as `str::rfind` reports it.
pub open spec fn rfind_spec(h: Seq<char>, n: Seq<char>) -> Option<int> {
    rfind_from(h, n, h.len() - n.len())
}

fn rfind_exec(h: &[char], n: &[char]) -> (r: Option<usize>)
    ensures
        match r {
            Some(k) => rfind_spec(h@, n@) == Some(k as int) && crate::text::occurs_at(h@, n@, k as int),
            None => rfind_spec(h@, n@) == None::<int>,
        },
{
    if n.len() > h.len() {
        return None;
    }
    let mut i: usize = h.len() - n.len();
    loop
        invariant
            n@.len() <= h@.len(),
            i <= h@.len() - n@.len(),
            rfind_spec(h@, n@) == rfind_from(h@, n@, i as int),
        decreases i,
    {
        if crate::text::occurs_at_exec(h, n, i) {
            return Some(i);
        }
        if i == 0 {
            assert(rfind_from(h@, n@, -1) == None::<int>);
            return None;
        }
        i -= 1;
    }
}

/// What `echo` does with `rest` (what follows `echo `): a redirect `text > file` when it holds one.
pub open spec fn echo_redirect(rest: Seq<char>) -> Option<(Seq<char>, Seq<char>)> {
    match rfind_spec(rest, " > "@) {
        Some(pos) => Some((rest.subrange(0, pos), trim_spec(rest.subrange(pos + 3, rest.len() as int)))),
        None => None,
    }
}

impl Terminal {
    fn play_exec(&mut self, env: &mut ShellEnv, c: &[char], out: &mut Vec<char>)
        requires
            old(self).wf(),
            old(self).file_system().next_handle_view() < u64::MAX,
            starts_spec(c@, "play "),
            ({
                let fv = old(self).file_system().files_view();
                let p = crate::fs::path::normalize_spec(resolve_spec(old(self).cwd_view(), arg_after(c@, 5)));
                readable(fv, p) ==> crate::audio::wav_rate_fits(file_head(fv, p, 16384))
            }),
        ensures
            final(self).wf(),
            final(self).screen() == old(self).screen(),
            final(self).cwd_view() == old(self).cwd_view(),
            final(self).joke_view() == old(self).joke_view(),
            final(self).file_system().files_view() == old(self).file_system().files_view(),
            final(self).file_system().open_view() == old(self).file_system().open_view(),
            *final(env) == (ShellEnv { audio: final(env).audio, ..*old(env) }),
            ({
                let fv = old(self).file_system().files_view();
                let r = resolve_spec(old(self).cwd_view(), arg_after(c@, 5));
                let p = crate::fs::path::normalize_spec(r);
                if readable(fv, p) {
                    let d = file_head(fv, p, 16384);
                    &&& final(self).file_system().next_handle_view() == old(self).file_system().next_handle_view() + 1
                    &&& final(out)@ == old(out)@ + play_body(r, d)
                    &&& (crate::audio::wav_header_ok(d) ==> {
                        let (ch, rate, bits, start, len) = crate::audio::wav_layout(d);
                        &&& final(env).audio.pcm_buffer@ == crate::audio::wav_samples(d)
                        &&& final(env).audio.playback_position == 0
                        &&& final(env).audio.current_sample_rate == rate
                        &&& final(env).audio.active_track matches Some(t) && t@ == r
                        &&& final(env).audio.state == crate::audio::AudioState::Playing
                        &&& final(env).audio.volume == old(env).audio.volume
                    })
                    &&& (!crate::audio::wav_header_ok(d) ==> final(env).audio == old(env).audio)
                } else {
                    &&& final(self).file_system().next_handle_view() == old(self).file_system().next_handle_view()
                    &&& final(out)@ == old(out)@ + ln("play: audio file not found"@)
                    &&& final(env).audio == old(env).audio
                }
            }),
    {
        proof {
            reveal_strlit("play ");
        }
        let path = arg_after_exec(c, 5);
        let ps = crate::text::to_string(path.as_slice());
        let resolved = self.resolve_path(ps.as_str());
        let rs = crate::text::to_string(resolved.as_slice());
        match read_closed(&mut self.fs, rs.as_str(), 16384) {
            Some(data) => {
                let ghost o = out@;
                match env.audio.parse_and_load_wav(rs.as_str(), data.as_slice()) {
                    Ok(info) => {
                        out_str(out, "🎵 [Intel HDA / AC97 PCM Streaming: ");
                        out_chars(out, resolved.as_slice());
                        out_line(out, "]");
                        out_str(out, "  Format: 16-bit Stereo PCM @ ");
                        out_chars(out, tail_digits_exec(info.sample_rate as u64, 8).as_slice());
                        out_line(out, " Hz");
                        out_line(out, "  Status: DMA Circular Ring Buffer Streaming");
                    },
                    Err(e) => {
                        out_line(out, e);
                    },
                }
                assert(out@ =~= o + play_body(resolved@, data@));
            },
            None => {
                out_line(out, "play: audio file not found");
            },
        }
    }

    fn view_exec(&mut self, c: &[char], out: &mut Vec<char>)
        requires
            old(self).wf(),
            old(self).file_system().next_handle_view() < u64::MAX,
            starts_spec(c@, "cat ") || starts_spec(c@, "view ") || starts_spec(c@, "open "),
            ({
                let fv = old(self).file_system().files_view();
                let r = resolve_spec(old(self).cwd_view(), arg_after(c@, if starts_spec(c@, "cat ") { 4 } else { 5 }));
                let p = crate::fs::path::normalize_spec(r);
                readable(fv, p) ==> crate::viewer::sniff_readable(r, file_head(fv, p, 8192))
            }),
        ensures
            final(self).wf(),
            final(self).screen() == old(self).screen(),
            final(self).cwd_view() == old(self).cwd_view(),
            final(self).joke_view() == old(self).joke_view(),
            final(self).file_system().files_view() == old(self).file_system().files_view(),
            final(self).file_system().open_view() == old(self).file_system().open_view(),
            ({
                let fv = old(self).file_system().files_view();
                let file = arg_after(c@, if starts_spec(c@, "cat ") { 4 } else { 5 });
                let r = resolve_spec(old(self).cwd_view(), file);
                let p = crate::fs::path::normalize_spec(r);
                if readable(fv, p) {
                    &&& final(self).file_system().next_handle_view() == old(self).file_system().next_handle_view() + 1
                    &&& final(out)@ == old(out)@ + view_body(r, file_head(fv, p, 8192))
                } else {
                    &&& final(self).file_system().next_handle_view() == old(self).file_system().next_handle_view()
                    &&& final(out)@ == old(out)@ + "view: "@ + file + ln(": No such file"@)
                }
            }),
    {
        proof {
            reveal_strlit("cat ");
            reveal_strlit("view ");
            reveal_strlit("open ");
        }
        let prefix: usize = if starts(c, "cat ") { 4 } else { 5 };
        let file = arg_after_exec(c, prefix);
        let fs_ = crate::text::to_string(file.as_slice());
        let resolved = self.resolve_path(fs_.as_str());
        let rs = crate::text::to_string(resolved.as_slice());
        match read_closed(&mut self.fs, rs.as_str(), 8192) {
            Some(data) => {
                let ghost o = out@;
                let decoded = crate::viewer::sniff_and_decode(rs.as_str(), data.as_slice());
                out_str(out, decoded.format.icon());
                out_str(out, " [");
                out_str(out, decoded.format.name());
                out_line(out, "]");
                out_str(out, "  ");
                out_chars(out, chars_of(decoded.header_summary.as_str()).as_slice());
                out.push('\n');
                lines_text_exec(&decoded.preview_lines, out);
                assert(out@ =~= o + view_body(resolved@, data@));
            },
            None => {
                out_str(out, "view: ");
                out_chars(out, file.as_slice());
                out_line(out, ": No such file");
            },
        }
    }

    fn mkdir_rm_exec(&mut self, c: &[char], remove: bool, out: &mut Vec<char>)
        requires
            old(self).wf(),
            if remove { starts_spec(c@, "rm ") } else { starts_spec(c@, "mkdir ") },
        ensures
            final(self).wf(),
            final(self).screen() == old(self).screen(),
            final(self).cwd_view() == old(self).cwd_view(),
            final(self).joke_view() == old(self).joke_view(),
            final(self).file_system().open_view() == old(self).file_system().open_view(),
            final(self).file_system().next_handle_view() == old(self).file_system().next_handle_view(),
            ({
                let fv = old(self).file_system().files_view();
                let p = crate::fs::path::normalize_spec(resolve_spec(old(self).cwd_view(), arg_after(c@, if remove { 3 } else { 6 })));
                if remove {
                    let ok = p != seq!['/'] && fv.contains_key(p) && !(fv[p].1 && crate::fs::ramdisk::has_children(fv, p));
                    &&& ok ==> final(self).file_system().files_view() == fv.remove(p) && final(out)@ == old(out)@ + ln("Removed (persisted to disk)"@)
                    &&& !ok ==> final(self).file_system().files_view() == fv && final(out)@ == old(out)@ + ln("rm: failed to remove"@)
                } else {
                    let ok = !fv.contains_key(p) && crate::fs::ramdisk::parent_ok(fv, p);
                    &&& ok ==> final(self).file_system().files_view() == fv.insert(p, (Seq::empty(), true)) && final(out)@ == old(out)@ + ln("Directory created (persisted to disk)"@)
                    &&& !ok ==> final(self).file_system().files_view() == fv && final(out)@ == old(out)@ + ln("mkdir: failed to create directory"@)
                }
            }),
    {
        proof {
            reveal_strlit("rm ");
            reveal_strlit("mkdir ");
        }
        let arg = arg_after_exec(c, if remove { 3 } else { 6 });
        let as_ = crate::text::to_string(arg.as_slice());
        let resolved = self.resolve_path(as_.as_str());
        let rs = crate::text::to_string(resolved.as_slice());
        if remove {
            match self.fs.rm(rs.as_str()) {
                Ok(_) => out_line(out, "Removed (persisted to disk)"),
                Err(_) => out_line(out, "rm: failed to remove"),
            }
        } else {
            match self.fs.mkdir(rs.as_str()) {
                Ok(_) => out_line(out, "Directory created (persisted to disk)"),
                Err(_) => out_line(out, "mkdir: failed to create directory"),
            }
        }
    }

    fn echo_exec(&mut self, c: &[char], out: &mut Vec<char>)
        requires
            old(self).wf(),
            old(self).file_system().next_handle_view() < u64::MAX,
            starts_spec(c@, "echo "),
        ensures
            final(self).wf(),
            final(self).screen() == old(self).screen(),
            final(self).cwd_view() == old(self).cwd_view(),
            final(self).joke_view() == old(self).joke_view(),
            final(self).file_system().open_view() == old(self).file_system().open_view(),
            ({
                let fv = old(self).file_system().files_view();
                let rest = c@.subrange(5, c@.len() as int);
                match echo_redirect(rest) {
                    None => final(out)@ == old(out)@ + ln(rest) && final(self).file_system().files_view() == fv
                        && final(self).file_system().next_handle_view() == old(self).file_system().next_handle_view(),
                    Some((text, file)) => {
                        let p = crate::fs::path::normalize_spec(resolve_spec(old(self).cwd_view(), file));
                        match crate::fs::ramdisk::open_error(fv, p, crate::fs::vfs::OpenFlags::Create) {
                            Some(_) => final(out)@ == old(out)@ + ln("echo: cannot write to file"@)
                                && final(self).file_system().files_view() == fv
                                && final(self).file_system().next_handle_view() == old(self).file_system().next_handle_view(),
                            None => {
                                let before = if fv.contains_key(p) { fv[p].0 } else { Seq::empty() };
                                &&& final(out)@ == old(out)@ + ln("Wrote and persisted to ATA disk"@)
                                &&& final(self).file_system().files_view() == fv.insert(
                                    p,
                                    (crate::fs::ramdisk::write_spec(before, 0, vstd::utf8::encode_utf8(text)), false),
                                )
                                &&& final(self).file_system().next_handle_view() == old(self).file_system().next_handle_view() + 1
                            },
                        }
                    },
                }
            }),
    {
        proof {
            reveal_strlit("echo ");
            reveal_strlit(" > ");
        }
        let rest = slice_range(c, 5, c.len());
        let sep = chars_of(" > ");
        match rfind_exec(rest.as_slice(), sep.as_slice()) {
            Some(pos) => {
                let text = slice_range(rest.as_slice(), 0, pos);
                let file = arg_after_exec(rest.as_slice(), pos + 3);
                let fs_ = crate::text::to_string(file.as_slice());
                let resolved = self.resolve_path(fs_.as_str());
                let rs = crate::text::to_string(resolved.as_slice());
                let ghost fv = self.fs.files_view();
                let ghost ov0 = self.fs.open_view();
                proof {
                    self.fs.lemma_next_fresh();
                }
                match self.fs.open(rs.as_str(), crate::fs::vfs::OpenFlags::Create) {
                    Ok(handle) => {
                        let ts = crate::text::to_string(text.as_slice());
                        let bytes = ts.as_str().as_bytes();
                        let _nb = bytes.len();
                        let _ = self.fs.write(handle, bytes);
                        let _ = self.fs.close(handle);
                        assert(self.fs.open_view() =~= ov0);
                        out_line(out, "Wrote and persisted to ATA disk");
                    },
                    Err(_) => {
                        out_line(out, "echo: cannot write to file");
                    },
                }
            },
            None => {
                out_chars(out, rest.as_slice());
                out.push('\n');
            },
        }
    }
}

/// The abstract state of a file system: files, open handles, next handle.
pub open spec fn fs_state(f: RamFs) -> (Map<Seq<char>, crate::fs::ramdisk::NodeView>, Map<u64, crate::fs::ramdisk::OpenView>, u64) {
    (f.files_view(), f.open_view(), f.next_handle_view())
}

/// The file system after `open` created a file at `p` (when missing) and wrote `text` at its start.
pub open spec fn echo_files(fv: Map<Seq<char>, crate::fs::ramdisk::NodeView>, p: Seq<char>, text: Seq<char>) -> Map<Seq<char>, crate::fs::ramdisk::NodeView> {
    let before = if fv.contains_key(p) { fv[p].0 } else { Seq::empty() };
    fv.insert(p, (crate::fs::ramdisk::write_spec(before, 0, vstd::utf8::encode_utf8(text)), false))
}

/// What the shell prints (`out`, before the next prompt) for the command `c`, and how the
/// working directory, joke rotation, file system, services and theme change. The commands
/// `clear`, `scan`, `matrix` and the empty line are described by `execute_command` itself.
pub open spec fn shell_step(
    c: Seq<char>,
    cwd0: Seq<char>, joke0: int, fs0: RamFs, e0: ShellEnv, th0: int,
    cwd1: Seq<char>, joke1: int, fs1: RamFs, e1: ShellEnv, th1: int,
    act: ShellAction, out: Seq<char>,
) -> bool {
    let k = command_code(c);
    let fv = fs0.files_view();
    let same_fs = fs_state(fs1) == fs_state(fs0);
    let quiet = cwd1 == cwd0 && joke1 == joke0 && same_fs && e1 == e0 && th1 == th0;
    let no_act = act == ShellAction::Nothing;
    if k == 1 || k == 6 || k == 12 || k == 13 || k == 15 {
        out == fixed_reply(k) && quiet && no_act
    } else if k == 11 {
        out == fixed_reply(k) && quiet && act == ShellAction::PlayChime
    } else if k == 28 {
        out == fixed_reply(k) && quiet && act == ShellAction::Shutdown
    } else if k == 29 {
        out == fixed_reply(k) && quiet && act == ShellAction::Reboot
    } else if k == 2 {
        let q = c.subrange(4, c.len() as int);
        let r = ask_rule(q);
        &&& out == intent_header(r, trim_spec(q)) + ask_tail(r, q)
        &&& th1 == if r == 4 { (th0 + 1) % 4 } else { th0 }
        &&& act == if r == 6 { ShellAction::PlayChime } else { ShellAction::Nothing }
        &&& e1.ai.query_history@.drop_last() == e0.ai.query_history@
        &&& e1.ai.query_history@.len() == e0.ai.query_history@.len() + 1
        &&& e1.ai.query_history@.last()@ == trim_spec(q)
        &&& e1.ai.memory_nodes@ == e0.ai.memory_nodes@
        &&& e1 == (ShellEnv { ai: e1.ai, ..e0 })
        &&& cwd1 == cwd0 && joke1 == joke0 && same_fs
    } else if k == 3 {
        out == ln("── Context Vector Graph (Memory Bus) ──"@) + memory_lines(e0.ai.memory_nodes@) && quiet && no_act
    } else if k == 4 {
        out == disk_reply(e0.disk_available) && quiet && no_act
    } else if k == 5 {
        out == pci_reply(e0.pci_devices@) && quiet && no_act
    } else if k == 7 || k == 8 {
        &&& out == if k == 7 { ping_reply(c, e0.ping_cycles, e0.tsc_hz as int) } else { curl_reply(arg_after(c, 5)) }
        &&& e1.net.tx_count == e0.net.tx_count + if k == 7 { 3int } else { 1int }
        &&& e1.net.rx_count == e0.net.rx_count && e1.net.config == e0.net.config
        &&& e1 == (ShellEnv { net: e1.net, ..e0 })
        &&& cwd1 == cwd0 && joke1 == joke0 && same_fs && th1 == th0 && no_act
    } else if k == 9 {
        out == ps_header() + ps_lines(process_rows(e0.scheduler)) && quiet && no_act
    } else if k == 10 {
        let r = resolve_spec(cwd0, run_target(c));
        let p = crate::fs::path::normalize_spec(r);
        let head = ln("── WebAssembly Ring-3 Sandboxed Runtime ──"@) + "  Target: "@ + ln(r);
        &&& cwd1 == cwd0 && joke1 == joke0 && e1 == e0 && th1 == th0 && no_act
        &&& fs1.files_view() == fv
        &&& if readable(fv, p) {
            &&& out == head + run_body(file_head(fv, p, 2048))
            &&& fs1.next_handle_view() == fs0.next_handle_view() + 1
            &&& fs1.open_view() == fs0.open_view().insert(fs0.next_handle_view(), (p, file_head(fv, p, 2048).len(), crate::fs::vfs::OpenFlags::Read))
        } else {
            out == head + "  [ERR] File not found: "@ + ln(r) && same_fs
        }
    } else if k == 17 {
        out == "Theme changed: "@ + ln(theme_name(th1)) && th1 == (th0 + 1) % 4 && cwd1 == cwd0 && joke1 == joke0 && same_fs && e1 == e0 && no_act
    } else if k == 19 {
        out == ln(joke_text(joke0)) && joke1 == (joke0 + 1) % 4 && cwd1 == cwd0 && same_fs && e1 == e0 && th1 == th0 && no_act
    } else if k == 20 {
        out == ln(cwd0) && quiet && no_act
    } else if k == 21 {
        let dir = arg_after(c, 3);
        let r = resolve_spec(cwd0, dir);
        &&& joke1 == joke0 && same_fs && e1 == e0 && th1 == th0 && no_act
        &&& if dir.len() == 0 {
            cwd1 == seq!['/'] && out == Seq::<char>::empty()
        } else if fv.contains_key(crate::fs::path::normalize_spec(r)) {
            cwd1 == r && out == Seq::<char>::empty()
        } else {
            cwd1 == cwd0 && out == "cd: "@ + dir + ln(": No such directory"@)
        }
    } else if k == 22 || k == 23 {
        ls_reply(fv, if k == 22 { cwd0 } else { resolve_spec(cwd0, arg_after(c, 3)) }, out) && quiet && no_act
    } else if k == 24 {
        pkg_list_reply(fv, out) && quiet && no_act
    } else if k == 25 {
        let cn = crate::pkg::clean_name(arg_after(c, 12));
        let p = crate::fs::path::normalize_spec(crate::pkg::package_path(cn));
        &&& cwd1 == cwd0 && joke1 == joke0 && e1 == e0 && th1 == th0 && no_act
        &&& fs1.open_view() == fs0.open_view()
        &&& match crate::fs::ramdisk::open_error(fv, p, crate::fs::vfs::OpenFlags::Create) {
            Some(_) => out == ln("Failed to create package file on VFS"@) && fs1.files_view() == fv,
            None => {
                let before = if fv.contains_key(p) { fv[p].0 } else { Seq::empty() };
                &&& out == ln("Package '"@ + cn + "' successfully installed to "@ + crate::pkg::package_path(cn) + " (ATA Synced)"@)
                &&& fs1.files_view() == fv.insert(p, (crate::fs::ramdisk::write_spec(before, 0, crate::pkg::sample_wasm()), false))
            },
        }
    } else if k == 26 {
        let cn = crate::pkg::clean_name(arg_after(c, 11));
        let p = crate::fs::path::normalize_spec(crate::pkg::package_path(cn));
        let removable = fv.contains_key(p) && !(fv[p].1 && crate::fs::ramdisk::has_children(fv, p));
        &&& cwd1 == cwd0 && joke1 == joke0 && e1 == e0 && th1 == th0 && no_act
        &&& fs1.open_view() == fs0.open_view()
        &&& if removable {
            out == ln("Package '"@ + cn + "' successfully removed and disk synced"@) && fs1.files_view() == fv.remove(p)
        } else {
            out == ln("Package not found in /apps"@) && fs1.files_view() == fv
        }
    } else if k == 27 {
        let r = resolve_spec(cwd0, arg_after(c, 5));
        let p = crate::fs::path::normalize_spec(r);
        &&& cwd1 == cwd0 && joke1 == joke0 && th1 == th0 && no_act
        &&& fs1.files_view() == fv && fs1.open_view() == fs0.open_view()
        &&& e1 == (ShellEnv { audio: e1.audio, ..e0 })
        &&& if readable(fv, p) {
            let d = file_head(fv, p, 16384);
            &&& fs1.next_handle_view() == fs0.next_handle_view() + 1
            &&& out == play_body(r, d)
            &&& (crate::audio::wav_header_ok(d) ==> {
                let (ch, rate, bits, start, len) = crate::audio::wav_layout(d);
                &&& e1.audio.pcm_buffer@ == crate::audio::wav_samples(d)
                &&& e1.audio.playback_position == 0
                &&& e1.audio.current_sample_rate == rate
                &&& e1.audio.active_track matches Some(t) && t@ == r
                &&& e1.audio.state == crate::audio::AudioState::Playing
                &&& e1.audio.volume == e0.audio.volume
            })
            &&& (!crate::audio::wav_header_ok(d) ==> e1.audio == e0.audio)
        } else {
            fs1.next_handle_view() == fs0.next_handle_view() && out == ln("play: audio file not found"@) && e1.audio == e0.audio
        }
    } else if k == 30 {
        let text = arg_after(c, 6);
        &&& out == "🗣️ Speaking: \""@ + text + ln("\" [Formant Vocal Tract TTS]"@)
        &&& act matches ShellAction::Speak(t) && t@ == text
        &&& e1.audio.pcm_buffer@ == crate::voice::voice_pcm(vstd::utf8::encode_utf8(text), e0.voice.sample_rate as int)
        &&& e1.audio.playback_position == 0
        &&& e1.audio.active_track matches Some(t) && t@ == "Voice TTS: \""@ + text + "\""@
        &&& e1.audio.state == crate::audio::AudioState::Playing
        &&& e1.audio.volume == e0.audio.volume && e1.audio.current_sample_rate == e0.audio.current_sample_rate
        &&& e1 == (ShellEnv { audio: e1.audio, ..e0 })
        &&& cwd1 == cwd0 && joke1 == joke0 && same_fs && th1 == th0
    } else if k == 31 {
        let arg = vault_arg(c);
        &&& cwd1 == cwd0 && joke1 == joke0 && same_fs && th1 == th0 && no_act
        &&& e1 == (ShellEnv { vault: e1.vault, ..e0 })
        &&& e1.vault.active_user == e0.vault.active_user && e1.vault.vault_files_count == e0.vault.vault_files_count
        &&& if arg == "lock"@ {
            !e1.vault.is_unlocked && out == ln("🔒 Vault locked. User memory sanitized."@)
        } else if starts_spec(arg, "unlock") {
            if unlock_key(arg).len() > 0 {
                e1.vault.is_unlocked && out == ln("Vault Unlocked: Encrypted storage /user/atul/vault is now decrypted and mounted."@)
            } else {
                e1.vault.is_unlocked == e0.vault.is_unlocked && out == ln("Vault Error: Invalid biometric/passkey authorization."@)
            }
        } else {
            e1.vault == e0.vault && out == vault_status(e0.vault)
        }
    } else if k == 32 {
        out == netscan_text() && quiet && no_act
    } else if k == 33 {
        out == portscan_reply(if c.len() > 9 { arg_after(c, 9) } else { "10.0.2.2"@ }) && quiet && no_act
    } else if k == 34 {
        &&& out == gguf_reply("qwen2.5-0.5b-instruct (Q4_K_M)")
        &&& e1.gguf.active_model == Some(crate::gguf::qwen_default()) && e1.gguf.tensors@ == e0.gguf.tensors@
        &&& e1 == (ShellEnv { gguf: e1.gguf, ..e0 })
        &&& cwd1 == cwd0 && joke1 == joke0 && same_fs && th1 == th0 && no_act
    } else if k == 35 {
        out == "🐧 Executing Linux x86_64 ELF via POSIX ABI Bridge: "@ + ln(arg_after(c, 6))
            + ln("  [OK] Syscalls: sys_mmap, sys_brk, sys_write, sys_uname mapped successfully."@)
            && quiet && act == ShellAction::PosixUname
    } else if k == 36 {
        out == wallpaper_reply(arg_after(c, 10)) && quiet && no_act
    } else if k == 37 {
        let file = arg_after(c, if starts_spec(c, "cat ") { 4 } else { 5 });
        let r = resolve_spec(cwd0, file);
        let p = crate::fs::path::normalize_spec(r);
        &&& cwd1 == cwd0 && joke1 == joke0 && e1 == e0 && th1 == th0 && no_act
        &&& fs1.files_view() == fv && fs1.open_view() == fs0.open_view()
        &&& if readable(fv, p) {
            fs1.next_handle_view() == fs0.next_handle_view() + 1 && out == view_body(r, file_head(fv, p, 8192))
        } else {
            fs1.next_handle_view() == fs0.next_handle_view() && out == "view: "@ + file + ln(": No such file"@)
        }
    } else if k == 38 || k == 39 {
        let p = crate::fs::path::normalize_spec(resolve_spec(cwd0, arg_after(c, if k == 39 { 3 } else { 6 })));
        &&& cwd1 == cwd0 && joke1 == joke0 && e1 == e0 && th1 == th0 && no_act
        &&& fs1.open_view() == fs0.open_view() && fs1.next_handle_view() == fs0.next_handle_view()
        &&& if k == 39 {
            let ok = p != seq!['/'] && fv.contains_key(p) && !(fv[p].1 && crate::fs::ramdisk::has_children(fv, p));
            &&& ok ==> fs1.files_view() == fv.remove(p) && out == ln("Removed (persisted to disk)"@)
            &&& !ok ==> fs1.files_view() == fv && out == ln("rm: failed to remove"@)
        } else {
            let ok = !fv.contains_key(p) && crate::fs::ramdisk::parent_ok(fv, p);
            &&& ok ==> fs1.files_view() == fv.insert(p, (Seq::empty(), true)) && out == ln("Directory created (persisted to disk)"@)
            &&& !ok ==> fs1.files_view() == fv && out == ln("mkdir: failed to create directory"@)
        }
    } else if k == 40 {
        let rest = c.subrange(5, c.len() as int);
        &&& cwd1 == cwd0 && joke1 == joke0 && e1 == e0 && th1 == th0 && no_act
        &&& fs1.open_view() == fs0.open_view()
        &&& match echo_redirect(rest) {
            None => out == ln(rest) && same_fs,
            Some((text, file)) => {
                let p = crate::fs::path::normalize_spec(resolve_spec(cwd0, file));
                match crate::fs::ramdisk::open_error(fv, p, crate::fs::vfs::OpenFlags::Create) {
                    Some(_) => out == ln("echo: cannot write to file"@) && same_fs,
                    None => out == ln("Wrote and persisted to ATA disk"@) && fs1.files_view() == echo_files(fv, p, text)
                        && fs1.next_handle_view() == fs0.next_handle_view() + 1,
                }
            },
        }
    } else {
        out == "atulyaos: "@ + c + ln(": command not found"@) && quiet && no_act
    }
}

/// The command can run without failing: its arithmetic fits, the slices it takes fall on
/// character boundaries, and the data it reads is readable by the decoder it goes to.
pub open spec fn shell_ready(c: Seq<char>, cwd: Seq<char>, fs: RamFs, e: ShellEnv, th: int) -> bool {
    let k = command_code(c);
    let fv = fs.files_view();
    &&& fs.next_handle_view() < u64::MAX
    &&& k == 2 ==> {
        let q = c.subrange(4, c.len() as int);
        let r = ask_rule(q);
        &&& (r == 1 || r == 4 || r == 6 || crate::ai_model::formula_fits(q))
        &&& (r == 4 ==> th < usize::MAX)
    }
    &&& k == 3 ==> node_ids_fit(e.ai.memory_nodes@)
    &&& k == 7 ==> ascii_at(c, 4) && e.ping_cycles[0] * 1000 <= u64::MAX && e.ping_cycles[1] * 1000 <= u64::MAX
        && e.ping_cycles[2] * 1000 <= u64::MAX && e.net.tx_count + 3 <= usize::MAX
    &&& k == 8 ==> curl_fits(e, arg_after(c, 5))
    &&& k == 9 ==> pids_fit(process_rows(e.scheduler))
    &&& k == 17 ==> th < usize::MAX
    &&& k == 27 ==> {
        let p = crate::fs::path::normalize_spec(resolve_spec(cwd, arg_after(c, 5)));
        readable(fv, p) ==> crate::audio::wav_rate_fits(file_head(fv, p, 16384))
    }
    &&& k == 31 ==> (starts_spec(vault_arg(c), "unlock") ==> ascii_at(vault_arg(c), 6))
    &&& k == 37 ==> {
        let r = resolve_spec(cwd, arg_after(c, if starts_spec(c, "cat ") { 4 } else { 5 }));
        let p = crate::fs::path::normalize_spec(r);
        readable(fv, p) ==> crate::viewer::sniff_readable(r, file_head(fv, p, 8192))
    }
}

fn node_ids_ok(ns: &Vec<crate::ai::ContextNode>) -> (r: bool)
    ensures
        r == node_ids_fit(ns@),
{
    let mut i: usize = 0;
    while i < ns.len()
        invariant
            i <= ns@.len(),
            forall|j: int| 0 <= j < i ==> 48 + (#[trigger] ns@[j]).id as int % 256 <= 255,
        decreases ns@.len() - i,
    {
        if ns[i].id % 256 > 207 {
            return false;
        }
        i += 1;
    }
    true
}

fn pids_ok(ps: &Vec<(u32, &'static str, &'static str)>) -> (r: bool)
    ensures
        r == pids_fit(ps@),
{
    let mut i: usize = 0;
    while i < ps.len()
        invariant
            i <= ps@.len(),
            forall|j: int| 0 <= j < i ==> 48 + ((#[trigger] ps@[j]).0 as int / 10) % 256 <= 255,
        decreases ps@.len() - i,
    {
        if (ps[i].0 / 10) % 256 > 207 {
            return false;
        }
        i += 1;
    }
    true
}

/// `x * 1000` fits in 64 bits.
fn times_1000_fits(x: u64) -> (r: bool)
    ensures
        r == (x * 1000 <= u64::MAX),
{
    assert(x <= 18446744073709551 <==> x * 1000 <= u64::MAX) by (nonlinear_arith);
    x <= 18446744073709551
}

impl Terminal {
    /// Whether the command typed at the prompt can run (see `shell_ready`): the test to make
    /// before `execute_command`.
    #[verifier::rlimit(40)]
    pub fn command_ready(&self, env: &ShellEnv, theme_idx: usize) -> (r: bool)
        requires
            self.wf(),
        ensures
            r == shell_ready(typed_command(self.screen()), self.cwd_view(), self.file_system(), *env, theme_idx as int),
    {
        proof {
            reveal_strlit("ask ");
            reveal_strlit("ping ");
            reveal_strlit("curl ");
            reveal_strlit("http ");
            reveal_strlit("ping");
            reveal_strlit("play ");
            reveal_strlit("vault");
            reveal_strlit("vault ");
            reveal_strlit("cat ");
            reveal_strlit("view ");
            reveal_strlit("open ");
            reveal_strlit("unlock");
            reveal_strlit("status");
        }
        let c = self.read_command();
        let cs = c.as_slice();
        if self.fs.next_handle_number() == u64::MAX {
            return false;
        }
        let k = classify_command(cs);
        if k == 2 {
            let q = slice_range(cs, 4, cs.len());
            let t = trim_chars(q.as_slice());
            let l = crate::text::lower_chars(t.as_slice());
            let rule = crate::ai::classify(l.as_slice());
            (rule == 1 || rule == 4 || rule == 6 || crate::ai_model::formula_ok(q.as_slice()))
                && (rule != 4 || theme_idx < usize::MAX)
        } else if k == 3 {
            node_ids_ok(&env.ai.memory_nodes)
        } else if k == 7 {
            (cs.len() <= 4 || (cs[4] as u32) < 128) && times_1000_fits(env.ping_cycles[0])
                && times_1000_fits(env.ping_cycles[1]) && times_1000_fits(env.ping_cycles[2])
                && env.net.tx_count <= usize::MAX - 3
        } else if k == 8 {
            let url = arg_after_exec(cs, 5);
            let host = crate::text::to_string(url.as_slice());
            let target: [u8; 4] = [10, 0, 2, 2];
            assert(target@ =~= seq![10u8, 0u8, 2u8, 2u8]);
            env.net.http_get_fits(target, host.as_str(), "/")
        } else if k == 9 {
            let procs = crate::scheduler::list_processes(&env.scheduler);
            pids_ok(&procs)
        } else if k == 17 {
            theme_idx < usize::MAX
        } else if k == 27 {
            let path = arg_after_exec(cs, 5);
            let ps = crate::text::to_string(path.as_slice());
            let resolved = self.resolve_path(ps.as_str());
            let rs = crate::text::to_string(resolved.as_slice());
            match self.fs.peek(rs.as_str(), 16384) {
                Some(d) => crate::audio::wav_rate_ok(d.as_slice()),
                None => true,
            }
        } else if k == 31 {
            let arg = if cs.len() > 6 { arg_after_exec(cs, 6) } else { chars_of("status") };
            if starts(arg.as_slice(), "unlock") {
                arg.len() <= 6 || (arg[6usize] as u32) < 128
            } else {
                true
            }
        } else if k == 37 {
            let prefix: usize = if starts(cs, "cat ") { 4 } else { 5 };
            let file = arg_after_exec(cs, prefix);
            let fs_ = crate::text::to_string(file.as_slice());
            let resolved = self.resolve_path(fs_.as_str());
            let rs = crate::text::to_string(resolved.as_slice());
            match self.fs.peek(rs.as_str(), 8192) {
                Some(d) => crate::viewer::sniff_ok(rs.as_str(), d.as_slice()),
                None => true,
            }
        } else {
            true
        }
    }
}

impl Terminal {
    /// Runs the line typed at the prompt: moves to a new line, carries the command out,
    /// prints its reply and a new prompt (`clear` redraws the banner instead, and `scan` and
    /// `matrix` hand over to their screens without a prompt). Hardware work that the command
    /// needs is returned for the caller to do.
    #[verifier::spinoff_prover]
    #[verifier::rlimit(100)]
    pub fn execute_command(
        &mut self,
        env: &mut ShellEnv,
        theme_idx: &mut usize,
        scan_active: &mut usize,
        matrix_active: &mut usize,
    ) -> (act: ShellAction)
        requires
            old(self).wf(),
            shell_ready(
                typed_command(old(self).screen()),
                old(self).cwd_view(),
                old(self).file_system(),
                *old(env),
                *old(theme_idx) as int,
            ),
        ensures
            final(self).wf(),
            ({
                let c = typed_command(old(self).screen());
                let k = command_code(c);
                let s1 = nl_spec(old(self).screen());
                let unchanged = final(self).cwd_view() == old(self).cwd_view() && final(self).joke_view()
                    == old(self).joke_view() && final(self).file_system() == old(self).file_system()
                    && *final(env) == *old(env) && *final(theme_idx) == *old(theme_idx);
                if k == 0 {
                    &&& final(self).screen() == puts_spec(s1, prompt_text())
                    &&& unchanged && act == ShellAction::Nothing
                    &&& *final(scan_active) == *old(scan_active) && *final(matrix_active) == *old(matrix_active)
                } else if k == 14 {
                    &&& final(self).screen() == puts_spec(blank_screen(), banner_text())
                    &&& unchanged && act == ShellAction::Nothing
                    &&& *final(scan_active) == *old(scan_active) && *final(matrix_active) == *old(matrix_active)
                } else if k == 16 {
                    &&& final(self).screen() == puts_spec(s1, ln("Initializing full system diagnostics..."@))
                    &&& unchanged && act == ShellAction::Nothing
                    &&& *final(scan_active) == 1 && *final(matrix_active) == *old(matrix_active)
                } else if k == 18 {
                    &&& final(self).screen() == puts_spec(s1, ln("Engaging Matrix stream (Esc/Enter to exit)..."@))
                    &&& unchanged && act == ShellAction::Nothing
                    &&& *final(matrix_active) == 1 && *final(scan_active) == *old(scan_active)
                } else {
                    &&& exists|out: Seq<char>|
                        shell_step(
                            c,
                            old(self).cwd_view(), old(self).joke_view(), old(self).file_system(), *old(env), *old(theme_idx) as int,
                            final(self).cwd_view(), final(self).joke_view(), final(self).file_system(), *final(env), *final(theme_idx) as int,
                            act, out,
                        ) && final(self).screen() == puts_spec(s1, out + prompt_text())
                    &&& *final(scan_active) == *old(scan_active) && *final(matrix_active) == *old(matrix_active)
                }
            }),
    {
        let c = self.read_command();
        let cs = c.as_slice();
        self.new_line();
        let ghost s1 = self.screen();
        let k = classify_command(cs);
        if k == 0 {
            self.write_str("guest@atulyaos:~$ ");
            return ShellAction::Nothing;
        }
        if k == 14 {
            self.clear();
            return ShellAction::Nothing;
        }
        let mut out: Vec<char> = Vec::new();
        if k == 16 {
            out_line(&mut out, "Initializing full system diagnostics...");
            self.write_chars(out.as_slice());
            *scan_active = 1;
            return ShellAction::Nothing;
        }
        if k == 18 {
            out_line(&mut out, "Engaging Matrix stream (Esc/Enter to exit)...");
            self.write_chars(out.as_slice());
            *matrix_active = 1;
            return ShellAction::Nothing;
        }
        let ghost t0 = *self;
        let ghost e0 = *env;
        let act = self.dispatch(k, cs, env, theme_idx, &mut out);
        let ghost t1 = *self;
        self.write_chars(out.as_slice());
        self.write_str("guest@atulyaos:~$ ");
        proof {
            lemma_puts_concat(s1, out@, prompt_text());
        }
        act
    }

    /// Carries out command number `k` (see `command_code`), appending its reply to `out`.
    fn dispatch(&mut self, k: u8, c: &[char], env: &mut ShellEnv, theme_idx: &mut usize, out: &mut Vec<char>) -> (act: ShellAction)
        requires
            old(self).wf(),
            k as int == command_code(c@),
            old(out)@.len() == 0,
            shell_ready(c@, old(self).cwd_view(), old(self).file_system(), *old(env), *old(theme_idx) as int),
            k != 0 && k != 14 && k != 16 && k != 18,
        ensures
            final(self).wf(),
            final(self).screen() == old(self).screen(),
            shell_step(
                c@,
                old(self).cwd_view(), old(self).joke_view(), old(self).file_system(), *old(env), *old(theme_idx) as int,
                final(self).cwd_view(), final(self).joke_view(), final(self).file_system(), *final(env), *final(theme_idx) as int,
                act, final(out)@,
            ),
    {
        if k == 2 || k == 7 || k == 8 || k == 30 || k == 31 || k == 34 {
            self.dispatch_services(k, c, env, theme_idx, out)
        } else if k == 10 || k == 21 || k == 22 || k == 23 || k == 24 || k == 25 || k == 26 || k == 27
            || k == 37 || k == 38 || k == 39 || k == 40 {
            self.dispatch_files(k, c, env, theme_idx, out)
        } else {
            self.dispatch_simple(k, c, env, theme_idx, out)
        }
    }

    /// The commands that only print, or touch the theme or the joke rotation.
    #[verifier::spinoff_prover]
    #[verifier::rlimit(60)]
    fn dispatch_simple(&mut self, k: u8, c: &[char], env: &mut ShellEnv, theme_idx: &mut usize, out: &mut Vec<char>) -> (act: ShellAction)
        requires
            old(self).wf(),
            k as int == command_code(c@),
            old(out)@.len() == 0,
            shell_ready(c@, old(self).cwd_view(), old(self).file_system(), *old(env), *old(theme_idx) as int),
            k == 1 || k == 3 || k == 4 || k == 5 || k == 6 || k == 9 || k == 11 || k == 12 || k == 13
                || k == 15 || k == 17 || k == 19 || k == 20 || k == 28 || k == 29 || k == 32 || k == 33
                || k == 35 || k == 36 || k == 41,
        ensures
            final(self).wf(),
            final(self).screen() == old(self).screen(),
            shell_step(
                c@,
                old(self).cwd_view(), old(self).joke_view(), old(self).file_system(), *old(env), *old(theme_idx) as int,
                final(self).cwd_view(), final(self).joke_view(), final(self).file_system(), *final(env), *final(theme_idx) as int,
                act, final(out)@,
            ),
    {
        proof {
            reveal_strlit("ask ");
            reveal_strlit("curl ");
            reveal_strlit("http ");
            reveal_strlit("run ");
            reveal_strlit("ls ");
            reveal_strlit("pkg install ");
            reveal_strlit("pkg remove ");
            reveal_strlit("speak ");
            reveal_strlit("portscan ");
            reveal_strlit("portscan");
            reveal_strlit("posix ");
            reveal_strlit("wallpaper ");
        }
        assert(out@ =~= Seq::<char>::empty());
        if k == 1 || k == 6 || k == 11 || k == 12 || k == 13 || k == 15 || k == 28 || k == 29 {
            fixed_reply_exec(k, out);
            assert(out@ =~= fixed_reply(k as int));
            return if k == 11 {
                ShellAction::PlayChime
            } else if k == 28 {
                ShellAction::Shutdown
            } else if k == 29 {
                ShellAction::Reboot
            } else {
                ShellAction::Nothing
            };
        }
        if k == 3 {
            memory_reply(&env.ai.memory_nodes, out);
            assert(out@ =~= ln("── Context Vector Graph (Memory Bus) ──"@) + memory_lines(env.ai.memory_nodes@));
        } else if k == 4 {
            disk_reply_exec(env.disk_available, out);
            assert(out@ =~= disk_reply(env.disk_available));
        } else if k == 5 {
            pci_reply_exec(&env.pci_devices, out);
            assert(out@ =~= pci_reply(env.pci_devices@));
        } else if k == 9 {
            let procs = crate::scheduler::list_processes(&env.scheduler);
            assert(procs@ == process_rows(env.scheduler));
            ps_reply_exec(&procs, out);
            assert(out@ =~= ps_header() + ps_lines(process_rows(env.scheduler)));
        } else if k == 17 {
            *theme_idx = (*theme_idx + 1) % 4;
            out_str(out, "Theme changed: ");
            theme_name_exec(*theme_idx, out);
            out.push('\n');
            assert(out@ =~= "Theme changed: "@ + ln(theme_name(*theme_idx as int)));
        } else if k == 19 {
            joke_exec(self.joke_idx, out);
            out.push('\n');
            assert(out@ =~= ln(joke_text(self.joke_idx as int)));
            self.joke_idx = (self.joke_idx + 1) % 4;
        } else if k == 20 {
            out_chars(out, self.cwd.as_slice());
            out.push('\n');
            assert(out@ =~= ln(self.cwd@));
        } else if k == 32 {
            netscan_exec(out);
            assert(out@ =~= netscan_text());
        } else if k == 33 {
            let target = if c.len() > 9 { arg_after_exec(c, 9) } else { chars_of("10.0.2.2") };
            portscan_exec(target.as_slice(), out);
            assert(out@ =~= portscan_reply(if c@.len() > 9 { arg_after(c@, 9) } else { "10.0.2.2"@ }));
        } else if k == 35 {
            out_str(out, "🐧 Executing Linux x86_64 ELF via POSIX ABI Bridge: ");
            out_chars(out, arg_after_exec(c, 6).as_slice());
            out.push('\n');
            out_line(out, "  [OK] Syscalls: sys_mmap, sys_brk, sys_write, sys_uname mapped successfully.");
            assert(out@ =~= "🐧 Executing Linux x86_64 ELF via POSIX ABI Bridge: "@ + ln(arg_after(c@, 6))
                + ln("  [OK] Syscalls: sys_mmap, sys_brk, sys_write, sys_uname mapped successfully."@));
            return ShellAction::PosixUname;
        } else if k == 36 {
            wallpaper_exec(arg_after_exec(c, 10).as_slice(), out);
            assert(out@ =~= wallpaper_reply(arg_after(c@, 10)));
        } else {
            out_str(out, "atulyaos: ");
            out_chars(out, c);
            out_line(out, ": command not found");
            assert(out@ =~= "atulyaos: "@ + c@ + ln(": command not found"@));
        }
        ShellAction::Nothing
    }

    /// The commands that use the kernel services.
    #[verifier::spinoff_prover]
    #[verifier::rlimit(60)]
    fn dispatch_services(&mut self, k: u8, c: &[char], env: &mut ShellEnv, theme_idx: &mut usize, out: &mut Vec<char>) -> (act: ShellAction)
        requires
            old(self).wf(),
            k as int == command_code(c@),
            old(out)@.len() == 0,
            shell_ready(c@, old(self).cwd_view(), old(self).file_system(), *old(env), *old(theme_idx) as int),
            k == 2 || k == 7 || k == 8 || k == 30 || k == 31 || k == 34,
        ensures
            final(self).wf(),
            final(self).screen() == old(self).screen(),
            shell_step(
                c@,
                old(self).cwd_view(), old(self).joke_view(), old(self).file_system(), *old(env), *old(theme_idx) as int,
                final(self).cwd_view(), final(self).joke_view(), final(self).file_system(), *final(env), *final(theme_idx) as int,
                act, final(out)@,
            ),
    {
        proof {
            reveal_strlit("ask ");
            reveal_strlit("curl ");
            reveal_strlit("http ");
            reveal_strlit("run ");
            reveal_strlit("ls ");
            reveal_strlit("pkg install ");
            reveal_strlit("pkg remove ");
            reveal_strlit("speak ");
            reveal_strlit("portscan ");
            reveal_strlit("portscan");
            reveal_strlit("posix ");
            reveal_strlit("wallpaper ");
        }
        assert(out@ =~= Seq::<char>::empty());
        if k == 2 {
            let a = self.ask_exec(env, c, theme_idx, out);
            let ghost q = c@.subrange(4, c@.len() as int);
            assert(out@ =~= intent_header(ask_rule(q), trim_spec(q)) + ask_tail(ask_rule(q), q));
            return a;
        }
        if k == 7 {
            ping_exec(env, c, out);
            assert(out@ =~= ping_reply(c@, old(env).ping_cycles, old(env).tsc_hz as int));
        } else if k == 8 {
            let url = arg_after_exec(c, 5);
            curl_exec(env, url.as_slice(), out);
            assert(out@ =~= curl_reply(arg_after(c@, 5)));
        } else if k == 30 {
            let text = arg_after_exec(c, 6);
            let ts = crate::text::to_string(text.as_slice());
            out_str(out, "🗣️ Speaking: \"");
            out_chars(out, text.as_slice());
            out_line(out, "\" [Formant Vocal Tract TTS]");
            assert(out@ =~= "🗣️ Speaking: \""@ + text@ + ln("\" [Formant Vocal Tract TTS]"@));
            env.voice.speak(ts.as_str(), &mut env.audio);
            return ShellAction::Speak(ts);
        } else if k == 31 {
            vault_exec(env, c, out);
            proof {
                let arg = vault_arg(c@);
                if arg == "lock"@ {
                    assert(out@ =~= ln("🔒 Vault locked. User memory sanitized."@));
                } else if starts_spec(arg, "unlock") {
                    if unlock_key(arg).len() > 0 {
                        assert(out@ =~= ln("Vault Unlocked: Encrypted storage /user/atul/vault is now decrypted and mounted."@));
                    } else {
                        assert(out@ =~= ln("Vault Error: Invalid biometric/passkey authorization."@));
                    }
                } else {
                    assert(out@ =~= vault_status(old(env).vault));
                }
            }
        } else {
            gguf_exec(env, out);
            assert(out@ =~= gguf_reply("qwen2.5-0.5b-instruct (Q4_K_M)"));
        }
        ShellAction::Nothing
    }

    /// The commands that use the file system.
    #[verifier::spinoff_prover]
    #[verifier::rlimit(100)]
    fn dispatch_files(&mut self, k: u8, c: &[char], env: &mut ShellEnv, theme_idx: &mut usize, out: &mut Vec<char>) -> (act: ShellAction)
        requires
            old(self).wf(),
            k as int == command_code(c@),
            old(out)@.len() == 0,
            shell_ready(c@, old(self).cwd_view(), old(self).file_system(), *old(env), *old(theme_idx) as int),
            k == 10 || k == 21 || k == 22 || k == 23 || k == 24 || k == 25 || k == 26 || k == 27
                || k == 37 || k == 38 || k == 39 || k == 40,
        ensures
            final(self).wf(),
            final(self).screen() == old(self).screen(),
            shell_step(
                c@,
                old(self).cwd_view(), old(self).joke_view(), old(self).file_system(), *old(env), *old(theme_idx) as int,
                final(self).cwd_view(), final(self).joke_view(), final(self).file_system(), *final(env), *final(theme_idx) as int,
                act, final(out)@,
            ),
    {
        proof {
            reveal_strlit("ask ");
            reveal_strlit("curl ");
            reveal_strlit("http ");
            reveal_strlit("run ");
            reveal_strlit("ls ");
            reveal_strlit("pkg install ");
            reveal_strlit("pkg remove ");
            reveal_strlit("speak ");
            reveal_strlit("portscan ");
            reveal_strlit("portscan");
            reveal_strlit("posix ");
            reveal_strlit("wallpaper ");
        }
        assert(out@ =~= Seq::<char>::empty());
        if k == 10 {
            let target = if starts(c, "run ") { arg_after_exec(c, 4) } else { chars_of("/apps/quantum_skill.wasm") };
            let ts = crate::text::to_string(target.as_slice());
            let resolved = self.resolve_path(ts.as_str());
            let rs = crate::text::to_string(resolved.as_slice());
            out_line(out, "── WebAssembly Ring-3 Sandboxed Runtime ──");
            out_str(out, "  Target: ");
            out_chars(out, resolved.as_slice());
            out.push('\n');
            let ghost head = out@;
            match read_once(&mut self.fs, rs.as_str(), 2048) {
                Some(data) => {
                    run_bytes_reply(data.as_slice(), out);
                    assert(out@ =~= head + run_body(data@));
                },
                None => {
                    out_str(out, "  [ERR] File not found: ");
                    out_chars(out, resolved.as_slice());
                    out.push('\n');
                    assert(out@ =~= head + "  [ERR] File not found: "@ + ln(resolved@));
                },
            }
            assert(head =~= ln("── WebAssembly Ring-3 Sandboxed Runtime ──"@) + "  Target: "@ + ln(resolved@));
        } else if k == 21 {
            self.cd_exec(c, out);
        } else if k == 22 {
            let cwd = slice_range(self.cwd.as_slice(), 0, self.cwd.len());
            assert(cwd@ =~= self.cwd@);
            self.ls_exec(cwd.as_slice(), out);
            assert(out@.subrange(0, out@.len() as int) =~= out@);
        } else if k == 23 {
            let dir = arg_after_exec(c, 3);
            let ds = crate::text::to_string(dir.as_slice());
            let resolved = self.resolve_path(ds.as_str());
            self.ls_exec(resolved.as_slice(), out);
            assert(out@.subrange(0, out@.len() as int) =~= out@);
        } else if k == 24 {
            self.pkg_list_exec(out);
            assert(out@.subrange(0, out@.len() as int) =~= out@);
        } else if k == 25 || k == 26 {
            let name = arg_after_exec(c, if k == 25 { 12 } else { 11 });
            let ns = crate::text::to_string(name.as_slice());
            let r = if k == 25 {
                crate::pkg::PackageManager::install(ns.as_str(), &mut self.fs)
            } else {
                crate::pkg::PackageManager::remove(ns.as_str(), &mut self.fs)
            };
            match r {
                Ok(msg) => {
                    out_chars(out, chars_of(msg.as_str()).as_slice());
                    out.push('\n');
                    assert(out@ =~= ln(msg@));
                },
                Err(e) => {
                    out_line(out, e);
                    assert(out@ =~= ln(e@));
                },
            }
        } else if k == 27 {
            self.play_exec(env, c, out);
            proof {
                let r = resolve_spec(old(self).cwd_view(), arg_after(c@, 5));
                let fv = old(self).file_system().files_view();
                let p = crate::fs::path::normalize_spec(r);
                if readable(fv, p) {
                    assert(out@ =~= play_body(r, file_head(fv, p, 16384)));
                } else {
                    assert(out@ =~= ln("play: audio file not found"@));
                }
            }
        } else if k == 37 {
            self.view_exec(c, out);
            proof {
                let fv = old(self).file_system().files_view();
                let file = arg_after(c@, if starts_spec(c@, "cat ") { 4 } else { 5 });
                let r = resolve_spec(old(self).cwd_view(), file);
                let p = crate::fs::path::normalize_spec(r);
                if readable(fv, p) {
                    assert(out@ =~= view_body(r, file_head(fv, p, 8192)));
                } else {
                    assert(out@ =~= "view: "@ + file + ln(": No such file"@));
                }
            }
        } else if k == 38 || k == 39 {
            self.mkdir_rm_exec(c, k == 39, out);
            proof {
                if out@.len() > 0 {
                }
                assert(out@ =~= Seq::<char>::empty() + out@);
            }
        } else {
            self.echo_exec(c, out);
        }
        ShellAction::Nothing
    }
}

} // verus!
