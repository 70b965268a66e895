use vstd::prelude::*;
use crate::ai_model::trunc_div;
use crate::math::{cosish, sinish, sinish_spec};

verus! {

/// A 24-bit colour.
#[derive(Clone, Copy, PartialEq, Eq, Structural, Debug)]
pub struct Rgb {
    pub r: u8,
    pub g: u8,
    pub b: u8,
}

/// One channel of `lerp`: `a` weighted by `256 - t`, `b` by `t`, over 256.
pub open spec fn mix(a: u8, b: u8, t: int) -> u8 {
    ((a * (256 - t) + b * t) / 256) as u8
}

/// One channel of `dim`: `a` scaled by `f / 256`.
pub open spec fn scale(a: u8, f: int) -> u8 {
    ((a * f) / 256) as u8
}

/// `v` clamped to at most 256.
pub open spec fn cap256(v: u16) -> int {
    if v > 256 {
        256
    } else {
        v as int
    }
}

fn mix_channel(a: u8, b: u8, t: u16) -> (r: u8)
    requires
        t <= 256,
    ensures
        r == mix(a, b, t as int),
        (a * (256 - t) + b * t) / 256 <= 255,
{
    let inv = 256 - t;
    assert(a * inv + b * t <= 255 * 256) by (nonlinear_arith)
        requires
            a <= 255,
            b <= 255,
            inv + t == 256,
            0 <= t,
            0 <= inv,
    {
        assert(a * inv <= 255 * inv);
        assert(b * t <= 255 * t);
    }
    ((a as u16 * inv + b as u16 * t) / 256) as u8
}

fn scale_channel(a: u8, f: u16) -> (r: u8)
    requires
        f <= 256,
    ensures
        r == scale(a, f as int),
        (a * f) / 256 <= 255,
{
    assert(a * f <= 255 * 256) by (nonlinear_arith)
        requires
            a <= 255,
            f <= 256,
    ;
    ((a as u16 * f) / 256) as u8
}

impl Rgb {
    pub fn new(r: u8, g: u8, b: u8) -> (c: Self)
        ensures
            c == (Rgb { r, g, b }),
    {
        Self { r, g, b }
    }

    /// Linear interpolation: `t` runs from 0 (this colour) to 256 (`other`); larger values
    /// count as 256.
    pub fn lerp(self, other: Rgb, t: u16) -> (c: Rgb)
        ensures
            c == (Rgb {
                r: mix(self.r, other.r, cap256(t)),
                g: mix(self.g, other.g, cap256(t)),
                b: mix(self.b, other.b, cap256(t)),
            }),
    {
        let t = if t > 256 {
            256
        } else {
            t
        };
        Rgb {
            r: mix_channel(self.r, other.r, t),
            g: mix_channel(self.g, other.g, t),
            b: mix_channel(self.b, other.b, t),
        }
    }

    /// Brightness scaled by `factor / 256`; factors above 256 count as 256.
    pub fn dim(self, factor: u16) -> (c: Rgb)
        ensures
            c == (Rgb {
                r: scale(self.r, cap256(factor)),
                g: scale(self.g, cap256(factor)),
                b: scale(self.b, cap256(factor)),
            }),
    {
        let f = if factor > 256 {
            256
        } else {
            factor
        };
        Rgb { r: scale_channel(self.r, f), g: scale_channel(self.g, f), b: scale_channel(self.b, f) }
    }
}

/// How the framebuffer stores a pixel.
#[derive(Clone, Copy, PartialEq, Eq, Structural, Debug)]
pub enum PixelFormat {
    /// Red, green, blue in the first three bytes.
    Rgb,
    /// Blue, green, red in the first three bytes.
    Bgr,
    /// One grey byte.
    U8,
    /// A layout this driver does not draw.
    Unknown,
}

/// The framebuffer's geometry as the bootloader reports it: its size in bytes, its visible
/// width and height in pixels, the pixel format, the bytes per pixel, and the pixels per
/// line (`stride`).
#[derive(Clone, Copy, PartialEq, Eq, Structural, Debug)]
pub struct FrameBufferInfo {
    pub byte_len: usize,
    pub width: usize,
    pub height: usize,
    pub pixel_format: PixelFormat,
    pub bytes_per_pixel: usize,
    pub stride: usize,
}

/// The back buffer that drawing goes to, and the geometry of the screen it is copied to.
pub struct Display {
    pub backbuffer: Vec<u8>,
    pub info: FrameBufferInfo,
}

/// A geometry this driver can draw on: lines at least as long as they are visible, whole
/// pixels of at least three bytes for the colour formats, and every visible pixel's offset
/// within `usize`.
pub open spec fn info_ok(info: FrameBufferInfo) -> bool {
    &&& 1 <= info.stride
    &&& info.width <= info.stride
    &&& 1 <= info.bytes_per_pixel
    &&& (info.pixel_format == PixelFormat::Rgb || info.pixel_format == PixelFormat::Bgr) ==> info.bytes_per_pixel >= 3
    &&& info.height * info.stride * info.bytes_per_pixel <= usize::MAX
    &&& info.width <= isize::MAX && info.height <= isize::MAX
}

/// Byte offset of pixel (`x`, `y`).
pub open spec fn pix_off(info: FrameBufferInfo, x: int, y: int) -> int {
    (y * info.stride + x) * info.bytes_per_pixel
}

/// The pixel and channel that byte `k` belongs to.
pub open spec fn decode(info: FrameBufferInfo, k: int) -> (int, int, int) {
    let p = k / (info.bytes_per_pixel as int);
    (p % (info.stride as int), p / (info.stride as int), k % (info.bytes_per_pixel as int))
}

/// Pixel (`x`, `y`) is on screen and lies wholly in a buffer of `len` bytes.
pub open spec fn shown(info: FrameBufferInfo, len: int, x: int, y: int) -> bool {
    0 <= x < info.width && 0 <= y < info.height && pix_off(info, x, y) + info.bytes_per_pixel <= len
}

/// How many bytes of a pixel a colour is written to.
pub open spec fn nch(f: PixelFormat) -> int {
    match f {
        PixelFormat::Rgb => 3,
        PixelFormat::Bgr => 3,
        PixelFormat::U8 => 1,
        PixelFormat::Unknown => 0,
    }
}

/// Byte `ch` of colour `c` in format `f` (grey is the mean of the three channels).
pub open spec fn channel(f: PixelFormat, c: Rgb, ch: int) -> u8 {
    match f {
        PixelFormat::Rgb => if ch == 0 { c.r } else if ch == 1 { c.g } else { c.b },
        PixelFormat::Bgr => if ch == 0 { c.b } else if ch == 1 { c.g } else { c.r },
        _ => ((c.r + c.g + c.b) / 3) as u8,
    }
}

/// `buf` with every shown pixel of `region` painted in its colour `col`: the colour bytes
/// of those pixels change, every other byte stays.
pub open spec fn paint(
    buf: Seq<u8>,
    info: FrameBufferInfo,
    region: spec_fn(int, int) -> bool,
    col: spec_fn(int, int) -> Rgb,
) -> Seq<u8> {
    Seq::new(
        buf.len(),
        |k: int|
            {
                let (x, y, ch) = decode(info, k);
                if region(x, y) && shown(info, buf.len() as int, x, y) && ch < nch(info.pixel_format) {
                    channel(info.pixel_format, col(x, y), ch)
                } else {
                    buf[k]
                }
            },
    )
}

/// The colour of pixel (`x`, `y`) as stored (black off screen or in an unknown format).
pub open spec fn pixel_at(buf: Seq<u8>, info: FrameBufferInfo, x: int, y: int) -> Rgb {
    let o = pix_off(info, x, y);
    if !shown(info, buf.len() as int, x, y) {
        Rgb { r: 0, g: 0, b: 0 }
    } else {
        match info.pixel_format {
            PixelFormat::Rgb => Rgb { r: buf[o], g: buf[o + 1], b: buf[o + 2] },
            PixelFormat::Bgr => Rgb { r: buf[o + 2], g: buf[o + 1], b: buf[o] },
            PixelFormat::U8 => Rgb { r: buf[o], g: buf[o], b: buf[o] },
            PixelFormat::Unknown => Rgb { r: 0, g: 0, b: 0 },
        }
    }
}

/// A visible pixel's bytes lie within the size the geometry allows.
pub proof fn lemma_offset_bounds(info: FrameBufferInfo, x: int, y: int)
    requires
        info_ok(info),
        0 <= x < info.width,
        0 <= y < info.height,
    ensures
        0 <= pix_off(info, x, y),
        pix_off(info, x, y) + info.bytes_per_pixel <= info.height * info.stride * info.bytes_per_pixel,
        y * info.stride + x < info.height * info.stride,
        0 <= y * info.stride,
        y * info.stride + x < info.height * info.stride * info.bytes_per_pixel,
{
    let s = info.stride as int;
    let b = info.bytes_per_pixel as int;
    let h = info.height as int;
    assert(y * s + x + 1 <= h * s) by (nonlinear_arith)
        requires
            0 <= x < s,
            0 <= y < h,
    {
        assert(y * s + s == (y + 1) * s);
        assert((y + 1) * s <= h * s);
    }
    assert((y * s + x) * b + b <= h * s * b) by (nonlinear_arith)
        requires
            y * s + x + 1 <= h * s,
            b >= 1,
    {
        assert((y * s + x) * b + b == (y * s + x + 1) * b);
    }
    assert(0 <= (y * s + x) * b) by (nonlinear_arith)
        requires
            0 <= x,
            0 <= y,
            0 <= s,
            0 <= b,
    ;
    assert(0 <= y * s) by (nonlinear_arith)
        requires
            0 <= y,
            0 <= s,
    ;
    assert(h * s <= h * s * b) by (nonlinear_arith)
        requires
            0 <= h,
            0 <= s,
            1 <= b,
    ;
}

/// The bytes of pixel (`x`, `y`) decode to that pixel.
pub proof fn lemma_encode(info: FrameBufferInfo, x: int, y: int, ch: int)
    requires
        1 <= info.stride,
        1 <= info.bytes_per_pixel,
        0 <= x < info.stride,
        0 <= y,
        0 <= ch < info.bytes_per_pixel,
    ensures
        decode(info, pix_off(info, x, y) + ch) == (x, y, ch),
{
    let s = info.stride as int;
    let b = info.bytes_per_pixel as int;
    let p = y * s + x;
    assert(pix_off(info, x, y) + ch == p * b + ch);
    vstd::arithmetic::div_mod::lemma_fundamental_div_mod_converse(p * b + ch, b, p, ch);
    vstd::arithmetic::div_mod::lemma_fundamental_div_mod_converse(p, s, y, x);
}

/// A pixel that is painted reads back as the colour painted, as grey in a one-byte format,
/// and as black in an unknown format.
pub proof fn lemma_pixel_readback(buf: Seq<u8>, info: FrameBufferInfo, x: int, y: int, c: Rgb)
    requires
        info_ok(info),
        shown(info, buf.len() as int, x, y),
    ensures
        ({
            let painted = paint(buf, info, |px: int, py: int| px == x && py == y, |px: int, py: int| c);
            let grey = ((c.r + c.g + c.b) / 3) as u8;
            &&& (info.pixel_format == PixelFormat::Rgb || info.pixel_format == PixelFormat::Bgr)
                ==> pixel_at(painted, info, x, y) == c
            &&& info.pixel_format == PixelFormat::U8 ==> pixel_at(painted, info, x, y) == (Rgb {
                r: grey,
                g: grey,
                b: grey,
            })
            &&& info.pixel_format == PixelFormat::Unknown ==> pixel_at(painted, info, x, y) == (Rgb {
                r: 0,
                g: 0,
                b: 0,
            })
        }),
{
    let painted = paint(buf, info, |px: int, py: int| px == x && py == y, |px: int, py: int| c);
    let o = pix_off(info, x, y);
    lemma_encode(info, x, y, 0);
    if info.pixel_format == PixelFormat::Rgb || info.pixel_format == PixelFormat::Bgr {
        lemma_encode(info, x, y, 1);
        lemma_encode(info, x, y, 2);
        assert(painted[o] == channel(info.pixel_format, c, 0));
        assert(painted[o + 1] == channel(info.pixel_format, c, 1));
        assert(painted[o + 2] == channel(info.pixel_format, c, 2));
    } else if info.pixel_format == PixelFormat::U8 {
        assert(painted[o] == channel(info.pixel_format, c, 0));
    }
}

/// Every byte belongs to the pixel and channel it decodes to.
pub proof fn lemma_decode(info: FrameBufferInfo, k: int)
    requires
        1 <= info.stride,
        1 <= info.bytes_per_pixel,
        0 <= k,
    ensures
        ({
            let (x, y, ch) = decode(info, k);
            &&& k == pix_off(info, x, y) + ch
            &&& 0 <= x < info.stride
            &&& 0 <= y
            &&& 0 <= ch < info.bytes_per_pixel
        }),
{
    let s = info.stride as int;
    let b = info.bytes_per_pixel as int;
    let p = k / b;
    vstd::arithmetic::div_mod::lemma_fundamental_div_mod(k, b);
    vstd::arithmetic::div_mod::lemma_fundamental_div_mod(p, s);
    vstd::arithmetic::div_mod::lemma_div_pos_is_pos(k, b);
    vstd::arithmetic::div_mod::lemma_div_pos_is_pos(p, s);
    assert(k == p * b + k % b) by (nonlinear_arith)
        requires
            k == b * p + k % b,
    ;
    assert(p == (p / s) * s + p % s) by (nonlinear_arith)
        requires
            p == s * (p / s) + p % s,
    ;
}

/// Painting leaves the stored colour of every pixel outside the region as it was.
pub proof fn lemma_paint_keeps(
    buf: Seq<u8>,
    info: FrameBufferInfo,
    region: spec_fn(int, int) -> bool,
    col: spec_fn(int, int) -> Rgb,
    x: int,
    y: int,
)
    requires
        info_ok(info),
        !region(x, y),
    ensures
        pixel_at(paint(buf, info, region, col), info, x, y) == pixel_at(buf, info, x, y),
{
    let nb = paint(buf, info, region, col);
    if shown(info, buf.len() as int, x, y) {
        lemma_offset_bounds(info, x, y);
        lemma_encode(info, x, y, 0);
        if info.bytes_per_pixel >= 3 {
            lemma_encode(info, x, y, 1);
            lemma_encode(info, x, y, 2);
        }
    }
}

/// Painting depends only on the region and colours of the pixels on screen.
pub proof fn lemma_paint_clip(
    buf: Seq<u8>,
    info: FrameBufferInfo,
    r1: spec_fn(int, int) -> bool,
    c1: spec_fn(int, int) -> Rgb,
    r2: spec_fn(int, int) -> bool,
    c2: spec_fn(int, int) -> Rgb,
)
    requires
        forall|px: int, py: int|
            0 <= px < info.width && 0 <= py < info.height ==> (#[trigger] r1(px, py) == r2(px, py)) && (r1(px, py)
                ==> c1(px, py) == c2(px, py)),
    ensures
        paint(buf, info, r1, c1) == paint(buf, info, r2, c2),
{
    let a = paint(buf, info, r1, c1);
    let b = paint(buf, info, r2, c2);
    assert forall|k: int| 0 <= k < a.len() implies a[k] == b[k] by {
        let (x, y, ch) = decode(info, k);
        if shown(info, buf.len() as int, x, y) {
            assert(r1(x, y) == r2(x, y));
        }
    }
    assert(a =~= b);
}

/// Painting a second region whose colours agree with the first painting's on it extends the
/// first painting to both regions.
pub proof fn lemma_paint_union(
    buf: Seq<u8>,
    info: FrameBufferInfo,
    r1: spec_fn(int, int) -> bool,
    r2: spec_fn(int, int) -> bool,
    col: spec_fn(int, int) -> Rgb,
    col2: spec_fn(int, int) -> Rgb,
)
    requires
        forall|px: int, py: int| #[trigger] r2(px, py) ==> col2(px, py) == col(px, py),
    ensures
        paint(paint(buf, info, r1, col), info, r2, col2) == paint(
            buf,
            info,
            |px: int, py: int| r1(px, py) || r2(px, py),
            col,
        ),
{
    let a = paint(paint(buf, info, r1, col), info, r2, col2);
    let b = paint(buf, info, |px: int, py: int| r1(px, py) || r2(px, py), col);
    assert forall|k: int| 0 <= k < a.len() implies a[k] == b[k] by {
        let (x, y, ch) = decode(info, k);
        if r2(x, y) {
            assert(col2(x, y) == col(x, y));
        }
    }
    assert(a =~= b);
}

/// Colour `c` laid over `bg` with opacity `a` (0..=256).
pub open spec fn blend_over(c: Rgb, bg: Rgb, a: int) -> Rgb {
    Rgb { r: mix(bg.r, c.r, a), g: mix(bg.g, c.g, a), b: mix(bg.b, c.b, a) }
}

/// The colour `c` at opacity `a` over each pixel's stored colour in `buf`.
pub open spec fn over(buf: Seq<u8>, info: FrameBufferInfo, c: Rgb, a: int) -> spec_fn(int, int) -> Rgb {
    |px: int, py: int| blend_over(c, pixel_at(buf, info, px, py), a)
}

/// Painting a region keeps the blended colours of the pixels outside it.
pub proof fn lemma_over_keeps(
    buf: Seq<u8>,
    info: FrameBufferInfo,
    region: spec_fn(int, int) -> bool,
    col: spec_fn(int, int) -> Rgb,
    r2: spec_fn(int, int) -> bool,
    c: Rgb,
    a: int,
)
    requires
        info_ok(info),
        forall|px: int, py: int| #[trigger] r2(px, py) ==> !region(px, py),
    ensures
        forall|px: int, py: int|
            #[trigger] r2(px, py) ==> over(paint(buf, info, region, col), info, c, a)(px, py) == over(buf, info, c, a)(px, py),
{
    assert forall|px: int, py: int| #[trigger] r2(px, py) implies over(paint(buf, info, region, col), info, c, a)(px, py)
        == over(buf, info, c, a)(px, py) by {
        lemma_paint_keeps(buf, info, region, col, px, py);
    }
}

fn blend_color(c: Rgb, bg: Rgb, a: u16) -> (r: Rgb)
    requires
        a <= 256,
    ensures
        r == blend_over(c, bg, a as int),
{
    Rgb { r: mix_channel(bg.r, c.r, a), g: mix_channel(bg.g, c.g, a), b: mix_channel(bg.b, c.b, a) }
}

/// A square no larger than `r * r` has its root within `-r..=r`.
pub proof fn lemma_sq_bound(d: int, e: int, r: int)
    requires
        r >= 0,
        d * d + e * e <= r * r,
    ensures
        -r <= d <= r,
        -r <= e <= r,
{
    assert(e * e >= 0 && d * d >= 0) by (nonlinear_arith);
    assert(-r <= d <= r) by (nonlinear_arith)
        requires
            r >= 0,
            d * d <= r * r,
    ;
    assert(-r <= e <= r) by (nonlinear_arith)
        requires
            r >= 0,
            e * e <= r * r,
    ;
}

/// The pixels of the disc of radius `r` around (`cx`, `cy`).
pub open spec fn in_disc(px: int, py: int, cx: int, cy: int, r: int) -> bool {
    (px - cx) * (px - cx) + (py - cy) * (py - cy) <= r * r
}

/// Linear interpolation between two colours at `t` (0..=256).
pub open spec fn lerp_spec(a: Rgb, b: Rgb, t: int) -> Rgb {
    Rgb { r: mix(a.r, b.r, t), g: mix(a.g, b.g, t), b: mix(a.b, b.b, t) }
}

/// The gradient steps of a `len`-line gradient starting at `start`, on a screen that ends at
/// `limit`, fit the 32-bit arithmetic that computes them (the lines from the screen's end on
/// are not computed, but for the first).
pub open spec fn gradient_fits(start: int, len: int, limit: int) -> bool {
    &&& len <= u32::MAX
    &&& start <= limit ==> (if len - 1 < limit - start {
        len - 1
    } else {
        limit - start
    }) * 256 <= u32::MAX
}

/// The colour of line `i` of a `len`-line gradient from `a` to `b`.
pub open spec fn gradient_color(a: Rgb, b: Rgb, i: int, len: int) -> Rgb {
    lerp_spec(a, b, i * 256 / len)
}

/// Each of `a` and `b`'s channels added, saturating at 255.
pub open spec fn add_sat(a: Rgb, b: Rgb) -> Rgb {
    Rgb {
        r: if a.r + b.r > 255 { 255 } else { (a.r + b.r) as u8 },
        g: if a.g + b.g > 255 { 255 } else { (a.g + b.g) as u8 },
        b: if a.b + b.b > 255 { 255 } else { (a.b + b.b) as u8 },
    }
}

/// Pixel (`px`, `py`) lies in the `w` by `h` rectangle at (`x`, `y`).
pub open spec fn in_rect(px: int, py: int, x: int, y: int, w: int, h: int) -> bool {
    x <= px < x + w && y <= py < y + h
}

/// `a - b`, or zero when `b` is larger.
pub open spec fn sat_sub(a: int, b: int) -> int {
    if a > b {
        a - b
    } else {
        0
    }
}

/// Byte offset of the sprite pixel that covers screen pixel (`px`, `py`) when a sprite `w`
/// pixels wide is drawn at (`x`, `y`).
pub open spec fn sprite_off(w: int, x: int, y: int, px: int, py: int) -> int {
    ((py - y) * w + (px - x)) * 4
}

/// The sprite pixels that are drawn: inside the `w` by `h` sprite, wholly in the data, and
/// not fully transparent.
pub open spec fn sprite_covers(data: Seq<u8>, w: int, h: int, x: int, y: int, px: int, py: int) -> bool {
    &&& in_rect(px, py, x, y, w, h)
    &&& sprite_off(w, x, y, px, py) + 3 < data.len()
    &&& data[sprite_off(w, x, y, px, py) + 3] > 0
}

/// The colour a sprite pixel leaves on `buf`: its colour blended over the stored one by its
/// alpha (out of 255).
pub open spec fn sprite_color(buf: Seq<u8>, info: FrameBufferInfo, data: Seq<u8>, w: int, x: int, y: int) -> spec_fn(int, int) -> Rgb {
    |px: int, py: int|
        {
            let o = sprite_off(w, x, y, px, py);
            lerp_spec(pixel_at(buf, info, px, py), Rgb { r: data[o], g: data[o + 1], b: data[o + 2] }, data[o + 3] * 256 / 255)
        }
}

/// Full opacity gives the new colour.
pub proof fn lemma_mix_full(a: u8, b: u8)
    ensures
        mix(a, b, 256) == b,
{
    assert(a * (256 - 256) + b * 256 == b * 256) by (nonlinear_arith);
    assert((b * 256) / 256 == b as int) by (nonlinear_arith);
}

/// `buf` with `c` laid at opacity `a` over the disc of radius `r` around (`cx`, `cy`).
pub open spec fn disc_over(buf: Seq<u8>, info: FrameBufferInfo, cx: int, cy: int, r: int, c: Rgb, a: int) -> Seq<u8> {
    paint(buf, info, |px: int, py: int| in_disc(px, py, cx, cy, r), over(buf, info, c, a))
}

/// Radius of glow ring `i` around a core of radius `radius`.
pub open spec fn glow_radius(radius: int, i: int) -> int {
    radius + i * radius / 3
}

/// `buf` with glow rings `n - 1` down to `0` laid over it in turn, ring `i` at opacity
/// `128 / (i + 1)`.
pub open spec fn glow_rings(buf: Seq<u8>, info: FrameBufferInfo, cx: int, cy: int, radius: int, c: Rgb, n: int) -> Seq<u8>
    decreases n,
{
    if n <= 0 {
        buf
    } else {
        glow_rings(
            disc_over(buf, info, cx, cy, glow_radius(radius, n - 1), c, 128int / n),
            info,
            cx,
            cy,
            radius,
            c,
            n - 1,
        )
    }
}

/// One of the eight points mirrored from offset (`x`, `y`) around (`cx`, `cy`).
pub open spec fn octant_point(px: int, py: int, cx: int, cy: int, x: int, y: int) -> bool {
    ||| px == cx + x && py == cy + y
    ||| px == cx + y && py == cy + x
    ||| px == cx - y && py == cy + x
    ||| px == cx - x && py == cy + y
    ||| px == cx - x && py == cy - y
    ||| px == cx - y && py == cy - x
    ||| px == cx + y && py == cy - x
    ||| px == cx + x && py == cy - y
}

/// The midpoint circle walk from offset (`x`, `y`) with error `err`: the next offset.
pub open spec fn circle_next(x: int, y: int, err: int) -> (int, int, int) {
    let y1 = y + 1;
    if err <= 0 {
        (x, y1, err + 2 * y1 + 1)
    } else {
        (x - 1, y1, err - (2 * (x - 1) - 2 * y1 + 1))
    }
}

/// The points that the circle walk draws from state (`x`, `y`, `err`) on, at the steps
/// whose index (counted from `idx`) is a multiple of `gap`.
pub open spec fn circle_pts(px: int, py: int, cx: int, cy: int, x: int, y: int, err: int, idx: int, gap: int) -> bool
    decreases x - y + 2,
{
    if x < y || x - y + 2 < 0 {
        false
    } else {
        let (x1, y1, e1) = circle_next(x, y, err);
        (idx % gap == 0 && octant_point(px, py, cx, cy, x, y)) || circle_pts(px, py, cx, cy, x1, y1, e1, idx + 1, gap)
    }
}

/// |v|.
pub open spec fn iabs(v: int) -> int {
    if v < 0 {
        -v
    } else {
        v
    }
}

/// One step of Bresenham's walk from (`x`, `y`) with error `err`, for steps `sx`, `sy` and
/// the extents `dx` (non-negative) and `dy` (non-positive).
pub open spec fn line_next(x: int, y: int, sx: int, sy: int, dx: int, dy: int, err: int) -> (int, int, int) {
    let e2 = 2 * err;
    let (x1, err1) = if e2 >= dy {
        (x + sx, err + dy)
    } else {
        (x, err)
    };
    if e2 <= dx {
        (x1, y + sy, err1 + dx)
    } else {
        (x1, y, err1)
    }
}

/// The points Bresenham's walk visits from (`x`, `y`) to (`tx`, `ty`), both ends included.
pub open spec fn line_pts(px: int, py: int, x: int, y: int, tx: int, ty: int, sx: int, sy: int, dx: int, dy: int, err: int) -> bool
    decreases iabs(tx - x) + iabs(ty - y),
{
    if px == x && py == y {
        true
    } else if x == tx && y == ty {
        false
    } else {
        let (nx, ny, ne) = line_next(x, y, sx, sy, dx, dy, err);
        if iabs(tx - nx) + iabs(ty - ny) < iabs(tx - x) + iabs(ty - y) {
            line_pts(px, py, nx, ny, tx, ty, sx, sy, dx, dy, ne)
        } else {
            false
        }
    }
}

/// The pixels of the line from (`x0`, `y0`) to (`x1`, `y1`) as Bresenham's algorithm draws it.
pub open spec fn on_line(px: int, py: int, x0: int, y0: int, x1: int, y1: int) -> bool {
    line_pts(
        px,
        py,
        x0,
        y0,
        x1,
        y1,
        if x0 < x1 { 1 } else { -1 },
        if y0 < y1 { 1 } else { -1 },
        iabs(x1 - x0),
        -iabs(y1 - y0),
        iabs(x1 - x0) - iabs(y1 - y0),
    )
}

/// The ends of tick `i` of `n` around (`cx`, `cy`): at angle `rot + i * 360 / n` degrees,
/// from `inner_len` inside the radius to `outer_len` outside it, on the integer sine table
/// (scale 1024).
pub open spec fn tick_ends(cx: int, cy: int, radius: int, n: int, inner_len: int, outer_len: int, rot: int, i: int) -> (int, int, int, int) {
    let angle = rot + (i * 360) / n;
    let c = sinish_spec(angle + 90);
    let s = sinish_spec(angle);
    let inner = if radius > inner_len { radius - inner_len } else { 0 };
    let outer = radius + outer_len;
    (
        cx + trunc_div(c * inner, 1024),
        cy + trunc_div(s * inner, 1024),
        cx + trunc_div(c * outer, 1024),
        cy + trunc_div(s * outer, 1024),
    )
}

/// Tick `i` is drawn when both of its ends are at non-negative coordinates.
pub open spec fn tick_drawn(e: (int, int, int, int)) -> bool {
    e.0 >= 0 && e.1 >= 0 && e.2 >= 0 && e.3 >= 0
}

/// `a / 1024`, rounded toward zero.
fn div1024(a: isize) -> (q: isize)
    requires
        a > isize::MIN,
    ensures
        q == trunc_div(a as int, 1024),
{
    if a < 0 {
        -((-a) / 1024)
    } else {
        a / 1024
    }
}

/// The pixels of the first `m` drawn ticks.
pub open spec fn ticks_region(px: int, py: int, cx: int, cy: int, radius: int, n: int, inner_len: int, outer_len: int, rot: int, m: int) -> bool {
    exists|k: int|
        0 <= k < m && tick_drawn(#[trigger] tick_ends(cx, cy, radius, n, inner_len, outer_len, rot, k)) && {
            let e = tick_ends(cx, cy, radius, n, inner_len, outer_len, rot, k);
            on_line(px, py, e.0, e.1, e.2, e.3)
        }
}

/// The first `i + 1` ticks cover the first `i` and tick `i` when it is drawn.
proof fn lemma_ticks_extend(px: int, py: int, cx: int, cy: int, radius: int, n: int, inner_len: int, outer_len: int, rot: int, i: int)
    requires
        0 <= i,
    ensures
        ticks_region(px, py, cx, cy, radius, n, inner_len, outer_len, rot, i + 1) == (ticks_region(px, py, cx, cy, radius, n, inner_len, outer_len, rot, i) || {
            let e = tick_ends(cx, cy, radius, n, inner_len, outer_len, rot, i);
            tick_drawn(e) && on_line(px, py, e.0, e.1, e.2, e.3)
        }),
{
    let e = tick_ends(cx, cy, radius, n, inner_len, outer_len, rot, i);
    if ticks_region(px, py, cx, cy, radius, n, inner_len, outer_len, rot, i + 1) {
        let k = choose|k: int|
            0 <= k < i + 1 && tick_drawn(#[trigger] tick_ends(cx, cy, radius, n, inner_len, outer_len, rot, k)) && {
                let e = tick_ends(cx, cy, radius, n, inner_len, outer_len, rot, k);
                on_line(px, py, e.0, e.1, e.2, e.3)
            };
        if k < i {
            assert(ticks_region(px, py, cx, cy, radius, n, inner_len, outer_len, rot, i));
        }
    }
    if ticks_region(px, py, cx, cy, radius, n, inner_len, outer_len, rot, i) {
        let k = choose|k: int|
            0 <= k < i && tick_drawn(#[trigger] tick_ends(cx, cy, radius, n, inner_len, outer_len, rot, k)) && {
                let e = tick_ends(cx, cy, radius, n, inner_len, outer_len, rot, k);
                on_line(px, py, e.0, e.1, e.2, e.3)
            };
        assert(0 <= k < i + 1);
    }
    if tick_drawn(e) && on_line(px, py, e.0, e.1, e.2, e.3) {
        assert(0 <= i < i + 1 && tick_drawn(tick_ends(cx, cy, radius, n, inner_len, outer_len, rot, i)) && {
            let e = tick_ends(cx, cy, radius, n, inner_len, outer_len, rot, i);
            on_line(px, py, e.0, e.1, e.2, e.3)
        });
        assert(ticks_region(px, py, cx, cy, radius, n, inner_len, outer_len, rot, i + 1));
    }
}

/// Drawing tick `i` (when it is drawn) extends the painting of the first `i` ticks to `i + 1`.
proof fn lemma_ticks_step(
    b0: Seq<u8>,
    info: FrameBufferInfo,
    cur: Seq<u8>,
    next: Seq<u8>,
    cx: int,
    cy: int,
    radius: int,
    n: int,
    inner_len: int,
    outer_len: int,
    rot: int,
    i: int,
    color: Rgb,
)
    requires
        0 <= i,
        cur == paint(b0, info, |px: int, py: int| ticks_region(px, py, cx, cy, radius, n, inner_len, outer_len, rot, i), |px: int, py: int| color),
        ({
            let e = tick_ends(cx, cy, radius, n, inner_len, outer_len, rot, i);
            &&& tick_drawn(e) ==> next == paint(cur, info, |px: int, py: int| on_line(px, py, e.0, e.1, e.2, e.3), |px: int, py: int| color)
            &&& !tick_drawn(e) ==> next == cur
        }),
    ensures
        next == paint(b0, info, |px: int, py: int| ticks_region(px, py, cx, cy, radius, n, inner_len, outer_len, rot, i + 1), |px: int, py: int| color),
{
    let c = |px: int, py: int| color;
    let e = tick_ends(cx, cy, radius, n, inner_len, outer_len, rot, i);
    let r1 = |px: int, py: int| ticks_region(px, py, cx, cy, radius, n, inner_len, outer_len, rot, i);
    let rn = |px: int, py: int| ticks_region(px, py, cx, cy, radius, n, inner_len, outer_len, rot, i + 1);
    let r2 = |px: int, py: int| tick_drawn(e) && on_line(px, py, e.0, e.1, e.2, e.3);
    let ru = |px: int, py: int| r1(px, py) || r2(px, py);
    assert forall|px: int, py: int|
        0 <= px < info.width && 0 <= py < info.height implies (#[trigger] ru(px, py) == rn(px, py)) && (ru(px, py) ==> c(
            px,
            py,
        ) == c(px, py)) by {
        lemma_ticks_extend(px, py, cx, cy, radius, n, inner_len, outer_len, rot, i);
    }
    lemma_paint_clip(b0, info, ru, c, rn, c);
    lemma_paint_union(b0, info, r1, r2, c, c);
    if tick_drawn(e) {
        let r3 = |px: int, py: int| on_line(px, py, e.0, e.1, e.2, e.3);
        assert forall|px: int, py: int|
            0 <= px < info.width && 0 <= py < info.height implies (#[trigger] r3(px, py) == r2(px, py)) && (r3(px, py) ==> c(
                px,
                py,
            ) == c(px, py)) by {}
        lemma_paint_clip(cur, info, r3, c, r2, c);
    } else {
        assert(paint(cur, info, r2, c) =~= cur);
    }
}

/// The ends of tick `i`, computed.
fn tick_line(cx: usize, cy: usize, radius: usize, n_ticks: usize, inner_len: usize, outer_len: usize, rotation_deg: i32, i: usize) -> (e: (isize, isize, isize, isize))
    requires
        i < n_ticks,
        n_ticks * 360 <= i32::MAX,
        rotation_deg + 360 <= i32::MAX - 90,
        1024 * (radius + outer_len) <= isize::MAX,
        cx + radius + outer_len <= isize::MAX / 32,
        cy + radius + outer_len <= isize::MAX / 32,
    ensures
        (e.0 as int, e.1 as int, e.2 as int, e.3 as int) == tick_ends(cx as int, cy as int, radius as int, n_ticks as int, inner_len as int, outer_len as int, rotation_deg as int, i as int),
        e.0 <= isize::MAX / 16 && e.1 <= isize::MAX / 16 && e.2 <= isize::MAX / 16 && e.3 <= isize::MAX / 16,
        -(isize::MAX / 32) <= e.0 && -(isize::MAX / 32) <= e.1 && -(isize::MAX / 32) <= e.2 && -(isize::MAX / 32) <= e.3,
{
    let inner = radius.saturating_sub(inner_len) as isize;
    let outer = (radius + outer_len) as isize;
    let step = (i as i32 * 360) / n_ticks as i32;
    assert(0 <= step <= 360) by (nonlinear_arith)
        requires
            step == (i * 360) / (n_ticks as int),
            i < n_ticks,
    {
        assert(i * 360 <= n_ticks * 360);
    }
    let angle = rotation_deg + step;
    let co = cosish(angle);
    let si = sinish(angle);
    assert(-1024 * outer <= co * inner <= 1024 * outer && -1024 * outer <= co * outer <= 1024 * outer
        && -1024 * outer <= si * inner <= 1024 * outer && -1024 * outer <= si * outer <= 1024 * outer) by (nonlinear_arith)
        requires
            -1024 <= co <= 1024,
            -1024 <= si <= 1024,
            0 <= inner <= outer,
    ;
    let a = div1024(co * inner);
    let b = div1024(si * inner);
    let p = div1024(co * outer);
    let q = div1024(si * outer);
    assert(-outer <= a <= outer && -outer <= b <= outer && -outer <= p <= outer && -outer <= q <= outer);
    (cx as isize + a, cy as isize + b, cx as isize + p, cy as isize + q)
}

/// How far `v` lies inside a rounded corner along one axis of the span `lo..lo + len` with
/// corner radius `r`: counted from the corner's centre line, `None` between the corners.
pub open spec fn corner_off(v: int, lo: int, len: int, r: int) -> Option<int> {
    if v < lo + r {
        Some(lo + r - v)
    } else if v >= lo + len - r {
        Some(v - (lo + len - r) + 1)
    } else {
        None
    }
}

/// Pixel (`px`, `py`) lies in the rectangle with corners rounded to radius `r`.
pub open spec fn in_rounded(px: int, py: int, x: int, y: int, w: int, h: int, r: int) -> bool {
    &&& in_rect(px, py, x, y, w, h)
    &&& !(corner_off(px, x, w, r) matches Some(dx) && corner_off(py, y, h, r) matches Some(dy) && dx * dx + dy * dy > r * r)
}

/// `c` brightened by 4 on every other pixel (a chequered frosted-glass grain).
pub open spec fn grain(c: Rgb, px: int, py: int) -> Rgb {
    if (px + py) % 2 == 0 {
        Rgb {
            r: if c.r + 4 > 255 { 255 } else { (c.r + 4) as u8 },
            g: if c.g + 4 > 255 { 255 } else { (c.g + 4) as u8 },
            b: if c.b + 4 > 255 { 255 } else { (c.b + 4) as u8 },
        }
    } else {
        c
    }
}

/// The grained colour laid at opacity `a` over each pixel of `buf`.
pub open spec fn frosted(buf: Seq<u8>, info: FrameBufferInfo, c: Rgb, a: int) -> spec_fn(int, int) -> Rgb {
    |px: int, py: int| blend_over(grain(c, px, py), pixel_at(buf, info, px, py), a)
}

/// Pixel (`px`, `py`) lies in the rectangle with its two top corners rounded to radius `r`.
pub open spec fn in_rounded_top(px: int, py: int, x: int, y: int, w: int, h: int, r: int) -> bool {
    &&& in_rect(px, py, x, y, w, h)
    &&& !(corner_off(px, x, w, r) matches Some(dx) && py < y + r && dx * dx + (y + r - py) * (y + r - py) > r * r)
}

/// Offset (`dx`, `dy`) lies on the one-pixel ring of radius `r` that a rounded outline's corner
/// draws.
pub open spec fn on_ring(dx: int, dy: int, r: int) -> bool {
    &&& 0 <= dx < r && 0 <= dy < r
    &&& dx * dx + dy * dy >= sat_sub(r * r, r)
    &&& dx * dx + dy * dy <= r * r + r
}

/// The corner pixels of a rounded outline whose ring offsets come before (`dx`, `dy`) in
/// row order (all of them for (0, `r`)).
pub open spec fn corner_pixel(px: int, py: int, x: int, y: int, w: int, h: int, r: int, ex: int, ey: int) -> bool {
    let before = |dx: int, dy: int| dy < ey || (dy == ey && dx < ex);
    ||| on_ring(x + r - px, y + r - py, r) && before(x + r - px, y + r - py)
    ||| on_ring(px - (x + w - r), y + r - py, r) && before(px - (x + w - r), y + r - py)
    ||| on_ring(x + r - px, py - (y + h - r), r) && before(x + r - px, py - (y + h - r))
    ||| on_ring(px - (x + w - r), py - (y + h - r), r) && before(px - (x + w - r), py - (y + h - r))
}

/// The pixels of a rounded outline: the four straight edges between the corners and the
/// corner rings.
pub open spec fn on_rounded_outline(px: int, py: int, x: int, y: int, w: int, h: int, r: int) -> bool {
    ||| in_rect(px, py, x + r, y, sat_sub(w, 2 * r), 1)
    ||| in_rect(px, py, x + r, y + h - 1, sat_sub(w, 2 * r), 1)
    ||| in_rect(px, py, x, y + r, 1, sat_sub(h, 2 * r))
    ||| in_rect(px, py, x + w - 1, y + r, 1, sat_sub(h, 2 * r))
    ||| corner_pixel(px, py, x, y, w, h, r, 0, r)
}

fn put(buf: &mut Vec<u8>, k: usize, v: u8)
    requires
        k < old(buf)@.len(),
    ensures
        final(buf)@ == old(buf)@.update(k as int, v),
{
    buf.set(k, v);
}

impl Display {
    /// A display drawing into `backbuffer` with geometry `info`.
    pub fn new(backbuffer: Vec<u8>, info: FrameBufferInfo) -> (d: Self)
        ensures
            d.backbuffer@ == backbuffer@ && d.info == info,
    {
        Display { backbuffer, info }
    }

    pub fn width(&self) -> (w: usize)
        ensures
            w == self.info.width,
    {
        self.info.width
    }

    pub fn height(&self) -> (h: usize)
        ensures
            h == self.info.height,
    {
        self.info.height
    }

    /// Paints pixel (`x`, `y`); pixels off screen or past the buffer are ignored.
    pub fn pixel(&mut self, x: usize, y: usize, color: Rgb)
        requires
            info_ok(old(self).info),
        ensures
            final(self).info == old(self).info,
            final(self).backbuffer@ == paint(
                old(self).backbuffer@,
                old(self).info,
                |px: int, py: int| px == x && py == y,
                |px: int, py: int| color,
            ),
    {
        let ghost b0 = self.backbuffer@;
        let ghost info = self.info;
        let ghost target = paint(b0, info, |px: int, py: int| px == x && py == y, |px: int, py: int| color);
        if x >= self.info.width || y >= self.info.height {
            assert forall|k: int| 0 <= k < b0.len() implies target[k] == b0[k] by {
                lemma_decode(info, k);
            }
            assert(target =~= b0);
            return;
        }
        proof {
            lemma_offset_bounds(info, x as int, y as int);
        }
        let byte_offset = y * self.info.stride + x;
        let byte_offset = byte_offset * self.info.bytes_per_pixel;
        if byte_offset + self.info.bytes_per_pixel > self.backbuffer.len() {
            assert forall|k: int| 0 <= k < b0.len() implies target[k] == b0[k] by {
                lemma_decode(info, k);
            }
            assert(target =~= b0);
            return;
        }
        match self.info.pixel_format {
            PixelFormat::Rgb => {
                put(&mut self.backbuffer, byte_offset, color.r);
                put(&mut self.backbuffer, byte_offset + 1, color.g);
                put(&mut self.backbuffer, byte_offset + 2, color.b);
            },
            PixelFormat::Bgr => {
                put(&mut self.backbuffer, byte_offset, color.b);
                put(&mut self.backbuffer, byte_offset + 1, color.g);
                put(&mut self.backbuffer, byte_offset + 2, color.r);
            },
            PixelFormat::U8 => {
                put(&mut self.backbuffer, byte_offset, ((color.r as u16 + color.g as u16 + color.b as u16) / 3) as u8);
            },
            PixelFormat::Unknown => {},
        }
        proof {
            let n = nch(info.pixel_format);
            assert forall|k: int| 0 <= k < b0.len() implies #[trigger] self.backbuffer@[k] == target[k] by {
                lemma_decode(info, k);
                if byte_offset <= k < byte_offset + n {
                    lemma_encode(info, x as int, y as int, k - byte_offset);
                }
            }
            assert(self.backbuffer@ =~= target);
        }
    }

    /// Paints pixels `xs..xe` of row `y` in `color`.
    fn span(&mut self, xs: usize, xe: usize, y: usize, color: Rgb)
        requires
            info_ok(old(self).info),
        ensures
            final(self).info == old(self).info,
            final(self).backbuffer@ == paint(
                old(self).backbuffer@,
                old(self).info,
                |px: int, py: int| py == y && xs <= px < xe,
                |px: int, py: int| color,
            ),
    {
        let ghost b0 = self.backbuffer@;
        let ghost info = self.info;
        let ghost c = |px: int, py: int| color;
        proof {
            assert(paint(b0, info, |px: int, py: int| py == y && xs <= px < xs, c) =~= b0);
        }
        if xs >= xe {
            proof {
                assert(paint(b0, info, |px: int, py: int| py == y && xs <= px < xe, c) =~= b0);
            }
            return;
        }
        let mut x = xs;
        while x < xe
            invariant
                self.info == info,
                info_ok(info),
                xs <= x <= xe,
                c == (|px: int, py: int| color),
                self.backbuffer@ == paint(b0, info, |px: int, py: int| py == y && xs <= px < x, c),
            decreases xe - x,
        {
            self.pixel(x, y, color);
            proof {
                let r1 = |px: int, py: int| py == y && xs <= px < x;
                let r2 = |px: int, py: int| px == x && py == y;
                lemma_paint_union(b0, info, r1, r2, c, |px: int, py: int| color);
                let ru = |px: int, py: int| r1(px, py) || r2(px, py);
                let rn = |px: int, py: int| py == y && xs <= px < x + 1;
                assert forall|px: int, py: int|
                    0 <= px < info.width && 0 <= py < info.height implies (#[trigger] ru(px, py) == rn(px, py)) && (ru(
                        px,
                        py,
                    ) ==> c(px, py) == c(px, py)) by {}
                lemma_paint_clip(b0, info, ru, c, rn, c);
            }
            x += 1;
        }
    }

    /// Paints pixels `ys..ye` of column `x` in `color`.
    fn vspan(&mut self, x: usize, ys: usize, ye: usize, color: Rgb)
        requires
            info_ok(old(self).info),
        ensures
            final(self).info == old(self).info,
            final(self).backbuffer@ == paint(
                old(self).backbuffer@,
                old(self).info,
                |px: int, py: int| px == x && ys <= py < ye,
                |px: int, py: int| color,
            ),
    {
        let ghost b0 = self.backbuffer@;
        let ghost info = self.info;
        let ghost c = |px: int, py: int| color;
        proof {
            assert(paint(b0, info, |px: int, py: int| px == x && ys <= py < ys, c) =~= b0);
        }
        if ys >= ye {
            proof {
                assert(paint(b0, info, |px: int, py: int| px == x && ys <= py < ye, c) =~= b0);
            }
            return;
        }
        let mut y = ys;
        while y < ye
            invariant
                self.info == info,
                info_ok(info),
                ys <= y <= ye,
                c == (|px: int, py: int| color),
                self.backbuffer@ == paint(b0, info, |px: int, py: int| px == x && ys <= py < y, c),
            decreases ye - y,
        {
            self.pixel(x, y, color);
            proof {
                let r1 = |px: int, py: int| px == x && ys <= py < y;
                let r2 = |px: int, py: int| px == x && py == y;
                lemma_paint_union(b0, info, r1, r2, c, |px: int, py: int| color);
                let ru = |px: int, py: int| r1(px, py) || r2(px, py);
                let rn = |px: int, py: int| px == x && ys <= py < y + 1;
                assert forall|px: int, py: int|
                    0 <= px < info.width && 0 <= py < info.height implies (#[trigger] ru(px, py) == rn(px, py)) && (ru(
                        px,
                        py,
                    ) ==> c(px, py) == c(px, py)) by {}
                lemma_paint_clip(b0, info, ru, c, rn, c);
            }
            y += 1;
        }
    }

    /// Paints the pixels `x0..x1` of row `y` (a horizontal line).
    pub fn hline(&mut self, x0: usize, x1: usize, y: usize, color: Rgb)
        requires
            info_ok(old(self).info),
        ensures
            final(self).info == old(self).info,
            final(self).backbuffer@ == paint(
                old(self).backbuffer@,
                old(self).info,
                |px: int, py: int| py == y && x0 <= px < x1,
                |px: int, py: int| color,
            ),
    {
        let ghost b0 = self.backbuffer@;
        let ghost info = self.info;
        let ghost c = |px: int, py: int| color;
        if y >= self.info.height {
            proof {
                let r = |px: int, py: int| py == y && x0 <= px < x1;
                assert forall|px: int, py: int|
                    0 <= px < info.width && 0 <= py < info.height implies (#[trigger] r(px, py) == false) && (r(px, py)
                        ==> c(px, py) == c(px, py)) by {}
                lemma_paint_clip(b0, info, r, c, |px: int, py: int| false, c);
                assert(paint(b0, info, |px: int, py: int| false, c) =~= b0);
            }
            return;
        }
        let w = self.info.width;
        let start = if x0 < w { x0 } else { w };
        let end = if x1 < w { x1 } else { w };
        self.span(start, end, y, color);
        proof {
            let r = |px: int, py: int| py == y && x0 <= px < x1;
            let rs = |px: int, py: int| py == y && start <= px < end;
            assert forall|px: int, py: int|
                0 <= px < info.width && 0 <= py < info.height implies (#[trigger] rs(px, py) == r(px, py)) && (rs(px, py)
                    ==> c(px, py) == c(px, py)) by {}
            lemma_paint_clip(b0, info, rs, c, r, c);
        }
    }

    /// Fills the rectangle of `width` by `height` pixels at (`x`, `y`), clipped to the screen.
    pub fn rect(&mut self, x: usize, y: usize, width: usize, height: usize, color: Rgb)
        requires
            info_ok(old(self).info),
        ensures
            final(self).info == old(self).info,
            final(self).backbuffer@ == paint(
                old(self).backbuffer@,
                old(self).info,
                |px: int, py: int| x <= px < x + width && y <= py < y + height,
                |px: int, py: int| color,
            ),
    {
        let ghost b0 = self.backbuffer@;
        let ghost info = self.info;
        let ghost c = |px: int, py: int| color;
        let ye = {
            let e = y.saturating_add(height);
            if e < self.info.height { e } else { self.info.height }
        };
        let xe = {
            let e = x.saturating_add(width);
            if e < self.info.width { e } else { self.info.width }
        };
        let mut row = y;
        proof {
            assert(paint(b0, info, |px: int, py: int| x <= px < xe && y <= py < y, c) =~= b0);
        }
        if row < ye {
            while row < ye
                invariant
                    self.info == info,
                    info_ok(info),
                    y <= row <= ye,
                    c == (|px: int, py: int| color),
                    self.backbuffer@ == paint(b0, info, |px: int, py: int| x <= px < xe && y <= py < row, c),
                decreases ye - row,
            {
                self.span(x, xe, row, color);
                proof {
                    let r1 = |px: int, py: int| x <= px < xe && y <= py < row;
                    let r2 = |px: int, py: int| py == row && x <= px < xe;
                    lemma_paint_union(b0, info, r1, r2, c, |px: int, py: int| color);
                    let ru = |px: int, py: int| r1(px, py) || r2(px, py);
                    let rn = |px: int, py: int| x <= px < xe && y <= py < row + 1;
                    assert forall|px: int, py: int|
                        0 <= px < info.width && 0 <= py < info.height implies (#[trigger] ru(px, py) == rn(px, py)) && (ru(
                            px,
                            py,
                        ) ==> c(px, py) == c(px, py)) by {}
                    lemma_paint_clip(b0, info, ru, c, rn, c);
                }
                row += 1;
            }
        }
        proof {
            let rd = |px: int, py: int| x <= px < xe && y <= py < row;
            let r = |px: int, py: int| x <= px < x + width && y <= py < y + height;
            assert forall|px: int, py: int|
                0 <= px < info.width && 0 <= py < info.height implies (#[trigger] rd(px, py) == r(px, py)) && (rd(px, py)
                    ==> c(px, py) == c(px, py)) by {}
            lemma_paint_clip(b0, info, rd, c, r, c);
        }
    }

    /// Fills the whole screen.
    pub fn clear(&mut self, color: Rgb)
        requires
            info_ok(old(self).info),
        ensures
            final(self).info == old(self).info,
            final(self).backbuffer@ == paint(
                old(self).backbuffer@,
                old(self).info,
                |px: int, py: int| true,
                |px: int, py: int| color,
            ),
    {
        let ghost b0 = self.backbuffer@;
        let ghost info = self.info;
        let w = self.info.width;
        let h = self.info.height;
        self.rect(0, 0, w, h, color);
        proof {
            let r = |px: int, py: int| 0 <= px < 0 + w && 0 <= py < 0 + h;
            let c = |px: int, py: int| color;
            assert forall|px: int, py: int|
                0 <= px < info.width && 0 <= py < info.height implies (#[trigger] r(px, py) == true) && (r(px, py)
                    ==> c(px, py) == c(px, py)) by {}
            lemma_paint_clip(b0, info, r, c, |px: int, py: int| true, c);
        }
    }

    /// Paints pixel (`x`, `y`) when both coordinates are non-negative.
    pub fn pixel_signed(&mut self, x: isize, y: isize, color: Rgb)
        requires
            info_ok(old(self).info),
        ensures
            final(self).info == old(self).info,
            final(self).backbuffer@ == paint(
                old(self).backbuffer@,
                old(self).info,
                |px: int, py: int| px == x && py == y,
                |px: int, py: int| color,
            ),
    {
        if x >= 0 && y >= 0 {
            self.pixel(x as usize, y as usize, color);
        } else {
            proof {
                let b0 = self.backbuffer@;
                let info = self.info;
                let r = |px: int, py: int| px == x && py == y;
                let c = |px: int, py: int| color;
                assert forall|px: int, py: int|
                    0 <= px < info.width && 0 <= py < info.height implies (#[trigger] r(px, py) == false) && (r(px, py)
                        ==> c(px, py) == c(px, py)) by {}
                lemma_paint_clip(b0, info, r, c, |px: int, py: int| false, c);
                assert(paint(b0, info, |px: int, py: int| false, c) =~= b0);
            }
        }
    }

    /// Lays `color` at opacity `a` over pixels `xs..xe` of row `y`.
    fn span_over(&mut self, xs: usize, xe: usize, y: usize, color: Rgb, a: u16)
        requires
            info_ok(old(self).info),
            a <= 256,
        ensures
            final(self).info == old(self).info,
            final(self).backbuffer@ == paint(
                old(self).backbuffer@,
                old(self).info,
                |px: int, py: int| py == y && xs <= px < xe,
                over(old(self).backbuffer@, old(self).info, color, a as int),
            ),
    {
        let ghost b0 = self.backbuffer@;
        let ghost info = self.info;
        let ghost c = over(b0, info, color, a as int);
        proof {
            assert(paint(b0, info, |px: int, py: int| py == y && xs <= px < xs, c) =~= b0);
        }
        if xs >= xe {
            proof {
                assert(paint(b0, info, |px: int, py: int| py == y && xs <= px < xe, c) =~= b0);
            }
            return;
        }
        let mut x = xs;
        while x < xe
            invariant
                self.info == info,
                info_ok(info),
                a <= 256,
                xs <= x <= xe,
                c == over(b0, info, color, a as int),
                self.backbuffer@ == paint(b0, info, |px: int, py: int| py == y && xs <= px < x, c),
            decreases xe - x,
        {
            let bg = self.read_pixel(x, y);
            let r1 = Ghost(|px: int, py: int| py == y && xs <= px < x);
            proof {
                lemma_paint_keeps(b0, info, r1@, c, x as int, y as int);
            }
            let blended = blend_color(color, bg, a);
            self.pixel(x, y, blended);
            proof {
                let r2 = |px: int, py: int| px == x && py == y;
                lemma_paint_union(b0, info, r1@, r2, c, |px: int, py: int| blended);
                let ru = |px: int, py: int| r1@(px, py) || r2(px, py);
                let rn = |px: int, py: int| py == y && xs <= px < x + 1;
                assert forall|px: int, py: int|
                    0 <= px < info.width && 0 <= py < info.height implies (#[trigger] ru(px, py) == rn(px, py)) && (ru(
                        px,
                        py,
                    ) ==> c(px, py) == c(px, py)) by {}
                lemma_paint_clip(b0, info, ru, c, rn, c);
            }
            x += 1;
        }
    }

    /// Lays `color` at opacity `alpha` (0..=256; more counts as 256) over the rectangle of
    /// `width` by `height` pixels at (`x`, `y`).
    pub fn rect_alpha(&mut self, x: usize, y: usize, width: usize, height: usize, color: Rgb, alpha: u16)
        requires
            info_ok(old(self).info),
        ensures
            final(self).info == old(self).info,
            final(self).backbuffer@ == paint(
                old(self).backbuffer@,
                old(self).info,
                |px: int, py: int| x <= px < x + width && y <= py < y + height,
                over(old(self).backbuffer@, old(self).info, color, cap256(alpha)),
            ),
    {
        let ghost b0 = self.backbuffer@;
        let ghost info = self.info;
        let a = if alpha > 256 { 256 } else { alpha };
        let ghost c = over(b0, info, color, a as int);
        let ye = {
            let e = y.saturating_add(height);
            if e < self.info.height { e } else { self.info.height }
        };
        let xe = {
            let e = x.saturating_add(width);
            if e < self.info.width { e } else { self.info.width }
        };
        let mut row = y;
        proof {
            assert(paint(b0, info, |px: int, py: int| x <= px < xe && y <= py < y, c) =~= b0);
        }
        if row < ye {
            while row < ye
                invariant
                    self.info == info,
                    info_ok(info),
                    a <= 256,
                    y <= row <= ye,
                    c == over(b0, info, color, a as int),
                    self.backbuffer@ == paint(b0, info, |px: int, py: int| x <= px < xe && y <= py < row, c),
                decreases ye - row,
            {
                let ghost cur = self.backbuffer@;
                self.span_over(x, xe, row, color, a);
                proof {
                    let r1 = |px: int, py: int| x <= px < xe && y <= py < row;
                    let r2 = |px: int, py: int| py == row && x <= px < xe;
                    lemma_over_keeps(b0, info, r1, c, r2, color, a as int);
                    lemma_paint_union(b0, info, r1, r2, c, over(cur, info, color, a as int));
                    let ru = |px: int, py: int| r1(px, py) || r2(px, py);
                    let rn = |px: int, py: int| x <= px < xe && y <= py < row + 1;
                    assert forall|px: int, py: int|
                        0 <= px < info.width && 0 <= py < info.height implies (#[trigger] ru(px, py) == rn(px, py)) && (ru(
                            px,
                            py,
                        ) ==> c(px, py) == c(px, py)) by {}
                    lemma_paint_clip(b0, info, ru, c, rn, c);
                }
                row += 1;
            }
        }
        proof {
            let rd = |px: int, py: int| x <= px < xe && y <= py < row;
            let r = |px: int, py: int| x <= px < x + width && y <= py < y + height;
            assert forall|px: int, py: int|
                0 <= px < info.width && 0 <= py < info.height implies (#[trigger] rd(px, py) == r(px, py)) && (rd(px, py)
                    ==> c(px, py) == c(px, py)) by {}
            lemma_paint_clip(b0, info, rd, c, r, c);
        }
    }

    /// Paints the pixels of row `py` inside the disc of radius `r` around (`cx`, `py - dy`).
    fn disc_row(&mut self, cx: isize, py: usize, dy: isize, r: isize, color: Rgb)
        requires
            info_ok(old(self).info),
            r >= 0,
            2 * r * r <= isize::MAX,
            cx + r <= isize::MAX,
            cx >= 0,
            -r <= dy <= r,
        ensures
            final(self).info == old(self).info,
            final(self).backbuffer@ == paint(
                old(self).backbuffer@,
                old(self).info,
                |px: int, qy: int| qy == py && in_disc(px, qy, cx as int, py - dy, r as int),
                |px: int, qy: int| color,
            ),
    {
        let ghost b0 = self.backbuffer@;
        let ghost info = self.info;
        let ghost c = |px: int, qy: int| color;
        let w = self.info.width as isize;
        let mut dx: isize = -r;
        assert(dy * dy <= r * r) by (nonlinear_arith)
            requires
                -r <= dy <= r,
                r >= 0,
        ;
        assert(r < isize::MAX) by (nonlinear_arith)
            requires
                r >= 0,
                2 * r * r <= isize::MAX,
        ;
        proof {
            let r0 = |px: int, qy: int| qy == py && in_disc(px, qy, cx as int, py - dy, r as int) && px < cx - r;
            assert forall|qx: int, qy: int|
                0 <= qx < info.width && 0 <= qy < info.height implies (#[trigger] r0(qx, qy) == false) && (r0(qx, qy)
                    ==> c(qx, qy) == c(qx, qy)) by {
                if qy == py && in_disc(qx, qy, cx as int, py - dy, r as int) {
                    lemma_sq_bound(qx - cx, qy - (py - dy), r as int);
                }
            }
            lemma_paint_clip(b0, info, r0, c, |px: int, qy: int| false, c);
            assert(paint(b0, info, |px: int, qy: int| false, c) =~= b0);
        }
        while dx <= r
            invariant
                self.info == info,
                info_ok(info),
                w == info.width,
                r >= 0,
                2 * r * r <= isize::MAX,
                cx + r <= isize::MAX,
                cx >= 0,
                r < isize::MAX,
                -r <= dy <= r,
                dy * dy <= r * r,
                -r <= dx <= r + 1,
                c == (|px: int, qy: int| color),
                self.backbuffer@ == paint(
                    b0,
                    info,
                    |px: int, qy: int| qy == py && in_disc(px, qy, cx as int, py - dy, r as int) && px < cx + dx,
                    c,
                ),
            decreases r + 1 - dx,
        {
            assert(0 <= dx * dx <= r * r && 0 <= dy * dy && r * r + r * r <= isize::MAX) by (nonlinear_arith)
                requires
                    -r <= dx <= r,
                    r >= 0,
                    2 * r * r <= isize::MAX,
            ;
            let ghost r1 = |px: int, qy: int| qy == py && in_disc(px, qy, cx as int, py - dy, r as int) && px < cx + dx;
            if dx * dx + dy * dy <= r * r {
                let px = cx + dx;
                if px >= 0 && px < w {
                    self.pixel(px as usize, py, color);
                    proof {
                        let r2 = |qx: int, qy: int| qx == px && qy == py;
                        lemma_paint_union(b0, info, r1, r2, c, |qx: int, qy: int| color);
                        let ru = |qx: int, qy: int| r1(qx, qy) || r2(qx, qy);
                        let rn = |qx: int, qy: int| qy == py && in_disc(qx, qy, cx as int, py - dy, r as int) && qx < cx + dx + 1;
                        assert forall|qx: int, qy: int|
                            0 <= qx < info.width && 0 <= qy < info.height implies (#[trigger] ru(qx, qy) == rn(qx, qy))
                                && (ru(qx, qy) ==> c(qx, qy) == c(qx, qy)) by {}
                        lemma_paint_clip(b0, info, ru, c, rn, c);
                    }
                } else {
                    proof {
                        let rn = |qx: int, qy: int| qy == py && in_disc(qx, qy, cx as int, py - dy, r as int) && qx < cx + dx + 1;
                        assert forall|qx: int, qy: int|
                            0 <= qx < info.width && 0 <= qy < info.height implies (#[trigger] r1(qx, qy) == rn(qx, qy))
                                && (r1(qx, qy) ==> c(qx, qy) == c(qx, qy)) by {}
                        lemma_paint_clip(b0, info, r1, c, rn, c);
                    }
                }
            } else {
                proof {
                    let rn = |qx: int, qy: int| qy == py && in_disc(qx, qy, cx as int, py - dy, r as int) && qx < cx + dx + 1;
                    assert forall|qx: int, qy: int|
                        0 <= qx < info.width && 0 <= qy < info.height implies (#[trigger] r1(qx, qy) == rn(qx, qy))
                            && (r1(qx, qy) ==> c(qx, qy) == c(qx, qy)) by {
                        if qx == cx + dx && qy == py {
                            assert((qy - (py - dy)) == dy);
                        }
                    }
                    lemma_paint_clip(b0, info, r1, c, rn, c);
                }
            }
            dx += 1;
        }
        proof {
            let rd = |px: int, qy: int| qy == py && in_disc(px, qy, cx as int, py - dy, r as int) && px < cx + dx;
            let rf = |px: int, qy: int| qy == py && in_disc(px, qy, cx as int, py - dy, r as int);
            assert forall|qx: int, qy: int|
                0 <= qx < info.width && 0 <= qy < info.height implies (#[trigger] rd(qx, qy) == rf(qx, qy)) && (rd(qx, qy)
                    ==> c(qx, qy) == c(qx, qy)) by {
                if rf(qx, qy) {
                    lemma_sq_bound(qx - cx, qy - (py - dy), r as int);
                }
            }
            lemma_paint_clip(b0, info, rd, c, rf, c);
        }
    }

    /// Fills the disc of radius `radius` around (`cx`, `cy`).
    pub fn circle_filled(&mut self, cx: usize, cy: usize, radius: usize, color: Rgb)
        requires
            info_ok(old(self).info),
            2 * radius * radius <= isize::MAX,
            cx + radius <= isize::MAX,
            cy + radius <= isize::MAX,
        ensures
            final(self).info == old(self).info,
            final(self).backbuffer@ == paint(
                old(self).backbuffer@,
                old(self).info,
                |px: int, py: int| in_disc(px, py, cx as int, cy as int, radius as int),
                |px: int, py: int| color,
            ),
    {
        let ghost b0 = self.backbuffer@;
        let ghost info = self.info;
        let ghost c = |px: int, py: int| color;
        let r = radius as isize;
        let h = self.info.height as isize;
        assert(r < isize::MAX) by (nonlinear_arith)
            requires
                r >= 0,
                2 * r * r <= isize::MAX,
        ;
        let mut dy: isize = -r;
        proof {
            let r0 = |px: int, py: int| in_disc(px, py, cx as int, cy as int, r as int) && py < cy - r;
            assert forall|qx: int, qy: int|
                0 <= qx < info.width && 0 <= qy < info.height implies (#[trigger] r0(qx, qy) == false) && (r0(qx, qy)
                    ==> c(qx, qy) == c(qx, qy)) by {
                if in_disc(qx, qy, cx as int, cy as int, r as int) {
                    lemma_sq_bound(qx - cx, qy - cy, r as int);
                }
            }
            lemma_paint_clip(b0, info, r0, c, |px: int, py: int| false, c);
            assert(paint(b0, info, |px: int, py: int| false, c) =~= b0);
        }
        while dy <= r
            invariant
                self.info == info,
                info_ok(info),
                h == info.height,
                r == radius,
                r < isize::MAX,
                2 * r * r <= isize::MAX,
                cx + r <= isize::MAX,
                cy + r <= isize::MAX,
                -r <= dy <= r + 1,
                c == (|px: int, py: int| color),
                self.backbuffer@ == paint(b0, info, |px: int, py: int| in_disc(px, py, cx as int, cy as int, r as int) && py < cy + dy, c),
            decreases r + 1 - dy,
        {
            let py = cy as isize + dy;
            let ghost r1 = |px: int, qy: int| in_disc(px, qy, cx as int, cy as int, r as int) && qy < cy + dy;
            let ghost rn = |px: int, qy: int| in_disc(px, qy, cx as int, cy as int, r as int) && qy < cy + dy + 1;
            if py < 0 || py >= h {
                proof {
                    assert forall|qx: int, qy: int|
                        0 <= qx < info.width && 0 <= qy < info.height implies (#[trigger] r1(qx, qy) == rn(qx, qy))
                            && (r1(qx, qy) ==> c(qx, qy) == c(qx, qy)) by {}
                    lemma_paint_clip(b0, info, r1, c, rn, c);
                }
            } else {
                self.disc_row(cx as isize, py as usize, dy, r, color);
                proof {
                    let r2 = |qx: int, qy: int| qy == py && in_disc(qx, qy, cx as int, py - dy, r as int);
                    lemma_paint_union(b0, info, r1, r2, c, |qx: int, qy: int| color);
                    let ru = |qx: int, qy: int| r1(qx, qy) || r2(qx, qy);
                    assert forall|qx: int, qy: int|
                        0 <= qx < info.width && 0 <= qy < info.height implies (#[trigger] ru(qx, qy) == rn(qx, qy))
                            && (ru(qx, qy) ==> c(qx, qy) == c(qx, qy)) by {}
                    lemma_paint_clip(b0, info, ru, c, rn, c);
                }
            }
            dy += 1;
        }
        proof {
            let rd = |px: int, py: int| in_disc(px, py, cx as int, cy as int, r as int) && py < cy + dy;
            let rf = |px: int, py: int| in_disc(px, py, cx as int, cy as int, radius as int);
            assert forall|qx: int, qy: int|
                0 <= qx < info.width && 0 <= qy < info.height implies (#[trigger] rd(qx, qy) == rf(qx, qy)) && (rd(qx, qy)
                    ==> c(qx, qy) == c(qx, qy)) by {
                if rf(qx, qy) {
                    lemma_sq_bound(qx - cx, qy - cy, r as int);
                }
            }
            lemma_paint_clip(b0, info, rd, c, rf, c);
        }
    }

    /// Lays `color` at opacity `a` over the pixels of row `py` inside the disc of radius `r`
    /// around (`cx`, `py - dy`).
    fn disc_row_over(&mut self, cx: isize, py: usize, dy: isize, r: isize, color: Rgb, a: u16)
        requires
            info_ok(old(self).info),
            a <= 256,
            r >= 0,
            2 * r * r <= isize::MAX,
            cx + r <= isize::MAX,
            cx >= 0,
            -r <= dy <= r,
        ensures
            final(self).info == old(self).info,
            final(self).backbuffer@ == paint(
                old(self).backbuffer@,
                old(self).info,
                |px: int, qy: int| qy == py && in_disc(px, qy, cx as int, py - dy, r as int),
                over(old(self).backbuffer@, old(self).info, color, a as int),
            ),
    {
        let ghost b0 = self.backbuffer@;
        let ghost info = self.info;
        let ghost c = over(b0, info, color, a as int);
        let w = self.info.width as isize;
        let mut dx: isize = -r;
        assert(dy * dy <= r * r) by (nonlinear_arith)
            requires
                -r <= dy <= r,
                r >= 0,
        ;
        assert(r < isize::MAX) by (nonlinear_arith)
            requires
                r >= 0,
                2 * r * r <= isize::MAX,
        ;
        proof {
            let r0 = |px: int, qy: int| qy == py && in_disc(px, qy, cx as int, py - dy, r as int) && px < cx - r;
            assert forall|qx: int, qy: int|
                0 <= qx < info.width && 0 <= qy < info.height implies (#[trigger] r0(qx, qy) == false) && (r0(qx, qy)
                    ==> c(qx, qy) == c(qx, qy)) by {
                if qy == py && in_disc(qx, qy, cx as int, py - dy, r as int) {
                    lemma_sq_bound(qx - cx, qy - (py - dy), r as int);
                }
            }
            lemma_paint_clip(b0, info, r0, c, |px: int, qy: int| false, c);
            assert(paint(b0, info, |px: int, qy: int| false, c) =~= b0);
        }
        while dx <= r
            invariant
                self.info == info,
                info_ok(info),
                w == info.width,
                r >= 0,
                2 * r * r <= isize::MAX,
                cx + r <= isize::MAX,
                cx >= 0,
                r < isize::MAX,
                -r <= dy <= r,
                dy * dy <= r * r,
                -r <= dx <= r + 1,
                c == over(b0, info, color, a as int),
                a <= 256,
                self.backbuffer@ == paint(
                    b0,
                    info,
                    |px: int, qy: int| qy == py && in_disc(px, qy, cx as int, py - dy, r as int) && px < cx + dx,
                    c,
                ),
            decreases r + 1 - dx,
        {
            assert(0 <= dx * dx <= r * r && 0 <= dy * dy && r * r + r * r <= isize::MAX) by (nonlinear_arith)
                requires
                    -r <= dx <= r,
                    r >= 0,
                    2 * r * r <= isize::MAX,
            ;
            let ghost r1 = |px: int, qy: int| qy == py && in_disc(px, qy, cx as int, py - dy, r as int) && px < cx + dx;
            if dx * dx + dy * dy <= r * r {
                let px = cx + dx;
                if px >= 0 && px < w {
                    let bg = self.read_pixel(px as usize, py);
                    proof {
                        lemma_paint_keeps(b0, info, r1, c, px as int, py as int);
                    }
                    let blended = blend_color(color, bg, a);
                    self.pixel(px as usize, py, blended);
                    proof {
                        let r2 = |qx: int, qy: int| qx == px && qy == py;
                        lemma_paint_union(b0, info, r1, r2, c, |qx: int, qy: int| blended);
                        let ru = |qx: int, qy: int| r1(qx, qy) || r2(qx, qy);
                        let rn = |qx: int, qy: int| qy == py && in_disc(qx, qy, cx as int, py - dy, r as int) && qx < cx + dx + 1;
                        assert forall|qx: int, qy: int|
                            0 <= qx < info.width && 0 <= qy < info.height implies (#[trigger] ru(qx, qy) == rn(qx, qy))
                                && (ru(qx, qy) ==> c(qx, qy) == c(qx, qy)) by {}
                        lemma_paint_clip(b0, info, ru, c, rn, c);
                    }
                } else {
                    proof {
                        let rn = |qx: int, qy: int| qy == py && in_disc(qx, qy, cx as int, py - dy, r as int) && qx < cx + dx + 1;
                        assert forall|qx: int, qy: int|
                            0 <= qx < info.width && 0 <= qy < info.height implies (#[trigger] r1(qx, qy) == rn(qx, qy))
                                && (r1(qx, qy) ==> c(qx, qy) == c(qx, qy)) by {}
                        lemma_paint_clip(b0, info, r1, c, rn, c);
                    }
                }
            } else {
                proof {
                    let rn = |qx: int, qy: int| qy == py && in_disc(qx, qy, cx as int, py - dy, r as int) && qx < cx + dx + 1;
                    assert forall|qx: int, qy: int|
                        0 <= qx < info.width && 0 <= qy < info.height implies (#[trigger] r1(qx, qy) == rn(qx, qy))
                            && (r1(qx, qy) ==> c(qx, qy) == c(qx, qy)) by {
                        if qx == cx + dx && qy == py {
                            assert((qy - (py - dy)) == dy);
                        }
                    }
                    lemma_paint_clip(b0, info, r1, c, rn, c);
                }
            }
            dx += 1;
        }
        proof {
            let rd = |px: int, qy: int| qy == py && in_disc(px, qy, cx as int, py - dy, r as int) && px < cx + dx;
            let rf = |px: int, qy: int| qy == py && in_disc(px, qy, cx as int, py - dy, r as int);
            assert forall|qx: int, qy: int|
                0 <= qx < info.width && 0 <= qy < info.height implies (#[trigger] rd(qx, qy) == rf(qx, qy)) && (rd(qx, qy)
                    ==> c(qx, qy) == c(qx, qy)) by {
                if rf(qx, qy) {
                    lemma_sq_bound(qx - cx, qy - (py - dy), r as int);
                }
            }
            lemma_paint_clip(b0, info, rd, c, rf, c);
        }
    }

    /// Lays `color` at opacity `alpha` (0..=256; more counts as 256) over the disc of radius
    /// `radius` around (`cx`, `cy`).
    pub fn circle_alpha(&mut self, cx: usize, cy: usize, radius: usize, color: Rgb, alpha: u16)
        requires
            info_ok(old(self).info),
            2 * radius * radius <= isize::MAX,
            cx + radius <= isize::MAX,
            cy + radius <= isize::MAX,
        ensures
            final(self).info == old(self).info,
            final(self).backbuffer@ == paint(
                old(self).backbuffer@,
                old(self).info,
                |px: int, py: int| in_disc(px, py, cx as int, cy as int, radius as int),
                over(old(self).backbuffer@, old(self).info, color, cap256(alpha)),
            ),
    {
        let ghost b0 = self.backbuffer@;
        let ghost info = self.info;
        let a = if alpha > 256 { 256 } else { alpha };
        let ghost c = over(b0, info, color, a as int);
        let r = radius as isize;
        let h = self.info.height as isize;
        assert(r < isize::MAX) by (nonlinear_arith)
            requires
                r >= 0,
                2 * r * r <= isize::MAX,
        ;
        let mut dy: isize = -r;
        proof {
            let r0 = |px: int, py: int| in_disc(px, py, cx as int, cy as int, r as int) && py < cy - r;
            assert forall|qx: int, qy: int|
                0 <= qx < info.width && 0 <= qy < info.height implies (#[trigger] r0(qx, qy) == false) && (r0(qx, qy)
                    ==> c(qx, qy) == c(qx, qy)) by {
                if in_disc(qx, qy, cx as int, cy as int, r as int) {
                    lemma_sq_bound(qx - cx, qy - cy, r as int);
                }
            }
            lemma_paint_clip(b0, info, r0, c, |px: int, py: int| false, c);
            assert(paint(b0, info, |px: int, py: int| false, c) =~= b0);
        }
        while dy <= r
            invariant
                self.info == info,
                info_ok(info),
                h == info.height,
                r == radius,
                r < isize::MAX,
                2 * r * r <= isize::MAX,
                cx + r <= isize::MAX,
                cy + r <= isize::MAX,
                -r <= dy <= r + 1,
                c == over(b0, info, color, a as int),
                a <= 256,
                self.backbuffer@ == paint(b0, info, |px: int, py: int| in_disc(px, py, cx as int, cy as int, r as int) && py < cy + dy, c),
            decreases r + 1 - dy,
        {
            let py = cy as isize + dy;
            let ghost r1 = |px: int, qy: int| in_disc(px, qy, cx as int, cy as int, r as int) && qy < cy + dy;
            let ghost rn = |px: int, qy: int| in_disc(px, qy, cx as int, cy as int, r as int) && qy < cy + dy + 1;
            if py < 0 || py >= h {
                proof {
                    assert forall|qx: int, qy: int|
                        0 <= qx < info.width && 0 <= qy < info.height implies (#[trigger] r1(qx, qy) == rn(qx, qy))
                            && (r1(qx, qy) ==> c(qx, qy) == c(qx, qy)) by {}
                    lemma_paint_clip(b0, info, r1, c, rn, c);
                }
            } else {
                let ghost cur = self.backbuffer@;
                self.disc_row_over(cx as isize, py as usize, dy, r, color, a);
                proof {
                    let r2 = |qx: int, qy: int| qy == py && in_disc(qx, qy, cx as int, py - dy, r as int);
                    lemma_over_keeps(b0, info, r1, c, r2, color, a as int);
                    lemma_paint_union(b0, info, r1, r2, c, over(cur, info, color, a as int));
                    let ru = |qx: int, qy: int| r1(qx, qy) || r2(qx, qy);
                    assert forall|qx: int, qy: int|
                        0 <= qx < info.width && 0 <= qy < info.height implies (#[trigger] ru(qx, qy) == rn(qx, qy))
                            && (ru(qx, qy) ==> c(qx, qy) == c(qx, qy)) by {}
                    lemma_paint_clip(b0, info, ru, c, rn, c);
                }
            }
            dy += 1;
        }
        proof {
            let rd = |px: int, py: int| in_disc(px, py, cx as int, cy as int, r as int) && py < cy + dy;
            let rf = |px: int, py: int| in_disc(px, py, cx as int, cy as int, radius as int);
            assert forall|qx: int, qy: int|
                0 <= qx < info.width && 0 <= qy < info.height implies (#[trigger] rd(qx, qy) == rf(qx, qy)) && (rd(qx, qy)
                    ==> c(qx, qy) == c(qx, qy)) by {
                if rf(qx, qy) {
                    lemma_sq_bound(qx - cx, qy - cy, r as int);
                }
            }
            lemma_paint_clip(b0, info, rd, c, rf, c);
        }
    }

    /// Fills the rectangle with a vertical gradient: line `i` of `height` gets `top` blended
    /// toward `bottom` by `i * 256 / height`.
    pub fn gradient_rect_v(&mut self, x: usize, y: usize, width: usize, height: usize, top_color: Rgb, bottom_color: Rgb)
        requires
            info_ok(old(self).info),
            gradient_fits(y as int, height as int, old(self).info.height as int),
        ensures
            final(self).info == old(self).info,
            final(self).backbuffer@ == paint(
                old(self).backbuffer@,
                old(self).info,
                |px: int, py: int| x <= px < x + width && y <= py < y + height,
                |px: int, py: int| gradient_color(top_color, bottom_color, py - y, height as int),
            ),
    {
        let ghost b0 = self.backbuffer@;
        let ghost info = self.info;
        let ghost c = |px: int, py: int| gradient_color(top_color, bottom_color, py - y, height as int);
        proof {
            assert(paint(b0, info, |px: int, py: int| x <= px < x + width && y <= py < y + 0, c) =~= b0);
        }
        if height == 0 {
            proof {
                assert(paint(b0, info, |px: int, py: int| x <= px < x + width && y <= py < y + height, c) =~= b0);
            }
            return;
        }
        let xe = {
            let e = x.saturating_add(width);
            if e < self.info.width { e } else { self.info.width }
        };
        let hh = self.info.height;
        let mut row: usize = 0;
        while row < height
            invariant_except_break
                self.info == info,
                info_ok(info),
                hh == info.height,
                xe as int == (if x + width < info.width { x + width } else { info.width as int }),
                gradient_fits(y as int, height as int, hh as int),
                height > 0,
                row <= height,
                row == 0 || y + row <= hh,
                c == (|px: int, py: int| gradient_color(top_color, bottom_color, py - y, height as int)),
                self.backbuffer@ == paint(b0, info, |px: int, py: int| x <= px < x + width && y <= py < y + row, c),
            ensures
                self.info == info,
                info_ok(info),
                row == height || y + row >= hh,
                row <= height,
                self.backbuffer@ == paint(b0, info, |px: int, py: int| x <= px < x + width && y <= py < y + row, c),
            decreases height - row,
        {
            assert(row * 256 <= u32::MAX);
            let v32 = row as u32;
            let l32 = height as u32;
            let q = (v32 * 256) / l32;
            assert(q < 256) by (nonlinear_arith)
                requires
                    q == (v32 * 256) / (l32 as int),
                    v32 < l32,
            {
                assert(v32 * 256 < l32 * 256);
            }
            let t = q as u16;
            assert(t == (row * 256) / (height as int));
            let color = top_color.lerp(bottom_color, t);
            let py = y + row;
            if py >= hh {
                break;
            }
            self.span(x, xe, py, color);
            proof {
                let r1 = |px: int, qy: int| x <= px < x + width && y <= qy < y + row;
                let r2 = |px: int, qy: int| qy == py && x <= px < xe;
                assert forall|px: int, qy: int| #[trigger] r2(px, qy) implies color == c(px, qy) by {}
                lemma_paint_union(b0, info, r1, r2, c, |px: int, qy: int| color);
                let ru = |px: int, qy: int| r1(px, qy) || r2(px, qy);
                let rn = |px: int, qy: int| x <= px < x + width && y <= qy < y + row + 1;
                assert forall|qx: int, qy: int|
                    0 <= qx < info.width && 0 <= qy < info.height implies (#[trigger] ru(qx, qy) == rn(qx, qy)) && (ru(
                        qx,
                        qy,
                    ) ==> c(qx, qy) == c(qx, qy)) by {}
                lemma_paint_clip(b0, info, ru, c, rn, c);
            }
            row += 1;
        }
        proof {
            let rd = |px: int, py: int| x <= px < x + width && y <= py < y + row;
            let rf = |px: int, py: int| x <= px < x + width && y <= py < y + height;
            assert forall|qx: int, qy: int|
                0 <= qx < info.width && 0 <= qy < info.height implies (#[trigger] rd(qx, qy) == rf(qx, qy)) && (rd(qx, qy)
                    ==> c(qx, qy) == c(qx, qy)) by {}
            lemma_paint_clip(b0, info, rd, c, rf, c);
        }
    }

    /// Fills the rectangle with a horizontal gradient: column `i` of `width` gets
    /// `left_color` blended toward `right_color` by `i * 256 / width`.
    pub fn gradient_rect_h(&mut self, x: usize, y: usize, width: usize, height: usize, left_color: Rgb, right_color: Rgb)
        requires
            info_ok(old(self).info),
            gradient_fits(x as int, width as int, old(self).info.width as int),
        ensures
            final(self).info == old(self).info,
            final(self).backbuffer@ == paint(
                old(self).backbuffer@,
                old(self).info,
                |px: int, py: int| x <= px < x + width && y <= py < y + height,
                |px: int, py: int| gradient_color(left_color, right_color, px - x, width as int),
            ),
    {
        let ghost b0 = self.backbuffer@;
        let ghost info = self.info;
        let ghost c = |px: int, py: int| gradient_color(left_color, right_color, px - x, width as int);
        proof {
            assert(paint(b0, info, |px: int, py: int| x <= px < x + 0 && y <= py < y + height, c) =~= b0);
        }
        if width == 0 {
            proof {
                assert(paint(b0, info, |px: int, py: int| x <= px < x + width && y <= py < y + height, c) =~= b0);
            }
            return;
        }
        let ye = {
            let e = y.saturating_add(height);
            if e < self.info.height { e } else { self.info.height }
        };
        let ww = self.info.width;
        let mut col: usize = 0;
        while col < width
            invariant_except_break
                self.info == info,
                info_ok(info),
                ww == info.width,
                ye as int == (if y + height < info.height { y + height } else { info.height as int }),
                gradient_fits(x as int, width as int, ww as int),
                width > 0,
                col <= width,
                col == 0 || x + col <= ww,
                c == (|px: int, py: int| gradient_color(left_color, right_color, px - x, width as int)),
                self.backbuffer@ == paint(b0, info, |px: int, py: int| x <= px < x + col && y <= py < y + height, c),
            ensures
                self.info == info,
                info_ok(info),
                col == width || x + col >= ww,
                col <= width,
                self.backbuffer@ == paint(b0, info, |px: int, py: int| x <= px < x + col && y <= py < y + height, c),
            decreases width - col,
        {
            assert(col * 256 <= u32::MAX);
            let v32 = col as u32;
            let l32 = width as u32;
            let q = (v32 * 256) / l32;
            assert(q < 256) by (nonlinear_arith)
                requires
                    q == (v32 * 256) / (l32 as int),
                    v32 < l32,
            {
                assert(v32 * 256 < l32 * 256);
            }
            let t = q as u16;
            assert(t == (col * 256) / (width as int));
            let color = left_color.lerp(right_color, t);
            let px = x + col;
            if px >= ww {
                break;
            }
            self.vspan(px, y, ye, color);
            proof {
                let r1 = |qx: int, qy: int| x <= qx < x + col && y <= qy < y + height;
                let r2 = |qx: int, qy: int| qx == px && y <= qy < ye;
                assert forall|qx: int, qy: int| #[trigger] r2(qx, qy) implies color == c(qx, qy) by {}
                lemma_paint_union(b0, info, r1, r2, c, |qx: int, qy: int| color);
                let ru = |qx: int, qy: int| r1(qx, qy) || r2(qx, qy);
                let rn = |qx: int, qy: int| x <= qx < x + col + 1 && y <= qy < y + height;
                assert forall|qx: int, qy: int|
                    0 <= qx < info.width && 0 <= qy < info.height implies (#[trigger] ru(qx, qy) == rn(qx, qy)) && (ru(
                        qx,
                        qy,
                    ) ==> c(qx, qy) == c(qx, qy)) by {}
                lemma_paint_clip(b0, info, ru, c, rn, c);
            }
            col += 1;
        }
        proof {
            let rd = |qx: int, qy: int| x <= qx < x + col && y <= qy < y + height;
            let rf = |qx: int, qy: int| x <= qx < x + width && y <= qy < y + height;
            assert forall|qx: int, qy: int|
                0 <= qx < info.width && 0 <= qy < info.height implies (#[trigger] rd(qx, qy) == rf(qx, qy)) && (rd(qx, qy)
                    ==> c(qx, qy) == c(qx, qy)) by {}
            lemma_paint_clip(b0, info, rd, c, rf, c);
        }
    }

    /// Adds `color` to pixel (`x`, `y`), each channel saturating at 255.
    pub fn pixel_add(&mut self, x: usize, y: usize, color: Rgb)
        requires
            info_ok(old(self).info),
        ensures
            final(self).info == old(self).info,
            final(self).backbuffer@ == paint(
                old(self).backbuffer@,
                old(self).info,
                |px: int, py: int| px == x && py == y,
                |px: int, py: int| add_sat(pixel_at(old(self).backbuffer@, old(self).info, x as int, y as int), color),
            ),
    {
        if x >= self.info.width || y >= self.info.height {
            proof {
                let b0 = self.backbuffer@;
                let info = self.info;
                let r = |px: int, py: int| px == x && py == y;
                let c = |px: int, py: int| add_sat(pixel_at(b0, info, x as int, y as int), color);
                assert forall|px: int, py: int|
                    0 <= px < info.width && 0 <= py < info.height implies (#[trigger] r(px, py) == false) && (r(px, py)
                        ==> c(px, py) == c(px, py)) by {}
                lemma_paint_clip(b0, info, r, c, |px: int, py: int| false, c);
                assert(paint(b0, info, |px: int, py: int| false, c) =~= b0);
            }
            return;
        }
        let cur = self.read_pixel(x, y);
        self.pixel(x, y, Rgb::new(cur.r.saturating_add(color.r), cur.g.saturating_add(color.g), cur.b.saturating_add(color.b)));
    }

    /// Blends `color` over pixel (`x`, `y`) with opacity `alpha` (0..=255); zero leaves it.
    pub fn pixel_alpha(&mut self, x: usize, y: usize, color: Rgb, alpha: u8)
        requires
            info_ok(old(self).info),
        ensures
            final(self).info == old(self).info,
            alpha == 0 ==> final(self).backbuffer@ == old(self).backbuffer@,
            alpha != 0 ==> final(self).backbuffer@ == paint(
                old(self).backbuffer@,
                old(self).info,
                |px: int, py: int| px == x && py == y,
                |px: int, py: int| lerp_spec(pixel_at(old(self).backbuffer@, old(self).info, x as int, y as int), color, alpha * 256 / 255),
            ),
    {
        let ghost b0 = self.backbuffer@;
        let ghost info = self.info;
        let ghost c = |px: int, py: int| lerp_spec(pixel_at(b0, info, x as int, y as int), color, alpha * 256 / 255);
        if x >= self.info.width || y >= self.info.height || alpha == 0 {
            proof {
                let r = |px: int, py: int| px == x && py == y;
                assert forall|px: int, py: int|
                    0 <= px < info.width && 0 <= py < info.height && alpha != 0 implies (#[trigger] r(px, py) == false) && (r(px, py)
                        ==> c(px, py) == c(px, py)) by {}
                if alpha != 0 {
                    lemma_paint_clip(b0, info, r, c, |px: int, py: int| false, c);
                    assert(paint(b0, info, |px: int, py: int| false, c) =~= b0);
                }
            }
            return;
        }
        if alpha == 255 {
            proof {
                let bg = pixel_at(b0, info, x as int, y as int);
                lemma_mix_full(bg.r, color.r);
                lemma_mix_full(bg.g, color.g);
                lemma_mix_full(bg.b, color.b);
                assert(lerp_spec(bg, color, 256) == color);
                assert(c(x as int, y as int) == color);
                let r = |px: int, py: int| px == x && py == y;
                assert forall|px: int, py: int|
                    0 <= px < info.width && 0 <= py < info.height implies (#[trigger] r(px, py) == r(px, py)) && (r(px, py)
                        ==> (|px: int, py: int| color)(px, py) == c(px, py)) by {}
                lemma_paint_clip(b0, info, r, |px: int, py: int| color, r, c);
            }
            self.pixel(x, y, color);
            return;
        }
        let cur = self.read_pixel(x, y);
        let t = (alpha as u16) * 256 / 255;
        let blended = cur.lerp(color, t);
        self.pixel(x, y, blended);
    }

    /// `c1` blended toward `c2` by `ratio` (0..=256).
    pub fn blend(c1: Rgb, c2: Rgb, ratio: u16) -> (c: Rgb)
        ensures
            c == lerp_spec(c1, c2, cap256(ratio)),
    {
        c1.lerp(c2, ratio)
    }

    /// Draws a two-pixel frame: bands of two pixels along the top, bottom, left and right
    /// edges of the rectangle.
    pub fn rect_outline(&mut self, x: usize, y: usize, width: usize, height: usize, color: Rgb)
        requires
            info_ok(old(self).info),
            y + sat_sub(height as int, 2) <= usize::MAX,
            x + sat_sub(width as int, 2) <= usize::MAX,
        ensures
            final(self).info == old(self).info,
            final(self).backbuffer@ == paint(
                old(self).backbuffer@,
                old(self).info,
                |px: int, py: int|
                    in_rect(px, py, x as int, y as int, width as int, 2) || in_rect(
                        px,
                        py,
                        x as int,
                        y + sat_sub(height as int, 2),
                        width as int,
                        2,
                    ) || in_rect(px, py, x as int, y as int, 2, height as int) || in_rect(
                        px,
                        py,
                        x + sat_sub(width as int, 2),
                        y as int,
                        2,
                        height as int,
                    ),
                |px: int, py: int| color,
            ),
    {
        let ghost b0 = self.backbuffer@;
        let ghost info = self.info;
        let ghost c = |px: int, py: int| color;
        let yb = y + height.saturating_sub(2);
        let xr = x + width.saturating_sub(2);
        self.rect(x, y, width, 2, color);
        self.rect(x, yb, width, 2, color);
        self.rect(x, y, 2, height, color);
        self.rect(xr, y, 2, height, color);
        proof {
            let r1 = |px: int, py: int| x <= px < x + width && y <= py < y + 2;
            let r2 = |px: int, py: int| x <= px < x + width && yb <= py < yb + 2;
            let r3 = |px: int, py: int| x <= px < x + 2 && y <= py < y + height;
            let r4 = |px: int, py: int| xr <= px < xr + 2 && y <= py < y + height;
            lemma_paint_union(b0, info, r1, r2, c, c);
            let r12 = |px: int, py: int| r1(px, py) || r2(px, py);
            lemma_paint_union(b0, info, r12, r3, c, c);
            let r123 = |px: int, py: int| r12(px, py) || r3(px, py);
            lemma_paint_union(b0, info, r123, r4, c, c);
            let ru = |px: int, py: int| r123(px, py) || r4(px, py);
            let rf = |px: int, py: int|
                in_rect(px, py, x as int, y as int, width as int, 2) || in_rect(
                    px,
                    py,
                    x as int,
                    y + sat_sub(height as int, 2),
                    width as int,
                    2,
                ) || in_rect(px, py, x as int, y as int, 2, height as int) || in_rect(
                    px,
                    py,
                    x + sat_sub(width as int, 2),
                    y as int,
                    2,
                    height as int,
                );
            assert forall|qx: int, qy: int|
                0 <= qx < info.width && 0 <= qy < info.height implies (#[trigger] ru(qx, qy) == rf(qx, qy)) && (ru(qx, qy)
                    ==> c(qx, qy) == c(qx, qy)) by {}
            lemma_paint_clip(b0, info, ru, c, rf, c);
        }
    }

    /// Draws a one-pixel frame: the top and bottom lines and the left and right columns of
    /// the rectangle.
    pub fn rect_outline_1px(&mut self, x: usize, y: usize, width: usize, height: usize, color: Rgb)
        requires
            info_ok(old(self).info),
            y + sat_sub(height as int, 1) <= usize::MAX,
            x + sat_sub(width as int, 1) <= usize::MAX,
        ensures
            final(self).info == old(self).info,
            final(self).backbuffer@ == paint(
                old(self).backbuffer@,
                old(self).info,
                |px: int, py: int|
                    in_rect(px, py, x as int, y as int, width as int, 1) || in_rect(
                        px,
                        py,
                        x as int,
                        y + sat_sub(height as int, 1),
                        width as int,
                        1,
                    ) || in_rect(px, py, x as int, y as int, 1, height as int) || in_rect(
                        px,
                        py,
                        x + sat_sub(width as int, 1),
                        y as int,
                        1,
                        height as int,
                    ),
                |px: int, py: int| color,
            ),
    {
        let ghost b0 = self.backbuffer@;
        let ghost info = self.info;
        let ghost c = |px: int, py: int| color;
        let xe = {
            let e = x.saturating_add(width);
            if e < self.info.width { e } else { self.info.width }
        };
        let ye = {
            let e = y.saturating_add(height);
            if e < self.info.height { e } else { self.info.height }
        };
        let bottom = y + height.saturating_sub(1);
        let right = x + width.saturating_sub(1);
        self.span(x, xe, y, color);
        self.span(x, xe, bottom, color);
        self.vspan(x, y, ye, color);
        self.vspan(right, y, ye, color);
        proof {
            let r1 = |px: int, py: int| py == y && x <= px < xe;
            let r2 = |px: int, py: int| py == bottom && x <= px < xe;
            let r3 = |px: int, py: int| px == x && y <= py < ye;
            let r4 = |px: int, py: int| px == right && y <= py < ye;
            lemma_paint_union(b0, info, r1, r2, c, c);
            let r12 = |px: int, py: int| r1(px, py) || r2(px, py);
            lemma_paint_union(b0, info, r12, r3, c, c);
            let r123 = |px: int, py: int| r12(px, py) || r3(px, py);
            lemma_paint_union(b0, info, r123, r4, c, c);
            let ru = |px: int, py: int| r123(px, py) || r4(px, py);
            let rf = |px: int, py: int|
                in_rect(px, py, x as int, y as int, width as int, 1) || in_rect(
                    px,
                    py,
                    x as int,
                    y + sat_sub(height as int, 1),
                    width as int,
                    1,
                ) || in_rect(px, py, x as int, y as int, 1, height as int) || in_rect(
                    px,
                    py,
                    x + sat_sub(width as int, 1),
                    y as int,
                    1,
                    height as int,
                );
            assert forall|qx: int, qy: int|
                0 <= qx < info.width && 0 <= qy < info.height implies (#[trigger] ru(qx, qy) == rf(qx, qy)) && (ru(qx, qy)
                    ==> c(qx, qy) == c(qx, qy)) by {}
            lemma_paint_clip(b0, info, ru, c, rf, c);
        }
    }

    fn sprite_row(&mut self, x: usize, y: usize, row: usize, w: usize, h: usize, data: &[u8])
        requires
            info_ok(old(self).info),
            row < h,
            w * h * 4 <= usize::MAX,
            y + row < old(self).info.height,
        ensures
            final(self).info == old(self).info,
            final(self).backbuffer@ == paint(
                old(self).backbuffer@,
                old(self).info,
                |px: int, py: int| py == y + row && sprite_covers(data@, w as int, h as int, x as int, y as int, px, py),
                sprite_color(old(self).backbuffer@, old(self).info, data@, w as int, x as int, y as int),
            ),
    {
        let ghost b0 = self.backbuffer@;
        let ghost info = self.info;
        let ghost c = sprite_color(b0, info, data@, w as int, x as int, y as int);
        let py = y + row;
        let ww = self.info.width;
        proof {
            assert(paint(b0, info, |px: int, qy: int| qy == py && sprite_covers(data@, w as int, h as int, x as int, y as int, px, qy) && px < x + 0, c) =~= b0);
        }
        let mut col: usize = 0;
        while col < w
            invariant_except_break
                self.info == info,
                info_ok(info),
                ww == info.width,
                py == y + row,
                py < info.height,
                row < h,
                w * h * 4 <= usize::MAX,
                col <= w,
                col == 0 || x + col <= ww,
                c == sprite_color(b0, info, data@, w as int, x as int, y as int),
                self.backbuffer@ == paint(b0, info, |px: int, qy: int| qy == py && sprite_covers(data@, w as int, h as int, x as int, y as int, px, qy) && px < x + col, c),
            ensures
                self.info == info,
                col == w || x + col >= ww,
                self.backbuffer@ == paint(b0, info, |px: int, qy: int| qy == py && sprite_covers(data@, w as int, h as int, x as int, y as int, px, qy) && px < x + col, c),
            decreases w - col,
        {
            let px = x + col;
            if px >= ww {
                break;
            }
            assert((row * w + col) * 4 + 4 <= w * h * 4) by (nonlinear_arith)
                requires
                    row < h,
                    col < w,
            {
                assert(row * w + col + 1 <= (row + 1) * w);
                assert((row + 1) * w <= h * w);
            }
            let offset = (row * w + col) * 4;
            let ghost r1 = |qx: int, qy: int| qy == py && sprite_covers(data@, w as int, h as int, x as int, y as int, qx, qy) && qx < x + col;
            let ghost rn = |qx: int, qy: int| qy == py && sprite_covers(data@, w as int, h as int, x as int, y as int, qx, qy) && qx < x + col + 1;
            proof {
                assert(sprite_off(w as int, x as int, y as int, px as int, py as int) == offset);
            }
            if offset + 3 < data.len() {
                let r = data[offset];
                let g = data[offset + 1];
                let b = data[offset + 2];
                let a = data[offset + 3];
                if a > 0 {
                    proof {
                        lemma_paint_keeps(b0, info, r1, c, px as int, py as int);
                    }
                    self.pixel_alpha(px, py, Rgb::new(r, g, b), a);
                    proof {
                        let r2 = |qx: int, qy: int| qx == px && qy == py;
                        let c2 = |qx: int, qy: int| lerp_spec(pixel_at(paint(b0, info, r1, c), info, px as int, py as int), Rgb { r, g, b }, a * 256 / 255);
                        assert forall|qx: int, qy: int| #[trigger] r2(qx, qy) implies c2(qx, qy) == c(qx, qy) by {}
                        lemma_paint_union(b0, info, r1, r2, c, c2);
                        let ru = |qx: int, qy: int| r1(qx, qy) || r2(qx, qy);
                        assert forall|qx: int, qy: int|
                            0 <= qx < info.width && 0 <= qy < info.height implies (#[trigger] ru(qx, qy) == rn(qx, qy))
                                && (ru(qx, qy) ==> c(qx, qy) == c(qx, qy)) by {}
                        lemma_paint_clip(b0, info, ru, c, rn, c);
                    }
                } else {
                    proof {
                        assert forall|qx: int, qy: int|
                            0 <= qx < info.width && 0 <= qy < info.height implies (#[trigger] r1(qx, qy) == rn(qx, qy))
                                && (r1(qx, qy) ==> c(qx, qy) == c(qx, qy)) by {}
                        lemma_paint_clip(b0, info, r1, c, rn, c);
                    }
                }
            } else {
                proof {
                    assert forall|qx: int, qy: int|
                        0 <= qx < info.width && 0 <= qy < info.height implies (#[trigger] r1(qx, qy) == rn(qx, qy))
                            && (r1(qx, qy) ==> c(qx, qy) == c(qx, qy)) by {}
                    lemma_paint_clip(b0, info, r1, c, rn, c);
                }
            }
            col += 1;
        }
        proof {
            let rd = |qx: int, qy: int| qy == py && sprite_covers(data@, w as int, h as int, x as int, y as int, qx, qy) && qx < x + col;
            let rf = |qx: int, qy: int| qy == y + row && sprite_covers(data@, w as int, h as int, x as int, y as int, qx, qy);
            assert forall|qx: int, qy: int|
                0 <= qx < info.width && 0 <= qy < info.height implies (#[trigger] rd(qx, qy) == rf(qx, qy)) && (rd(qx, qy)
                    ==> c(qx, qy) == c(qx, qy)) by {}
            lemma_paint_clip(b0, info, rd, c, rf, c);
        }
    }

    /// Draws a `w` by `h` RGBA sprite at (`x`, `y`): each pixel with non-zero alpha is blended
    /// over the screen by its alpha; pixels off screen or beyond the data are skipped.
    pub fn blit_rgba_sprite(&mut self, x: usize, y: usize, w: usize, h: usize, data: &[u8])
        requires
            info_ok(old(self).info),
            w * h * 4 <= usize::MAX,
        ensures
            final(self).info == old(self).info,
            final(self).backbuffer@ == paint(
                old(self).backbuffer@,
                old(self).info,
                |px: int, py: int| sprite_covers(data@, w as int, h as int, x as int, y as int, px, py),
                sprite_color(old(self).backbuffer@, old(self).info, data@, w as int, x as int, y as int),
            ),
    {
        let ghost b0 = self.backbuffer@;
        let ghost info = self.info;
        let ghost c = sprite_color(b0, info, data@, w as int, x as int, y as int);
        let hh = self.info.height;
        proof {
            assert(paint(b0, info, |px: int, py: int| sprite_covers(data@, w as int, h as int, x as int, y as int, px, py) && py < y + 0, c) =~= b0);
        }
        let mut row: usize = 0;
        while row < h
            invariant_except_break
                self.info == info,
                info_ok(info),
                hh == info.height,
                w * h * 4 <= usize::MAX,
                row <= h,
                row == 0 || y + row <= hh,
                c == sprite_color(b0, info, data@, w as int, x as int, y as int),
                self.backbuffer@ == paint(b0, info, |px: int, py: int| sprite_covers(data@, w as int, h as int, x as int, y as int, px, py) && py < y + row, c),
            ensures
                self.info == info,
                row == h || y + row >= hh,
                self.backbuffer@ == paint(b0, info, |px: int, py: int| sprite_covers(data@, w as int, h as int, x as int, y as int, px, py) && py < y + row, c),
            decreases h - row,
        {
            let py = y + row;
            if py >= hh {
                break;
            }
            let ghost cur = self.backbuffer@;
            self.sprite_row(x, y, row, w, h, data);
            proof {
                let r1 = |px: int, qy: int| sprite_covers(data@, w as int, h as int, x as int, y as int, px, qy) && qy < y + row;
                let r2 = |px: int, qy: int| qy == y + row && sprite_covers(data@, w as int, h as int, x as int, y as int, px, qy);
                let c2 = sprite_color(cur, info, data@, w as int, x as int, y as int);
                assert forall|px: int, qy: int| #[trigger] r2(px, qy) implies c2(px, qy) == c(px, qy) by {
                    lemma_paint_keeps(b0, info, r1, c, px, qy);
                }
                lemma_paint_union(b0, info, r1, r2, c, c2);
                let ru = |px: int, qy: int| r1(px, qy) || r2(px, qy);
                let rn = |px: int, qy: int| sprite_covers(data@, w as int, h as int, x as int, y as int, px, qy) && qy < y + row + 1;
                assert forall|qx: int, qy: int|
                    0 <= qx < info.width && 0 <= qy < info.height implies (#[trigger] ru(qx, qy) == rn(qx, qy)) && (ru(qx, qy)
                        ==> c(qx, qy) == c(qx, qy)) by {}
                lemma_paint_clip(b0, info, ru, c, rn, c);
            }
            row += 1;
        }
        proof {
            let rd = |px: int, qy: int| sprite_covers(data@, w as int, h as int, x as int, y as int, px, qy) && qy < y + row;
            let rf = |px: int, qy: int| sprite_covers(data@, w as int, h as int, x as int, y as int, px, qy);
            assert forall|qx: int, qy: int|
                0 <= qx < info.width && 0 <= qy < info.height implies (#[trigger] rd(qx, qy) == rf(qx, qy)) && (rd(qx, qy)
                    ==> c(qx, qy) == c(qx, qy)) by {}
            lemma_paint_clip(b0, info, rd, c, rf, c);
        }
    }

    /// Draws a glowing orb: fifteen widening rings of fading opacity, a core at opacity 200
    /// and a white centre of half the radius at opacity 100.
    pub fn draw_glow_orb(&mut self, cx: usize, cy: usize, radius: usize, color: Rgb)
        requires
            info_ok(old(self).info),
            2 * glow_radius(radius as int, 14) * glow_radius(radius as int, 14) <= isize::MAX,
            cx + glow_radius(radius as int, 14) <= isize::MAX,
            cy + glow_radius(radius as int, 14) <= isize::MAX,
        ensures
            final(self).info == old(self).info,
            final(self).backbuffer@ == disc_over(
                disc_over(
                    glow_rings(old(self).backbuffer@, old(self).info, cx as int, cy as int, radius as int, color, 15),
                    old(self).info,
                    cx as int,
                    cy as int,
                    radius as int,
                    color,
                    200,
                ),
                old(self).info,
                cx as int,
                cy as int,
                (radius / 2) as int,
                Rgb { r: 255, g: 255, b: 255 },
                100,
            ),
    {
        let ghost b0 = self.backbuffer@;
        let ghost info = self.info;
        let ghost rmax = glow_radius(radius as int, 14);
        let mut i: usize = 15;
        while i > 0
            invariant
                self.info == info,
                info_ok(info),
                i <= 15,
                rmax == glow_radius(radius as int, 14),
                2 * rmax * rmax <= isize::MAX,
                cx + rmax <= isize::MAX,
                cy + rmax <= isize::MAX,
                glow_rings(self.backbuffer@, info, cx as int, cy as int, radius as int, color, i as int) == glow_rings(
                    b0,
                    info,
                    cx as int,
                    cy as int,
                    radius as int,
                    color,
                    15,
                ),
            decreases i,
        {
            let k = i - 1;
            assert(glow_radius(radius as int, k as int) <= rmax && glow_radius(radius as int, k as int) >= 0) by (nonlinear_arith)
                requires
                    0 <= k <= 14,
                    radius >= 0,
                    rmax == glow_radius(radius as int, 14),
            {
                assert(k * radius <= 14 * radius);
                assert(k * radius / 3 <= 14 * radius / 3);
            }
            assert(2 * glow_radius(radius as int, k as int) * glow_radius(radius as int, k as int) <= isize::MAX) by (nonlinear_arith)
                requires
                    0 <= glow_radius(radius as int, k as int) <= rmax,
                    2 * rmax * rmax <= isize::MAX,
            ;
            assert(usize::MAX == 2 * isize::MAX + 1);
            assert(k * radius <= usize::MAX) by (nonlinear_arith)
                requires
                    0 <= k <= 14,
                    radius >= 0,
                    rmax == glow_radius(radius as int, 14),
                    2 * rmax * rmax <= isize::MAX,
                    usize::MAX == 2 * isize::MAX + 1,
            {
                assert(k * radius <= 14 * radius);
                assert(14 * radius <= 3 * rmax + 3);
                if rmax >= 1 {
                    assert(rmax <= rmax * rmax);
                }
            }
            let r = radius + k * radius / 3;
            let alpha = (128 / (k + 1)) as u16;
            self.circle_alpha(cx, cy, r, color, alpha);
            i -= 1;
        }
        assert(0 <= radius as int <= rmax) by (nonlinear_arith)
            requires
                rmax == glow_radius(radius as int, 14),
                radius >= 0,
        ;
        assert(2 * radius * radius <= isize::MAX) by (nonlinear_arith)
            requires
                0 <= radius <= rmax,
                2 * rmax * rmax <= isize::MAX,
        ;
        self.circle_alpha(cx, cy, radius, color, 200);
        assert(2 * (radius / 2) * (radius / 2) <= isize::MAX) by (nonlinear_arith)
            requires
                0 <= radius,
                2 * radius * radius <= isize::MAX,
        {
            assert(radius / 2 <= radius);
        }
        self.circle_alpha(cx, cy, radius / 2, Rgb::new(255, 255, 255), 100);
    }

    fn octants(&mut self, cx: usize, cy: usize, x: isize, y: isize, color: Rgb)
        requires
            info_ok(old(self).info),
            0 <= y <= x,
            cx + x <= isize::MAX,
            cy + x <= isize::MAX,
        ensures
            final(self).info == old(self).info,
            final(self).backbuffer@ == paint(
                old(self).backbuffer@,
                old(self).info,
                |px: int, py: int| octant_point(px, py, cx as int, cy as int, x as int, y as int),
                |px: int, py: int| color,
            ),
    {
        let ghost b0 = self.backbuffer@;
        let ghost info = self.info;
        let ghost c = |px: int, py: int| color;
        let cxi = cx as isize;
        let cyi = cy as isize;
        let pts: [(isize, isize); 8] = [
            (cxi + x, cyi + y),
            (cxi + y, cyi + x),
            (cxi - y, cyi + x),
            (cxi - x, cyi + y),
            (cxi - x, cyi - y),
            (cxi - y, cyi - x),
            (cxi + y, cyi - x),
            (cxi + x, cyi - y),
        ];
        let mut k: usize = 0;
        proof {
            assert(paint(b0, info, |px: int, py: int| exists|j: int| 0 <= j < 0 && px == pts@[j].0 && py == pts@[j].1, c) =~= b0);
        }
        while k < 8
            invariant
                self.info == info,
                info_ok(info),
                k <= 8,
                c == (|px: int, py: int| color),
                self.backbuffer@ == paint(b0, info, |px: int, py: int| exists|j: int| 0 <= j < k && px == pts@[j].0 && py == pts@[j].1, c),
            decreases 8 - k,
        {
            let (qx, qy) = pts[k];
            self.pixel_signed(qx, qy, color);
            proof {
                let r1 = |px: int, py: int| exists|j: int| 0 <= j < k && px == pts@[j].0 && py == pts@[j].1;
                let r2 = |px: int, py: int| px == qx && py == qy;
                lemma_paint_union(b0, info, r1, r2, c, c);
                let ru = |px: int, py: int| r1(px, py) || r2(px, py);
                let rn = |px: int, py: int| exists|j: int| 0 <= j < k + 1 && px == pts@[j].0 && py == pts@[j].1;
                assert forall|px: int, py: int|
                    0 <= px < info.width && 0 <= py < info.height implies (#[trigger] ru(px, py) == rn(px, py)) && (ru(px, py)
                        ==> c(px, py) == c(px, py)) by {
                    if rn(px, py) && !r1(px, py) {
                        let j = choose|j: int| 0 <= j < k + 1 && px == pts@[j].0 && py == pts@[j].1;
                        assert(j == k);
                    }
                    if r2(px, py) {
                        assert(0 <= k < k + 1 && px == pts@[k as int].0 && py == pts@[k as int].1);
                    }
                }
                lemma_paint_clip(b0, info, ru, c, rn, c);
            }
            k += 1;
        }
        proof {
            let rd = |px: int, py: int| exists|j: int| 0 <= j < 8 && px == pts@[j].0 && py == pts@[j].1;
            let rf = |px: int, py: int| octant_point(px, py, cx as int, cy as int, x as int, y as int);
            assert forall|px: int, py: int|
                0 <= px < info.width && 0 <= py < info.height implies (#[trigger] rd(px, py) == rf(px, py)) && (rd(px, py)
                    ==> c(px, py) == c(px, py)) by {
                if rf(px, py) {
                    if px == cx + x && py == cy + y { assert(px == pts@[0].0 && py == pts@[0].1); }
                    else if px == cx + y && py == cy + x { assert(px == pts@[1].0 && py == pts@[1].1); }
                    else if px == cx - y && py == cy + x { assert(px == pts@[2].0 && py == pts@[2].1); }
                    else if px == cx - x && py == cy + y { assert(px == pts@[3].0 && py == pts@[3].1); }
                    else if px == cx - x && py == cy - y { assert(px == pts@[4].0 && py == pts@[4].1); }
                    else if px == cx - y && py == cy - x { assert(px == pts@[5].0 && py == pts@[5].1); }
                    else if px == cx + y && py == cy - x { assert(px == pts@[6].0 && py == pts@[6].1); }
                    else { assert(px == pts@[7].0 && py == pts@[7].1); }
                }
            }
            lemma_paint_clip(b0, info, rd, c, rf, c);
        }
    }

    /// Draws a circle outline by the midpoint walk, one step in `gap` (1 for every step).
    fn circle_walk(&mut self, cx: usize, cy: usize, radius: usize, gap: usize, color: Rgb)
        requires
            info_ok(old(self).info),
            gap >= 1,
            4 * (radius + 2) * (radius + 2) <= isize::MAX,
            cx + radius <= isize::MAX,
            cy + radius <= isize::MAX,
        ensures
            final(self).info == old(self).info,
            final(self).backbuffer@ == paint(
                old(self).backbuffer@,
                old(self).info,
                |px: int, py: int| circle_pts(px, py, cx as int, cy as int, radius as int, 0, 0, 0, gap as int),
                |px: int, py: int| color,
            ),
    {
        let ghost b0 = self.backbuffer@;
        let ghost info = self.info;
        let ghost c = |px: int, py: int| color;
        let ghost r = radius as int;
        let ghost target = paint(b0, info, |px: int, py: int| circle_pts(px, py, cx as int, cy as int, r, 0, 0, 0, gap as int), c);
        let mut x = radius as isize;
        let mut y: isize = 0;
        let mut err: isize = 0;
        let mut idx: usize = 0;
        while x >= y
            invariant
                self.info == info,
                info_ok(info),
                gap >= 1,
                r == radius,
                4 * (r + 2) * (r + 2) <= isize::MAX,
                cx + r <= isize::MAX,
                cy + r <= isize::MAX,
                0 <= y,
                0 <= x <= r,
                y <= x + 2,
                idx == y,
                err == x * x + y * y + 2 * y + x - r * r - r,
                c == (|px: int, py: int| color),
                target == paint(b0, info, |px: int, py: int| circle_pts(px, py, cx as int, cy as int, r, 0, 0, 0, gap as int), c),
                paint(self.backbuffer@, info, |px: int, py: int| circle_pts(px, py, cx as int, cy as int, x as int, y as int, err as int, idx as int, gap as int), c) == target,
            decreases x + 2 - y,
        {
            let ghost cur = self.backbuffer@;
            assert(0 <= x * x <= r * r && 0 <= y * y <= (r + 2) * (r + 2)) by (nonlinear_arith)
                requires
                    0 <= x <= r,
                    0 <= y <= x + 2,
            ;
            if idx % gap == 0 {
                self.octants(cx, cy, x, y, color);
            }
            assert(err + 2 * y + 3 <= isize::MAX && isize::MIN <= err - 2 * x + 2 * y + 3 <= isize::MAX
                && 4 * (r + 2) <= isize::MAX) by (nonlinear_arith)
                requires
                    0 <= y <= x <= r,
                    err == x * x + y * y + 2 * y + x - r * r - r,
                    4 * (r + 2) * (r + 2) <= isize::MAX,
            {
                assert(x * x <= r * r);
                assert(y * y <= r * r);
                assert(r + 2 <= (r + 2) * (r + 2));
            }
            assert((y + 1) * (y + 1) == y * y + 2 * y + 1 && (x - 1) * (x - 1) == x * x - 2 * x + 1) by (nonlinear_arith);
            assert(x == 0 ==> err <= 0) by (nonlinear_arith)
                requires
                    0 <= y <= x,
                    r >= 0,
                    err == x * x + y * y + 2 * y + x - r * r - r,
            ;
            let ghost (nx, ny, ne) = circle_next(x as int, y as int, err as int);
            proof {
                let rest = |px: int, py: int| circle_pts(px, py, cx as int, cy as int, nx, ny, ne, idx + 1, gap as int);
                let here = |px: int, py: int| idx % gap == 0 && octant_point(px, py, cx as int, cy as int, x as int, y as int);
                let all = |px: int, py: int| circle_pts(px, py, cx as int, cy as int, x as int, y as int, err as int, idx as int, gap as int);
                let hr = |px: int, py: int| here(px, py) || rest(px, py);
                assert forall|px: int, py: int|
                    0 <= px < info.width && 0 <= py < info.height implies (#[trigger] hr(px, py) == all(px, py)) && (hr(px, py)
                        ==> c(px, py) == c(px, py)) by {}
                lemma_paint_union(cur, info, here, rest, c, c);
                lemma_paint_clip(cur, info, hr, c, all, c);
                if idx % gap == 0 {
                    assert(self.backbuffer@ == paint(cur, info, here, c)) by {
                        lemma_paint_clip(cur, info, |px: int, py: int| octant_point(px, py, cx as int, cy as int, x as int, y as int), c, here, c);
                    }
                } else {
                    assert(paint(cur, info, here, c) =~= cur);
                }
            }
            y += 1;
            if err <= 0 {
                err += 2 * y + 1;
            } else {
                x -= 1;
                err -= 2 * x - 2 * y + 1;
            }
            idx += 1;
        }
        proof {
            assert(paint(self.backbuffer@, info, |px: int, py: int| circle_pts(px, py, cx as int, cy as int, x as int, y as int, err as int, idx as int, gap as int), c) =~= self.backbuffer@);
        }
    }

    /// Draws the outline of a circle of radius `radius` around (`cx`, `cy`) by the midpoint
    /// walk, mirroring each step into the eight octants.
    pub fn circle_outline(&mut self, cx: usize, cy: usize, radius: usize, color: Rgb)
        requires
            info_ok(old(self).info),
            4 * (radius + 2) * (radius + 2) <= isize::MAX,
            cx + radius <= isize::MAX,
            cy + radius <= isize::MAX,
        ensures
            final(self).info == old(self).info,
            final(self).backbuffer@ == paint(
                old(self).backbuffer@,
                old(self).info,
                |px: int, py: int| circle_pts(px, py, cx as int, cy as int, radius as int, 0, 0, 0, 1),
                |px: int, py: int| color,
            ),
    {
        self.circle_walk(cx, cy, radius, 1, color);
    }

    /// Draws every `gap`-th step (at least every second) of the circle outline.
    pub fn dotted_circle_outline(&mut self, cx: usize, cy: usize, radius: usize, gap: usize, color: Rgb)
        requires
            info_ok(old(self).info),
            4 * (radius + 2) * (radius + 2) <= isize::MAX,
            cx + radius <= isize::MAX,
            cy + radius <= isize::MAX,
        ensures
            final(self).info == old(self).info,
            final(self).backbuffer@ == paint(
                old(self).backbuffer@,
                old(self).info,
                |px: int, py: int| circle_pts(px, py, cx as int, cy as int, radius as int, 0, 0, 0, if gap > 2 { gap as int } else { 2 }),
                |px: int, py: int| color,
            ),
    {
        let gap = if gap > 2 { gap } else { 2 };
        self.circle_walk(cx, cy, radius, gap, color);
    }

    /// Draws the line from (`x0`, `y0`) to (`x1`, `y1`) with Bresenham's algorithm.
    #[verifier::spinoff_prover]
    #[verifier::rlimit(60)]
    pub fn draw_line(&mut self, x0: usize, y0: usize, x1: usize, y1: usize, color: Rgb)
        requires
            info_ok(old(self).info),
            x0 <= isize::MAX && y0 <= isize::MAX && x1 <= isize::MAX && y1 <= isize::MAX,
            iabs(x1 - x0) + iabs(y1 - y0) <= isize::MAX / 8,
        ensures
            final(self).info == old(self).info,
            final(self).backbuffer@ == paint(
                old(self).backbuffer@,
                old(self).info,
                |px: int, py: int| on_line(px, py, x0 as int, y0 as int, x1 as int, y1 as int),
                |px: int, py: int| color,
            ),
    {
        let ghost b0 = self.backbuffer@;
        let ghost info = self.info;
        let ghost c = |px: int, py: int| color;
        let mut cx = x0 as isize;
        let mut cy = y0 as isize;
        let tx = x1 as isize;
        let ty = y1 as isize;
        let dx = if tx - cx < 0 { -(tx - cx) } else { tx - cx };
        let dy = -(if ty - cy < 0 { -(ty - cy) } else { ty - cy });
        let sx: isize = if cx < tx { 1 } else { -1 };
        let sy: isize = if cy < ty { 1 } else { -1 };
        let mut err = dx + dy;
        let ghost big_x = dx as int;
        let ghost big_y = -dy;
        let ghost target = paint(b0, info, |px: int, py: int| on_line(px, py, x0 as int, y0 as int, x1 as int, y1 as int), c);
        let ghost mut i: int = 0;
        let ghost mut j: int = 0;
        assert(err == (j + 1) * big_x - (i + 1) * big_y) by (nonlinear_arith)
            requires
                i == 0,
                j == 0,
                err == big_x - big_y,
        ;
        loop
            invariant_except_break
                self.info == info,
                info_ok(info),
                c == (|px: int, py: int| color),
                big_x == iabs(x1 - x0) && big_y == iabs(y1 - y0),
                big_x + big_y <= isize::MAX / 8,
                dx == big_x && dy == -big_y,
                sx == (if x0 < x1 { 1int } else { -1 }) && sy == (if y0 < y1 { 1int } else { -1 }),
                tx == x1 && ty == y1,
                0 <= i <= big_x && 0 <= j <= big_y,
                cx == (if x0 < x1 { x0 + i } else { x0 - i }) && cy == (if y0 < y1 { y0 + j } else { y0 - j }),
                iabs(tx - cx) == big_x - i && iabs(ty - cy) == big_y - j,
                err == (j + 1) * big_x - (i + 1) * big_y,
                -2 * (big_x + big_y) <= err <= 2 * (big_x + big_y),
                target == paint(b0, info, |px: int, py: int| on_line(px, py, x0 as int, y0 as int, x1 as int, y1 as int), c),
                paint(self.backbuffer@, info, |px: int, py: int| line_pts(px, py, cx as int, cy as int, tx as int, ty as int, sx as int, sy as int, dx as int, dy as int, err as int), c) == target,
            ensures
                self.info == info,
                self.backbuffer@ == target,
            decreases big_x - i + big_y - j,
        {
            let ghost cur = self.backbuffer@;
            self.pixel_signed(cx, cy, color);
            let ghost here = |px: int, py: int| px == cx && py == cy;
            let ghost all = |px: int, py: int| line_pts(px, py, cx as int, cy as int, tx as int, ty as int, sx as int, sy as int, dx as int, dy as int, err as int);
            if cx == tx && cy == ty {
                proof {
                    assert forall|px: int, py: int|
                        0 <= px < info.width && 0 <= py < info.height implies (#[trigger] here(px, py) == all(px, py)) && (here(px, py)
                            ==> c(px, py) == c(px, py)) by {}
                    lemma_paint_clip(cur, info, here, c, all, c);
                }
                break;
            }
            let e2 = 2 * err;
            proof {
                if i == big_x {
                    assert(j < big_y);
                    assert(2 * err < -big_y) by (nonlinear_arith)
                        requires
                            err == (j + 1) * big_x - (big_x + 1) * big_y,
                            0 <= j < big_y,
                            big_x >= 0,
                    {
                        assert((j + 1) * big_x <= big_y * big_x);
                    }
                }
                if j == big_y {
                    assert(i < big_x);
                    assert(2 * err > big_x) by (nonlinear_arith)
                        requires
                            err == (big_y + 1) * big_x - (i + 1) * big_y,
                            0 <= i < big_x,
                            big_y >= 0,
                    {
                        assert((i + 1) * big_y <= big_x * big_y);
                    }
                }
            }
            let ghost (nx, ny, ne) = line_next(cx as int, cy as int, sx as int, sy as int, dx as int, dy as int, err as int);
            if e2 >= dy {
                err += dy;
                cx += sx;
                proof {
                    assert((i + 2) * big_y == (i + 1) * big_y + big_y) by (nonlinear_arith);
                    i = i + 1;
                }
            }
            if e2 <= dx {
                err += dx;
                cy += sy;
                proof {
                    assert((j + 2) * big_x == (j + 1) * big_x + big_x) by (nonlinear_arith);
                    j = j + 1;
                }
            }
            proof {
                let rest = |px: int, py: int| line_pts(px, py, nx, ny, tx as int, ty as int, sx as int, sy as int, dx as int, dy as int, ne);
                let hr = |px: int, py: int| here(px, py) || rest(px, py);
                assert forall|px: int, py: int|
                    0 <= px < info.width && 0 <= py < info.height implies (#[trigger] hr(px, py) == all(px, py)) && (hr(px, py)
                        ==> c(px, py) == c(px, py)) by {}
                lemma_paint_union(cur, info, here, rest, c, c);
                lemma_paint_clip(cur, info, hr, c, all, c);
            }
        }
    }

    /// Draws `n_ticks` radial tick marks evenly spaced around a circle, turned by
    /// `rotation_deg`, each from `inner_len` inside the radius to `outer_len` outside it; a tick
    /// with an end at a negative coordinate is skipped.
    pub fn draw_arc_ticks(
        &mut self,
        cx: usize,
        cy: usize,
        radius: usize,
        n_ticks: usize,
        inner_len: usize,
        outer_len: usize,
        rotation_deg: i32,
        color: Rgb,
    )
        requires
            info_ok(old(self).info),
            n_ticks * 360 <= i32::MAX,
            rotation_deg + 360 <= i32::MAX - 90,
            1024 * (radius + outer_len) <= isize::MAX,
            cx + radius + outer_len <= isize::MAX / 32,
            cy + radius + outer_len <= isize::MAX / 32,
        ensures
            final(self).info == old(self).info,
            final(self).backbuffer@ == paint(
                old(self).backbuffer@,
                old(self).info,
                |px: int, py: int| ticks_region(px, py, cx as int, cy as int, radius as int, n_ticks as int, inner_len as int, outer_len as int, rotation_deg as int, n_ticks as int),
                |px: int, py: int| color,
            ),
    {
        let ghost b0 = self.backbuffer@;
        let ghost info = self.info;
        let ghost c = |px: int, py: int| color;
        proof {
            assert(paint(b0, info, |px: int, py: int| ticks_region(px, py, cx as int, cy as int, radius as int, n_ticks as int, inner_len as int, outer_len as int, rotation_deg as int, 0), c) =~= b0);
        }
        if n_ticks == 0 {
            return;
        }
        let mut i: usize = 0;
        while i < n_ticks
            invariant
                self.info == info,
                info_ok(info),
                i <= n_ticks,
                n_ticks >= 1,
                n_ticks * 360 <= i32::MAX,
                rotation_deg + 360 <= i32::MAX - 90,
                1024 * (radius + outer_len) <= isize::MAX,
                cx + radius + outer_len <= isize::MAX / 32,
                cy + radius + outer_len <= isize::MAX / 32,
                c == (|px: int, py: int| color),
                self.backbuffer@ == paint(b0, info, |px: int, py: int| ticks_region(px, py, cx as int, cy as int, radius as int, n_ticks as int, inner_len as int, outer_len as int, rotation_deg as int, i as int), c),
            decreases n_ticks - i,
        {
            let (x0, y0, x1, y1) = tick_line(cx, cy, radius, n_ticks, inner_len, outer_len, rotation_deg, i);
            let ghost cur = self.backbuffer@;
            if x0 >= 0 && y0 >= 0 && x1 >= 0 && y1 >= 0 {
                assert(iabs(x1 - x0) + iabs(y1 - y0) <= isize::MAX / 8);
                self.draw_line(x0 as usize, y0 as usize, x1 as usize, y1 as usize, color);
            }
            proof {
                lemma_ticks_step(b0, info, cur, self.backbuffer@, cx as int, cy as int, radius as int, n_ticks as int, inner_len as int, outer_len as int, rotation_deg as int, i as int, color);
            }
            i += 1;
        }
    }

    fn rounded_row(&mut self, x: usize, y: usize, width: usize, height: usize, r: usize, row: usize, xe: usize, color: Rgb, a: u16)
        requires
            info_ok(old(self).info),
            a <= 256,
            row < old(self).info.height,
            y <= row < y + height,
            x + width <= usize::MAX,
            y + height <= usize::MAX,
            x + r <= usize::MAX,
            y + r <= usize::MAX,
            2 * r * r <= usize::MAX,
            xe as int == (if x + width < old(self).info.width { x + width } else { old(self).info.width as int }),
        ensures
            final(self).info == old(self).info,
            final(self).backbuffer@ == paint(
                old(self).backbuffer@,
                old(self).info,
                |px: int, py: int| py == row && in_rounded(px, py, x as int, y as int, width as int, height as int, r as int),
                frosted(old(self).backbuffer@, old(self).info, color, a as int),
            ),
    {
        let ghost b0 = self.backbuffer@;
        let ghost info = self.info;
        let ghost c = frosted(b0, info, color, a as int);
        let dy: Option<usize> = if row < y + r {
            Some(y + r - row)
        } else if row >= y + height - r {
            Some(row - (y + height - r) + 1)
        } else {
            None
        };
        proof {
            assert(paint(b0, info, |px: int, py: int| py == row && in_rounded(px, py, x as int, y as int, width as int, height as int, r as int) && px < x, c) =~= b0);
        }
        let mut col = x;
        while col < xe
            invariant
                self.info == info,
                info_ok(info),
                a <= 256,
                row < info.height,
                y <= row < y + height,
                x + width <= usize::MAX,
                y + height <= usize::MAX,
                x + r <= usize::MAX,
                2 * r * r <= usize::MAX,
                xe as int == (if x + width < info.width { x + width } else { info.width as int }),
                x <= col,
                col <= xe || xe < x,
                match dy {
                    Some(d) => corner_off(row as int, y as int, height as int, r as int) == Some(d as int),
                    None => corner_off(row as int, y as int, height as int, r as int).is_none(),
                },
                c == frosted(b0, info, color, a as int),
                self.backbuffer@ == paint(b0, info, |px: int, py: int| py == row && in_rounded(px, py, x as int, y as int, width as int, height as int, r as int) && px < col, c),
            decreases xe - col,
        {
            let dx: Option<usize> = if col < x + r {
                Some(x + r - col)
            } else if col >= x + width - r {
                Some(col - (x + width - r) + 1)
            } else {
                None
            };
            let ghost r1 = |px: int, py: int| py == row && in_rounded(px, py, x as int, y as int, width as int, height as int, r as int) && px < col;
            let ghost rn = |px: int, py: int| py == row && in_rounded(px, py, x as int, y as int, width as int, height as int, r as int) && px < col + 1;
            let mut skip = false;
            if let (Some(cxd), Some(cyd)) = (dx, dy) {
                assert(cxd <= r && cyd <= r);
                assert(cxd * cxd + cyd * cyd <= 2 * r * r && r * r <= 2 * r * r) by (nonlinear_arith)
                    requires
                        cxd <= r,
                        cyd <= r,
                ;
                if cxd * cxd + cyd * cyd > r * r {
                    skip = true;
                }
            }
            if skip {
                proof {
                    assert forall|qx: int, qy: int|
                        0 <= qx < info.width && 0 <= qy < info.height implies (#[trigger] r1(qx, qy) == rn(qx, qy)) && (r1(qx, qy)
                            ==> c(qx, qy) == c(qx, qy)) by {}
                    lemma_paint_clip(b0, info, r1, c, rn, c);
                }
            } else {
                let noise: u8 = if (col + row) % 2 == 0 { 4 } else { 0 };
                let tint = Rgb::new(color.r.saturating_add(noise), color.g.saturating_add(noise), color.b.saturating_add(noise));
                let bg = self.read_pixel(col, row);
                proof {
                    lemma_paint_keeps(b0, info, r1, c, col as int, row as int);
                }
                let blended = blend_color(tint, bg, a);
                self.pixel(col, row, blended);
                proof {
                    let r2 = |qx: int, qy: int| qx == col && qy == row;
                    lemma_paint_union(b0, info, r1, r2, c, |qx: int, qy: int| blended);
                    let ru = |qx: int, qy: int| r1(qx, qy) || r2(qx, qy);
                    assert forall|qx: int, qy: int|
                        0 <= qx < info.width && 0 <= qy < info.height implies (#[trigger] ru(qx, qy) == rn(qx, qy)) && (ru(qx, qy)
                            ==> c(qx, qy) == c(qx, qy)) by {}
                    lemma_paint_clip(b0, info, ru, c, rn, c);
                }
            }
            col += 1;
        }
        proof {
            let rd = |px: int, py: int| py == row && in_rounded(px, py, x as int, y as int, width as int, height as int, r as int) && px < col;
            let rf = |px: int, py: int| py == row && in_rounded(px, py, x as int, y as int, width as int, height as int, r as int);
            assert forall|qx: int, qy: int|
                0 <= qx < info.width && 0 <= qy < info.height implies (#[trigger] rd(qx, qy) == rf(qx, qy)) && (rd(qx, qy)
                    ==> c(qx, qy) == c(qx, qy)) by {}
            lemma_paint_clip(b0, info, rd, c, rf, c);
        }
    }

    /// Lays a frosted, grained `color` at opacity `alpha` (0..=256; more counts as 256) over
    /// the rectangle with corners rounded to radius `r`.
    pub fn rect_rounded_alpha(&mut self, x: usize, y: usize, width: usize, height: usize, r: usize, color: Rgb, alpha: u16)
        requires
            info_ok(old(self).info),
            x + width <= usize::MAX,
            y + height <= usize::MAX,
            x + r <= usize::MAX,
            y + r <= usize::MAX,
            2 * r * r <= usize::MAX,
        ensures
            final(self).info == old(self).info,
            final(self).backbuffer@ == paint(
                old(self).backbuffer@,
                old(self).info,
                |px: int, py: int| in_rounded(px, py, x as int, y as int, width as int, height as int, r as int),
                frosted(old(self).backbuffer@, old(self).info, color, cap256(alpha)),
            ),
    {
        let ghost b0 = self.backbuffer@;
        let ghost info = self.info;
        let a = if alpha > 256 { 256 } else { alpha };
        let ghost c = frosted(b0, info, color, a as int);
        let ye = if y + height < self.info.height { y + height } else { self.info.height };
        let xe = if x + width < self.info.width { x + width } else { self.info.width };
        let mut row = y;
        proof {
            assert(paint(b0, info, |px: int, py: int| in_rounded(px, py, x as int, y as int, width as int, height as int, r as int) && py < y, c) =~= b0);
        }
        while row < ye
            invariant
                self.info == info,
                info_ok(info),
                a <= 256,
                x + width <= usize::MAX,
                y + height <= usize::MAX,
                x + r <= usize::MAX,
                y + r <= usize::MAX,
                2 * r * r <= usize::MAX,
                ye as int == (if y + height < info.height { y + height } else { info.height as int }),
                xe as int == (if x + width < info.width { x + width } else { info.width as int }),
                y <= row,
                row <= ye || ye < y,
                c == frosted(b0, info, color, a as int),
                self.backbuffer@ == paint(b0, info, |px: int, py: int| in_rounded(px, py, x as int, y as int, width as int, height as int, r as int) && py < row, c),
            decreases ye - row,
        {
            let ghost cur = self.backbuffer@;
            self.rounded_row(x, y, width, height, r, row, xe, color, a);
            proof {
                let r1 = |px: int, py: int| in_rounded(px, py, x as int, y as int, width as int, height as int, r as int) && py < row;
                let r2 = |px: int, py: int| py == row && in_rounded(px, py, x as int, y as int, width as int, height as int, r as int);
                let c2 = frosted(cur, info, color, a as int);
                assert forall|px: int, py: int| #[trigger] r2(px, py) implies c2(px, py) == c(px, py) by {
                    lemma_paint_keeps(b0, info, r1, c, px, py);
                }
                lemma_paint_union(b0, info, r1, r2, c, c2);
                let ru = |px: int, py: int| r1(px, py) || r2(px, py);
                let rn = |px: int, py: int| in_rounded(px, py, x as int, y as int, width as int, height as int, r as int) && py < row + 1;
                assert forall|qx: int, qy: int|
                    0 <= qx < info.width && 0 <= qy < info.height implies (#[trigger] ru(qx, qy) == rn(qx, qy)) && (ru(qx, qy)
                        ==> c(qx, qy) == c(qx, qy)) by {}
                lemma_paint_clip(b0, info, ru, c, rn, c);
            }
            row += 1;
        }
        proof {
            let rd = |px: int, py: int| in_rounded(px, py, x as int, y as int, width as int, height as int, r as int) && py < row;
            let rf = |px: int, py: int| in_rounded(px, py, x as int, y as int, width as int, height as int, r as int);
            assert forall|qx: int, qy: int|
                0 <= qx < info.width && 0 <= qy < info.height implies (#[trigger] rd(qx, qy) == rf(qx, qy)) && (rd(qx, qy)
                    ==> c(qx, qy) == c(qx, qy)) by {}
            lemma_paint_clip(b0, info, rd, c, rf, c);
        }
    }

    /// Fills a rectangle with a horizontal gradient (as `gradient_rect_h`) whose two top
    /// corners are rounded to radius `r`.
    pub fn gradient_rect_h_rounded_top(&mut self, x: usize, y: usize, width: usize, height: usize, r: usize, left_color: Rgb, right_color: Rgb)
        requires
            info_ok(old(self).info),
            gradient_fits(x as int, width as int, old(self).info.width as int),
            2 * r * r <= usize::MAX,
        ensures
            final(self).info == old(self).info,
            final(self).backbuffer@ == paint(
                old(self).backbuffer@,
                old(self).info,
                |px: int, py: int| in_rounded_top(px, py, x as int, y as int, width as int, height as int, r as int),
                |px: int, py: int| gradient_color(left_color, right_color, px - x, width as int),
            ),
    {
        let ghost b0 = self.backbuffer@;
        let ghost info = self.info;
        let ghost c = |px: int, py: int| gradient_color(left_color, right_color, px - x, width as int);
        proof {
            assert(paint(b0, info, |px: int, py: int| in_rounded_top(px, py, x as int, y as int, width as int, height as int, r as int) && px < x, c) =~= b0);
        }
        if width == 0 {
            proof {
                assert(paint(b0, info, |px: int, py: int| in_rounded_top(px, py, x as int, y as int, width as int, height as int, r as int), c) =~= b0);
            }
            return;
        }
        let ww = self.info.width;
        let hh = self.info.height;
        let mut col: usize = 0;
        while col < width
            invariant_except_break
                self.info == info,
                info_ok(info),
                ww == info.width && hh == info.height,
                gradient_fits(x as int, width as int, ww as int),
                2 * r * r <= usize::MAX,
                width > 0,
                col <= width,
                col == 0 || x + col <= ww,
                c == (|px: int, py: int| gradient_color(left_color, right_color, px - x, width as int)),
                self.backbuffer@ == paint(b0, info, |px: int, py: int| in_rounded_top(px, py, x as int, y as int, width as int, height as int, r as int) && px < x + col, c),
            ensures
                self.info == info,
                col == width || x + col >= ww,
                self.backbuffer@ == paint(b0, info, |px: int, py: int| in_rounded_top(px, py, x as int, y as int, width as int, height as int, r as int) && px < x + col, c),
            decreases width - col,
        {
            assert(col * 256 <= u32::MAX);
            let v32 = col as u32;
            let l32 = width as u32;
            let q = (v32 * 256) / l32;
            assert(q < 256) by (nonlinear_arith)
                requires
                    q == (v32 * 256) / (l32 as int),
                    v32 < l32,
            {
                assert(v32 * 256 < l32 * 256);
            }
            let t = q as u16;
            let color = left_color.lerp(right_color, t);
            let px = x + col;
            if px >= ww {
                break;
            }
            let dx: Option<usize> = if col < r {
                Some(r - col)
            } else if col >= width - r {
                Some(col - (width - r) + 1)
            } else {
                None
            };
            let ghost cur = self.backbuffer@;
            let ghost r1 = |qx: int, qy: int| in_rounded_top(qx, qy, x as int, y as int, width as int, height as int, r as int) && qx < x + col;
            let mut row: usize = 0;
            while row < height
                invariant_except_break
                    self.info == info,
                    info_ok(info),
                    hh == info.height,
                    2 * r * r <= usize::MAX,
                    px == x + col,
                    px < info.width,
                    col < width,
                    match dx {
                        Some(d) => corner_off(px as int, x as int, width as int, r as int) == Some(d as int),
                        None => corner_off(px as int, x as int, width as int, r as int).is_none(),
                    },
                    color == c(px as int, 0),
                    forall|qy: int| #[trigger] c(px as int, qy) == color,
                    row <= height,
                    row == 0 || y + row <= hh,
                    self.backbuffer@ == paint(cur, info, |qx: int, qy: int| qx == px && in_rounded_top(qx, qy, x as int, y as int, width as int, height as int, r as int) && qy < y + row, c),
                ensures
                    self.info == info,
                    row == height || y + row >= hh,
                    self.backbuffer@ == paint(cur, info, |qx: int, qy: int| qx == px && in_rounded_top(qx, qy, x as int, y as int, width as int, height as int, r as int) && qy < y + row, c),
                decreases height - row,
            {
                let py = y + row;
                if py >= hh {
                    break;
                }
                let ghost q1 = |qx: int, qy: int| qx == px && in_rounded_top(qx, qy, x as int, y as int, width as int, height as int, r as int) && qy < y + row;
                let ghost qn = |qx: int, qy: int| qx == px && in_rounded_top(qx, qy, x as int, y as int, width as int, height as int, r as int) && qy < y + row + 1;
                let mut skip = false;
                if let Some(cxd) = dx {
                    if row < r {
                        let cyd = r - row;
                        assert(cxd * cxd + cyd * cyd <= 2 * r * r && r * r <= 2 * r * r) by (nonlinear_arith)
                            requires
                                cxd <= r,
                                cyd <= r,
                        ;
                        if cxd * cxd + cyd * cyd > r * r {
                            skip = true;
                        }
                    }
                }
                if skip {
                    proof {
                        assert forall|qx: int, qy: int|
                            0 <= qx < info.width && 0 <= qy < info.height implies (#[trigger] q1(qx, qy) == qn(qx, qy)) && (q1(qx, qy)
                                ==> c(qx, qy) == c(qx, qy)) by {}
                        lemma_paint_clip(cur, info, q1, c, qn, c);
                    }
                } else {
                    self.pixel(px, py, color);
                    proof {
                        let q2 = |qx: int, qy: int| qx == px && qy == py;
                        assert forall|qx: int, qy: int| #[trigger] q2(qx, qy) implies color == c(qx, qy) by {}
                        lemma_paint_union(cur, info, q1, q2, c, |qx: int, qy: int| color);
                        let qu = |qx: int, qy: int| q1(qx, qy) || q2(qx, qy);
                        assert forall|qx: int, qy: int|
                            0 <= qx < info.width && 0 <= qy < info.height implies (#[trigger] qu(qx, qy) == qn(qx, qy)) && (qu(qx, qy)
                                ==> c(qx, qy) == c(qx, qy)) by {}
                        lemma_paint_clip(cur, info, qu, c, qn, c);
                    }
                }
                row += 1;
            }
            proof {
                let q = |qx: int, qy: int| qx == px && in_rounded_top(qx, qy, x as int, y as int, width as int, height as int, r as int) && qy < y + row;
                let qf = |qx: int, qy: int| qx == px && in_rounded_top(qx, qy, x as int, y as int, width as int, height as int, r as int);
                assert forall|qx: int, qy: int|
                    0 <= qx < info.width && 0 <= qy < info.height implies (#[trigger] q(qx, qy) == qf(qx, qy)) && (q(qx, qy)
                        ==> c(qx, qy) == c(qx, qy)) by {}
                lemma_paint_clip(cur, info, q, c, qf, c);
                lemma_paint_union(b0, info, r1, qf, c, c);
                let ru = |qx: int, qy: int| r1(qx, qy) || qf(qx, qy);
                let rn = |qx: int, qy: int| in_rounded_top(qx, qy, x as int, y as int, width as int, height as int, r as int) && qx < x + col + 1;
                assert forall|qx: int, qy: int|
                    0 <= qx < info.width && 0 <= qy < info.height implies (#[trigger] ru(qx, qy) == rn(qx, qy)) && (ru(qx, qy)
                        ==> c(qx, qy) == c(qx, qy)) by {}
                lemma_paint_clip(b0, info, ru, c, rn, c);
            }
            col += 1;
        }
        proof {
            let rd = |qx: int, qy: int| in_rounded_top(qx, qy, x as int, y as int, width as int, height as int, r as int) && qx < x + col;
            assert forall|qx: int, qy: int|
                0 <= qx < info.width && 0 <= qy < info.height implies (#[trigger] rd(qx, qy) == in_rounded_top(qx, qy, x as int, y as int, width as int, height as int, r as int)) && (rd(qx, qy)
                    ==> c(qx, qy) == c(qx, qy)) by {}
            lemma_paint_clip(b0, info, rd, c, |qx: int, qy: int| in_rounded_top(qx, qy, x as int, y as int, width as int, height as int, r as int), c);
        }
    }

    fn corner_points(&mut self, x: usize, y: usize, width: usize, height: usize, r: usize, dx: usize, dy: usize, color: Rgb)
        requires
            info_ok(old(self).info),
            dx < r && dy < r,
            x + width <= usize::MAX && y + height <= usize::MAX,
            x + width >= r && y + height >= r,
            x + r <= usize::MAX && y + r <= usize::MAX,
        ensures
            final(self).info == old(self).info,
            final(self).backbuffer@ == paint(
                old(self).backbuffer@,
                old(self).info,
                |px: int, py: int|
                    (px == x + r - dx || px == x + width - r + dx) && (py == y + r - dy || py == y + height - r + dy),
                |px: int, py: int| color,
            ),
    {
        let ghost b0 = self.backbuffer@;
        let ghost info = self.info;
        let ghost c = |px: int, py: int| color;
        let l = x + r - dx;
        let rt = x + width - r + dx;
        let t = y + r - dy;
        let b = y + height - r + dy;
        self.pixel(l, t, color);
        self.pixel(rt, t, color);
        self.pixel(l, b, color);
        self.pixel(rt, b, color);
        proof {
            let p1 = |px: int, py: int| px == l && py == t;
            let p2 = |px: int, py: int| px == rt && py == t;
            let p3 = |px: int, py: int| px == l && py == b;
            let p4 = |px: int, py: int| px == rt && py == b;
            lemma_paint_union(b0, info, p1, p2, c, c);
            let p12 = |px: int, py: int| p1(px, py) || p2(px, py);
            lemma_paint_union(b0, info, p12, p3, c, c);
            let p123 = |px: int, py: int| p12(px, py) || p3(px, py);
            lemma_paint_union(b0, info, p123, p4, c, c);
            let pu = |px: int, py: int| p123(px, py) || p4(px, py);
            let pf = |px: int, py: int|
                (px == x + r - dx || px == x + width - r + dx) && (py == y + r - dy || py == y + height - r + dy);
            assert forall|qx: int, qy: int|
                0 <= qx < info.width && 0 <= qy < info.height implies (#[trigger] pu(qx, qy) == pf(qx, qy)) && (pu(qx, qy)
                    ==> c(qx, qy) == c(qx, qy)) by {}
            lemma_paint_clip(b0, info, pu, c, pf, c);
        }
    }

    /// Draws the outline of a rectangle with corners rounded to radius `r`: the straight edges
    /// between the corners, and a one-pixel ring in each corner.
    pub fn rect_rounded_outline(&mut self, x: usize, y: usize, width: usize, height: usize, r: usize, color: Rgb)
        requires
            info_ok(old(self).info),
            x + width <= usize::MAX && y + height <= usize::MAX,
            x + width >= 1 && y + height >= 1,
            x + width >= r && y + height >= r,
            x + r <= usize::MAX && y + r <= usize::MAX,
            2 * r * r <= usize::MAX,
            r * r + r <= usize::MAX,
        ensures
            final(self).info == old(self).info,
            final(self).backbuffer@ == paint(
                old(self).backbuffer@,
                old(self).info,
                |px: int, py: int| on_rounded_outline(px, py, x as int, y as int, width as int, height as int, r as int),
                |px: int, py: int| color,
            ),
    {
        let ghost b0 = self.backbuffer@;
        let ghost info = self.info;
        let ghost c = |px: int, py: int| color;
        assert(2 * r <= usize::MAX) by (nonlinear_arith)
            requires
                2 * r * r <= usize::MAX,
                r >= 0,
        {
            if r >= 1 {
                assert(r <= r * r);
            }
        }
        let wi = width.saturating_sub(2 * r);
        let hi = height.saturating_sub(2 * r);
        self.rect(x + r, y, wi, 1, color);
        self.rect(x + r, y + height - 1, wi, 1, color);
        self.rect(x, y + r, 1, hi, color);
        self.rect(x + width - 1, y + r, 1, hi, color);
        let ghost edges = |px: int, py: int|
            in_rect(px, py, x + r, y as int, wi as int, 1) || in_rect(px, py, x + r, y + height - 1, wi as int, 1) || in_rect(
                px,
                py,
                x as int,
                y + r,
                1,
                hi as int,
            ) || in_rect(px, py, x + width - 1, y + r, 1, hi as int);
        proof {
            let r1 = |px: int, py: int| x + r <= px < x + r + wi && y <= py < y + 1;
            let r2 = |px: int, py: int| x + r <= px < x + r + wi && y + height - 1 <= py < y + height - 1 + 1;
            let r3 = |px: int, py: int| x <= px < x + 1 && y + r <= py < y + r + hi;
            let r4 = |px: int, py: int| x + width - 1 <= px < x + width - 1 + 1 && y + r <= py < y + r + hi;
            lemma_paint_union(b0, info, r1, r2, c, c);
            let r12 = |px: int, py: int| r1(px, py) || r2(px, py);
            lemma_paint_union(b0, info, r12, r3, c, c);
            let r123 = |px: int, py: int| r12(px, py) || r3(px, py);
            lemma_paint_union(b0, info, r123, r4, c, c);
            let ru = |px: int, py: int| r123(px, py) || r4(px, py);
            let re = |px: int, py: int| edges(px, py) || corner_pixel(px, py, x as int, y as int, width as int, height as int, r as int, 0, 0);
            assert forall|qx: int, qy: int|
                0 <= qx < info.width && 0 <= qy < info.height implies (#[trigger] ru(qx, qy) == re(qx, qy)) && (ru(qx, qy)
                    ==> c(qx, qy) == c(qx, qy)) by {}
            lemma_paint_clip(b0, info, ru, c, re, c);
        }
        let r2 = r * r;
        let lo = r2.saturating_sub(r);
        let mut dy: usize = 0;
        while dy < r
            invariant
                self.info == info,
                info_ok(info),
                x + width <= usize::MAX && y + height <= usize::MAX,
                x + width >= r && y + height >= r,
                x + r <= usize::MAX && y + r <= usize::MAX,
                r * r + r <= usize::MAX,
                2 * r * r <= usize::MAX,
                r2 == r * r,
                lo == sat_sub(r * r, r as int),
                dy <= r,
                c == (|px: int, py: int| color),
                self.backbuffer@ == paint(b0, info, |px: int, py: int| edges(px, py) || corner_pixel(px, py, x as int, y as int, width as int, height as int, r as int, 0, dy as int), c),
            decreases r - dy,
        {
            let mut dx: usize = 0;
            while dx < r
                invariant
                    self.info == info,
                    info_ok(info),
                    x + width <= usize::MAX && y + height <= usize::MAX,
                    x + width >= r && y + height >= r,
                    x + r <= usize::MAX && y + r <= usize::MAX,
                    r * r + r <= usize::MAX,
                    2 * r * r <= usize::MAX,
                    r2 == r * r,
                    lo == sat_sub(r * r, r as int),
                    dy < r,
                    dx <= r,
                    c == (|px: int, py: int| color),
                    self.backbuffer@ == paint(b0, info, |px: int, py: int| edges(px, py) || corner_pixel(px, py, x as int, y as int, width as int, height as int, r as int, dx as int, dy as int), c),
                decreases r - dx,
            {
                assert(dx * dx + dy * dy <= 2 * r * r) by (nonlinear_arith)
                    requires
                        dx < r,
                        dy < r,
                {
                    assert(dx * dx <= r * r);
                    assert(dy * dy <= r * r);
                }
                let dist2 = dx * dx + dy * dy;
                let ghost rd = |px: int, py: int| edges(px, py) || corner_pixel(px, py, x as int, y as int, width as int, height as int, r as int, dx as int, dy as int);
                let ghost rn = |px: int, py: int| edges(px, py) || corner_pixel(px, py, x as int, y as int, width as int, height as int, r as int, dx + 1, dy as int);
                if dist2 >= lo && dist2 <= r2 + r {
                    let ghost cur = self.backbuffer@;
                    self.corner_points(x, y, width, height, r, dx, dy, color);
                    proof {
                        let pf = |px: int, py: int|
                            (px == x + r - dx || px == x + width - r + dx) && (py == y + r - dy || py == y + height - r + dy);
                        lemma_paint_union(b0, info, rd, pf, c, c);
                        let ru = |px: int, py: int| rd(px, py) || pf(px, py);
                        assert(on_ring(dx as int, dy as int, r as int));
                        assert forall|qx: int, qy: int|
                            0 <= qx < info.width && 0 <= qy < info.height implies (#[trigger] ru(qx, qy) == rn(qx, qy)) && (ru(qx, qy)
                                ==> c(qx, qy) == c(qx, qy)) by {}
                        lemma_paint_clip(b0, info, ru, c, rn, c);
                    }
                } else {
                    proof {
                        assert(!on_ring(dx as int, dy as int, r as int));
                        assert forall|qx: int, qy: int|
                            0 <= qx < info.width && 0 <= qy < info.height implies (#[trigger] rd(qx, qy) == rn(qx, qy)) && (rd(qx, qy)
                                ==> c(qx, qy) == c(qx, qy)) by {}
                        lemma_paint_clip(b0, info, rd, c, rn, c);
                    }
                }
                dx += 1;
            }
            proof {
                let rd = |px: int, py: int| edges(px, py) || corner_pixel(px, py, x as int, y as int, width as int, height as int, r as int, r as int, dy as int);
                let rn = |px: int, py: int| edges(px, py) || corner_pixel(px, py, x as int, y as int, width as int, height as int, r as int, 0, dy + 1);
                assert forall|qx: int, qy: int|
                    0 <= qx < info.width && 0 <= qy < info.height implies (#[trigger] rd(qx, qy) == rn(qx, qy)) && (rd(qx, qy)
                        ==> c(qx, qy) == c(qx, qy)) by {}
                lemma_paint_clip(b0, info, rd, c, rn, c);
            }
            dy += 1;
        }
        proof {
            let rd = |px: int, py: int| edges(px, py) || corner_pixel(px, py, x as int, y as int, width as int, height as int, r as int, 0, dy as int);
            let rf = |px: int, py: int| on_rounded_outline(px, py, x as int, y as int, width as int, height as int, r as int);
            assert forall|qx: int, qy: int|
                0 <= qx < info.width && 0 <= qy < info.height implies (#[trigger] rd(qx, qy) == rf(qx, qy)) && (rd(qx, qy)
                    ==> c(qx, qy) == c(qx, qy)) by {}
            lemma_paint_clip(b0, info, rd, c, rf, c);
        }
    }

    /// The stored colour of pixel (`x`, `y`); black off screen, past the buffer, or in an
    /// unknown format.
    pub fn read_pixel(&self, x: usize, y: usize) -> (c: Rgb)
        requires
            info_ok(self.info),
        ensures
            c == pixel_at(self.backbuffer@, self.info, x as int, y as int),
    {
        if x >= self.info.width || y >= self.info.height {
            return Rgb::new(0, 0, 0);
        }
        proof {
            lemma_offset_bounds(self.info, x as int, y as int);
        }
        let byte_offset = (y * self.info.stride + x) * self.info.bytes_per_pixel;
        if byte_offset + self.info.bytes_per_pixel > self.backbuffer.len() {
            return Rgb::new(0, 0, 0);
        }
        match self.info.pixel_format {
            PixelFormat::Rgb => Rgb::new(
                self.backbuffer[byte_offset],
                self.backbuffer[byte_offset + 1],
                self.backbuffer[byte_offset + 2],
            ),
            PixelFormat::Bgr => Rgb::new(
                self.backbuffer[byte_offset + 2],
                self.backbuffer[byte_offset + 1],
                self.backbuffer[byte_offset],
            ),
            PixelFormat::U8 => {
                let v = self.backbuffer[byte_offset];
                Rgb::new(v, v, v)
            },
            PixelFormat::Unknown => Rgb::new(0, 0, 0),
        }
    }
}


/// Colours are stored in the byte order of the format: red, green, blue from the pixel's
/// first byte for `Rgb`, and blue, green, red for `Bgr`.
pub proof fn lemma_channel_order(buf: Seq<u8>, info: FrameBufferInfo, x: int, y: int, c: Rgb)
    requires
        info_ok(info),
        shown(info, buf.len() as int, x, y),
    ensures
        ({
            let painted = paint(buf, info, |px: int, py: int| px == x && py == y, |px: int, py: int| c);
            let o = pix_off(info, x, y);
            &&& info.pixel_format == PixelFormat::Rgb ==> painted[o] == c.r && painted[o + 1] == c.g
                && painted[o + 2] == c.b
            &&& info.pixel_format == PixelFormat::Bgr ==> painted[o] == c.b && painted[o + 1] == c.g
                && painted[o + 2] == c.r
        }),
{
    if info.pixel_format == PixelFormat::Rgb || info.pixel_format == PixelFormat::Bgr {
        let o = pix_off(info, x, y);
        lemma_encode(info, x, y, 0);
        lemma_encode(info, x, y, 1);
        lemma_encode(info, x, y, 2);
        assert(o + 0 == o);
        let painted = paint(buf, info, |px: int, py: int| px == x && py == y, |px: int, py: int| c);
        assert(painted[o] == channel(info.pixel_format, c, 0));
        assert(painted[o + 1] == channel(info.pixel_format, c, 1));
        assert(painted[o + 2] == channel(info.pixel_format, c, 2));
    }
}

} // verus!
