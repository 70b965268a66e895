//! Composite effects built from the display's primitives: glass panels and bloom.
use vstd::prelude::*;
use crate::display::{disc_over, frosted, in_rounded, info_ok, on_rounded_outline, paint, Display, Rgb};

verus! {

/// Draws the composite effects.
pub struct EffectRenderer;

/// Radius of bloom ring `i` around a core of radius `radius`.
pub open spec fn bloom_radius(radius: int, i: int) -> int {
    radius + i * radius / 5
}

/// `buf` with bloom rings `n - 1` down to `0` laid over it in turn, ring `i` at opacity
/// `intensity / (i + 2)` (at most 256).
pub open spec fn bloom_rings(buf: Seq<u8>, d: Display, cx: int, cy: int, radius: int, c: Rgb, intensity: int, n: int) -> Seq<u8>
    decreases n,
{
    if n <= 0 {
        buf
    } else {
        bloom_rings(
            disc_over(buf, d.info, cx, cy, bloom_radius(radius, n - 1), c, if intensity / (n + 1) > 256 { 256 } else { intensity / (n + 1) }),
            d,
            cx,
            cy,
            radius,
            c,
            intensity,
            n - 1,
        )
    }
}

impl EffectRenderer {
    pub fn new() -> (e: Self) {
        EffectRenderer
    }

    /// A glass panel: a frosted rounded rectangle of `tint` at opacity `alpha`, outlined in
    /// white.
    pub fn draw_glass_panel(
        &self,
        display: &mut Display,
        x: usize,
        y: usize,
        width: usize,
        height: usize,
        radius: usize,
        tint: Rgb,
        alpha: u16,
    )
        requires
            info_ok(old(display).info),
            x + width <= usize::MAX && y + height <= usize::MAX,
            x + width >= 1 && y + height >= 1,
            x + width >= radius && y + height >= radius,
            x + radius <= usize::MAX && y + radius <= usize::MAX,
            2 * radius * radius <= usize::MAX,
            radius * radius + radius <= usize::MAX,
        ensures
            final(display).info == old(display).info,
            final(display).backbuffer@ == paint(
                paint(
                    old(display).backbuffer@,
                    old(display).info,
                    |px: int, py: int| in_rounded(px, py, x as int, y as int, width as int, height as int, radius as int),
                    frosted(old(display).backbuffer@, old(display).info, tint, if alpha > 256 { 256 } else { alpha as int }),
                ),
                old(display).info,
                |px: int, py: int| on_rounded_outline(px, py, x as int, y as int, width as int, height as int, radius as int),
                |px: int, py: int| Rgb { r: 255, g: 255, b: 255 },
            ),
    {
        display.rect_rounded_alpha(x, y, width, height, radius, tint, alpha);
        display.rect_rounded_outline(x, y, width, height, radius, Rgb::new(255, 255, 255));
    }

    /// Bloom: ten widening rings of `color`, ring `i` at opacity `intensity / (i + 2)` laid from
    /// the outermost in, then a core of a third of the radius at opacity 200.
    pub fn draw_bloom(&self, display: &mut Display, cx: usize, cy: usize, radius: usize, color: Rgb, intensity: u16)
        requires
            info_ok(old(display).info),
            2 * bloom_radius(radius as int, 9) * bloom_radius(radius as int, 9) <= isize::MAX,
            cx + bloom_radius(radius as int, 9) <= isize::MAX,
            cy + bloom_radius(radius as int, 9) <= isize::MAX,
        ensures
            final(display).info == old(display).info,
            final(display).backbuffer@ == disc_over(
                bloom_rings(old(display).backbuffer@, *old(display), cx as int, cy as int, radius as int, color, intensity as int, 10),
                old(display).info,
                cx as int,
                cy as int,
                (radius / 3) as int,
                color,
                200,
            ),
    {
        let ghost d0 = *display;
        let ghost rmax = bloom_radius(radius as int, 9);
        let mut i: u16 = 10;
        while i > 0
            invariant
                display.info == d0.info,
                info_ok(d0.info),
                i <= 10,
                rmax == bloom_radius(radius as int, 9),
                2 * rmax * rmax <= isize::MAX,
                cx + rmax <= isize::MAX,
                cy + rmax <= isize::MAX,
                bloom_rings(display.backbuffer@, d0, cx as int, cy as int, radius as int, color, intensity as int, i as int)
                    == bloom_rings(d0.backbuffer@, d0, cx as int, cy as int, radius as int, color, intensity as int, 10),
            decreases i,
        {
            let k = i - 1;
            assert(0 <= bloom_radius(radius as int, k as int) <= rmax) by (nonlinear_arith)
                requires
                    0 <= k <= 9,
                    radius >= 0,
                    rmax == bloom_radius(radius as int, 9),
            {
                assert(k * radius <= 9 * radius);
                assert(k * radius / 5 <= 9 * radius / 5);
            }
            assert(2 * bloom_radius(radius as int, k as int) * bloom_radius(radius as int, k as int) <= isize::MAX) by (nonlinear_arith)
                requires
                    0 <= bloom_radius(radius as int, k as int) <= rmax,
                    2 * rmax * rmax <= isize::MAX,
            ;
            assert(usize::MAX == 2 * isize::MAX + 1);
            assert((k as int) * radius <= usize::MAX) by (nonlinear_arith)
                requires
                    0 <= k <= 9,
                    radius >= 0,
                    rmax == bloom_radius(radius as int, 9),
                    2 * rmax * rmax <= isize::MAX,
                    usize::MAX == 2 * isize::MAX + 1,
            {
                assert(k * radius <= 9 * radius);
                assert(9 * radius <= 5 * rmax + 5);
                if rmax >= 1 {
                    assert(rmax <= rmax * rmax);
                }
            }
            let r = radius + (k as usize) * radius / 5;
            let a = intensity / (k + 2);
            display.circle_alpha(cx, cy, r, color, a);
            i -= 1;
        }
        assert(0 <= radius as int <= rmax);
        assert(2 * (radius / 3) * (radius / 3) <= isize::MAX) by (nonlinear_arith)
            requires
                0 <= radius <= rmax,
                2 * rmax * rmax <= isize::MAX,
        {
            assert(radius / 3 <= rmax);
        }
        display.circle_alpha(cx, cy, radius / 3, color, 200);
    }
}

} // verus!
