use atulyaos::display::{Display, FrameBufferInfo, PixelFormat, Rgb};
use atulyaos::gpu::effects::EffectRenderer;

fn screen(format: PixelFormat, bpp: usize) -> Display {
    let info = FrameBufferInfo {
        byte_len: 4 * 3 * bpp,
        width: 4,
        height: 3,
        pixel_format: format,
        bytes_per_pixel: bpp,
        stride: 4,
    };
    Display::new(vec![0u8; 4 * 3 * bpp], info)
}

#[test]
fn lerp_and_dim_scale_channels() {
    let black = Rgb::new(0, 0, 0);
    let white = Rgb::new(255, 255, 255);
    assert_eq!(black.lerp(white, 128), Rgb::new(127, 127, 127));
    assert_eq!(black.lerp(white, 256), white);
    assert_eq!(black.lerp(white, 1000), white);
    assert_eq!(white.dim(128), Rgb::new(127, 127, 127));
    assert_eq!(white.dim(300), white);
    assert_eq!(Rgb::new(10, 20, 30).dim(0), black);
    assert_eq!(Display::blend(black, white, 64), Rgb::new(63, 63, 63));
}

#[test]
fn pixel_writes_rgb_bytes_and_reads_back() {
    let mut d = screen(PixelFormat::Rgb, 3);
    d.pixel(1, 1, Rgb::new(255, 10, 20));
    let off = (1 * 4 + 1) * 3;
    assert_eq!(&d.backbuffer[off..off + 3], &[255, 10, 20]);
    assert_eq!(d.read_pixel(1, 1), Rgb::new(255, 10, 20));
    assert_eq!(d.read_pixel(0, 0), Rgb::new(0, 0, 0));
    // Off-screen pixels are ignored and read as black.
    d.pixel(4, 0, Rgb::new(1, 2, 3));
    d.pixel(0, 3, Rgb::new(1, 2, 3));
    assert_eq!(d.backbuffer.iter().filter(|b| **b != 0).count(), 3);
    assert_eq!(d.read_pixel(9, 9), Rgb::new(0, 0, 0));
}

#[test]
fn bgr_and_grey_formats() {
    let mut d = screen(PixelFormat::Bgr, 4);
    d.pixel(0, 0, Rgb::new(1, 2, 3));
    assert_eq!(&d.backbuffer[0..4], &[3, 2, 1, 0]);
    assert_eq!(d.read_pixel(0, 0), Rgb::new(1, 2, 3));
    let mut g = screen(PixelFormat::U8, 1);
    g.pixel(2, 0, Rgb::new(30, 60, 90));
    assert_eq!(g.backbuffer[2], 60);
    assert_eq!(g.read_pixel(2, 0), Rgb::new(60, 60, 60));
    let mut u = screen(PixelFormat::Unknown, 3);
    u.pixel(0, 0, Rgb::new(9, 9, 9));
    assert!(u.backbuffer.iter().all(|b| *b == 0));
}

#[test]
fn rect_is_clipped_to_the_screen() {
    let mut d = screen(PixelFormat::Rgb, 3);
    d.rect(2, 1, 10, 10, Rgb::new(0, 255, 0));
    for y in 0..3 {
        for x in 0..4 {
            let inside = x >= 2 && y >= 1;
            let expect = if inside { Rgb::new(0, 255, 0) } else { Rgb::new(0, 0, 0) };
            assert_eq!(d.read_pixel(x, y), expect, "pixel {} {}", x, y);
        }
    }
}

#[test]
fn clear_fills_everything() {
    let mut d = screen(PixelFormat::Rgb, 3);
    d.clear(Rgb::new(7, 8, 9));
    for y in 0..3 {
        for x in 0..4 {
            assert_eq!(d.read_pixel(x, y), Rgb::new(7, 8, 9));
        }
    }
}

#[test]
fn hline_and_outlines() {
    let mut d = screen(PixelFormat::Rgb, 3);
    d.hline(1, 3, 2, Rgb::new(5, 5, 5));
    assert_eq!(d.read_pixel(0, 2), Rgb::new(0, 0, 0));
    assert_eq!(d.read_pixel(1, 2), Rgb::new(5, 5, 5));
    assert_eq!(d.read_pixel(2, 2), Rgb::new(5, 5, 5));
    assert_eq!(d.read_pixel(3, 2), Rgb::new(0, 0, 0));
    let mut o = screen(PixelFormat::Rgb, 3);
    o.rect_outline_1px(0, 0, 4, 3, Rgb::new(1, 1, 1));
    assert_eq!(o.read_pixel(0, 0), Rgb::new(1, 1, 1));
    assert_eq!(o.read_pixel(3, 2), Rgb::new(1, 1, 1));
    assert_eq!(o.read_pixel(1, 1), Rgb::new(0, 0, 0));
    assert_eq!(o.read_pixel(2, 1), Rgb::new(0, 0, 0));
    let mut t = screen(PixelFormat::Rgb, 3);
    t.rect_outline(0, 0, 4, 3, Rgb::new(2, 2, 2));
    assert_eq!(t.read_pixel(1, 1), Rgb::new(2, 2, 2));
}

#[test]
fn alpha_blending_mixes_with_the_background() {
    let mut d = screen(PixelFormat::Rgb, 3);
    d.rect_alpha(0, 0, 2, 1, Rgb::new(255, 255, 255), 128);
    assert_eq!(d.read_pixel(0, 0), Rgb::new(127, 127, 127));
    assert_eq!(d.read_pixel(1, 0), Rgb::new(127, 127, 127));
    assert_eq!(d.read_pixel(2, 0), Rgb::new(0, 0, 0));
    d.pixel_alpha(3, 0, Rgb::new(200, 0, 0), 255);
    assert_eq!(d.read_pixel(3, 0), Rgb::new(200, 0, 0));
    d.pixel_alpha(3, 1, Rgb::new(200, 0, 0), 0);
    assert_eq!(d.read_pixel(3, 1), Rgb::new(0, 0, 0));
    d.pixel_add(0, 0, Rgb::new(200, 1, 1));
    assert_eq!(d.read_pixel(0, 0), Rgb::new(255, 128, 128));
}

#[test]
fn filled_and_blended_discs() {
    let mut d = screen(PixelFormat::Rgb, 3);
    d.circle_filled(1, 1, 1, Rgb::new(9, 9, 9));
    let on = [(1, 0), (0, 1), (1, 1), (2, 1), (1, 2)];
    for y in 0..3 {
        for x in 0..4 {
            let expect = if on.contains(&(x, y)) { Rgb::new(9, 9, 9) } else { Rgb::new(0, 0, 0) };
            assert_eq!(d.read_pixel(x, y), expect);
        }
    }
    let mut a = screen(PixelFormat::Rgb, 3);
    a.circle_alpha(0, 0, 0, Rgb::new(255, 0, 0), 512);
    assert_eq!(a.read_pixel(0, 0), Rgb::new(255, 0, 0));
    assert_eq!(a.read_pixel(1, 0), Rgb::new(0, 0, 0));
}

#[test]
fn gradients_step_per_line() {
    let mut d = screen(PixelFormat::Rgb, 3);
    d.gradient_rect_v(0, 0, 4, 2, Rgb::new(0, 0, 0), Rgb::new(255, 255, 255));
    assert_eq!(d.read_pixel(0, 0), Rgb::new(0, 0, 0));
    assert_eq!(d.read_pixel(3, 1), Rgb::new(127, 127, 127));
    assert_eq!(d.read_pixel(0, 2), Rgb::new(0, 0, 0));
    let mut h = screen(PixelFormat::Rgb, 3);
    h.gradient_rect_h(0, 0, 4, 3, Rgb::new(0, 0, 0), Rgb::new(255, 0, 0));
    assert_eq!(h.read_pixel(2, 2), Rgb::new(127, 0, 0));
    assert_eq!(h.read_pixel(1, 0), Rgb::new(63, 0, 0));
}

#[test]
fn sprites_blend_by_their_alpha() {
    let mut d = screen(PixelFormat::Rgb, 3);
    let sprite = [255u8, 0, 0, 255, 0, 255, 0, 0];
    d.blit_rgba_sprite(1, 1, 2, 1, &sprite);
    assert_eq!(d.read_pixel(1, 1), Rgb::new(255, 0, 0));
    assert_eq!(d.read_pixel(2, 1), Rgb::new(0, 0, 0));
}

#[test]
fn glow_orb_lights_the_centre() {
    let mut d = screen(PixelFormat::Rgb, 3);
    d.draw_glow_orb(1, 1, 1, Rgb::new(0, 0, 255));
    let c = d.read_pixel(1, 1);
    assert!(c.b > 0 && c.r > 0);
}

#[test]
fn bresenham_line() {
    let mut d = screen(PixelFormat::Rgb, 3);
    d.draw_line(0, 0, 3, 2, Rgb::new(1, 1, 1));
    let on = [(0, 0), (1, 1), (2, 1), (3, 2)];
    for y in 0..3 {
        for x in 0..4 {
            let expect = if on.contains(&(x, y)) { Rgb::new(1, 1, 1) } else { Rgb::new(0, 0, 0) };
            assert_eq!(d.read_pixel(x, y), expect, "pixel {} {}", x, y);
        }
    }
    let mut back = screen(PixelFormat::Rgb, 3);
    back.draw_line(3, 2, 0, 0, Rgb::new(1, 1, 1));
    assert_eq!(back.read_pixel(0, 0), Rgb::new(1, 1, 1));
    assert_eq!(back.read_pixel(3, 2), Rgb::new(1, 1, 1));
}

#[test]
fn midpoint_circle_outline() {
    let mut d = screen(PixelFormat::Rgb, 3);
    d.circle_outline(1, 1, 1, Rgb::new(2, 2, 2));
    for y in 0..3 {
        for x in 0..3 {
            let expect = if (x, y) == (1, 1) { Rgb::new(0, 0, 0) } else { Rgb::new(2, 2, 2) };
            assert_eq!(d.read_pixel(x, y), expect, "pixel {} {}", x, y);
        }
    }
    let mut dotted = screen(PixelFormat::Rgb, 3);
    dotted.dotted_circle_outline(1, 1, 1, 1, Rgb::new(2, 2, 2));
    assert_eq!(dotted.read_pixel(2, 1), Rgb::new(2, 2, 2));
    assert_eq!(dotted.read_pixel(2, 2), Rgb::new(0, 0, 0));
}

#[test]
fn rounded_rectangles() {
    let mut d = screen(PixelFormat::Rgb, 3);
    d.rect_rounded_alpha(0, 0, 4, 3, 0, Rgb::new(0, 0, 0), 256);
    assert_eq!(d.read_pixel(0, 0), Rgb::new(4, 4, 4));
    assert_eq!(d.read_pixel(1, 0), Rgb::new(0, 0, 0));
    let mut r = screen(PixelFormat::Rgb, 3);
    r.rect_rounded_alpha(0, 0, 4, 3, 1, Rgb::new(100, 100, 100), 256);
    assert_eq!(r.read_pixel(0, 0), Rgb::new(0, 0, 0));
    assert_eq!(r.read_pixel(1, 0), Rgb::new(100, 100, 100));
    assert_eq!(r.read_pixel(1, 1), Rgb::new(104, 104, 104));
    let mut o = screen(PixelFormat::Rgb, 3);
    o.rect_rounded_outline(0, 0, 4, 3, 1, Rgb::new(9, 9, 9));
    assert_eq!(o.read_pixel(1, 0), Rgb::new(9, 9, 9));
    assert_eq!(o.read_pixel(0, 1), Rgb::new(9, 9, 9));
    let mut g = screen(PixelFormat::Rgb, 3);
    g.gradient_rect_h_rounded_top(0, 0, 4, 3, 1, Rgb::new(0, 0, 0), Rgb::new(255, 255, 255));
    assert_eq!(g.read_pixel(1, 0), Rgb::new(63, 63, 63));
    assert_eq!(g.read_pixel(0, 1), Rgb::new(0, 0, 0));
}

#[test]
fn radial_ticks() {
    let mut d = screen(PixelFormat::Rgb, 3);
    d.draw_arc_ticks(0, 1, 2, 1, 1, 1, 0, Rgb::new(5, 5, 5));
    assert_eq!(d.read_pixel(1, 1), Rgb::new(5, 5, 5));
    assert_eq!(d.read_pixel(2, 1), Rgb::new(5, 5, 5));
    assert_eq!(d.read_pixel(3, 1), Rgb::new(5, 5, 5));
    assert_eq!(d.read_pixel(0, 1), Rgb::new(0, 0, 0));
}

#[test]
fn glass_panel_and_bloom() {
    let fx = EffectRenderer::new();
    let mut d = screen(PixelFormat::Rgb, 3);
    fx.draw_glass_panel(&mut d, 0, 0, 4, 3, 1, Rgb::new(0, 0, 100), 128);
    assert_eq!(d.read_pixel(1, 0), Rgb::new(255, 255, 255));
    let mut b = screen(PixelFormat::Rgb, 3);
    fx.draw_bloom(&mut b, 1, 1, 3, Rgb::new(0, 200, 0), 256);
    assert!(b.read_pixel(1, 1).g > 0);
}
