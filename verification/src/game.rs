//! The asteroids arcade game that runs inside a desktop window: its state, the physics of a
//! frame, and the geometry of the ship.
use vstd::prelude::*;
use crate::ai_model::trunc_div;
use crate::math::{cosish, sinish, sinish_spec};

verus! {

pub struct Projectile {
    pub x: isize,
    pub y: isize,
    pub vx: isize,
    pub vy: isize,
    pub life: u8,
}

#[derive(Clone, Copy, PartialEq, Eq, Structural, Debug)]
pub struct Asteroid {
    pub x: isize,
    pub y: isize,
    pub vx: isize,
    pub vy: isize,
    pub radius: usize,
}

pub struct GameState {
    pub ship_x: isize,
    pub ship_y: isize,
    pub ship_angle: isize,
    pub score: u32,
    pub projectiles: Vec<Projectile>,
    pub asteroids: Vec<Asteroid>,
    pub initialized: bool,
}

/// The three asteroids the game starts with.
pub open spec fn starting_asteroids() -> Seq<Asteroid> {
    seq![
        Asteroid { x: 80, y: 60, vx: 1, vy: 1, radius: 16 },
        Asteroid { x: 300, y: 80, vx: -1isize, vy: 1, radius: 20 },
        Asteroid { x: 150, y: 180, vx: 1, vy: -1isize, radius: 14 },
    ]
}

/// A coordinate that left the playing field re-enters on the other side: below zero it
/// jumps to `hi`, beyond `hi` it jumps to zero.
pub open spec fn wrap_coord(v: int, hi: int) -> int {
    if v < 0 {
        hi
    } else if v > hi {
        0
    } else {
        v
    }
}

/// An asteroid one frame later in a field of `w` by `h`.
pub open spec fn asteroid_after(a: Asteroid, w: int, h: int) -> Asteroid {
    Asteroid { x: wrap_coord(a.x + a.vx, w) as isize, y: wrap_coord(a.y + a.vy, h) as isize, ..a }
}

/// Whether an asteroid can move one frame without overflow.
pub open spec fn asteroid_fits(a: Asteroid) -> bool {
    isize::MIN <= a.x + a.vx <= isize::MAX && isize::MIN <= a.y + a.vy <= isize::MAX
}

/// The playing field inside a window of `ww` by `wh`: a 10-pixel margin at the sides, 40 at
/// the top and 20 at the bottom.
pub open spec fn field_size(ww: usize, wh: usize) -> (isize, isize) {
    ((if ww > 20 {
        ww - 20
    } else {
        0
    }) as isize, (if wh > 60 {
        wh - 60
    } else {
        0
    }) as isize)
}

/// A screen coordinate, clamped at zero.
pub open spec fn screen_coord(v: int) -> usize {
    (if v > 0 {
        v
    } else {
        0
    }) as usize
}

/// The ship as a triangle (nose, left, right) for a ship at (`sx`, `sy`) facing `angle`
/// (in 1/256 turns of the integer sine table): the nose 12/256 of the unit vector ahead, the
/// wings half of it behind and to each side.
pub open spec fn ship_triangle(sx: int, sy: int, angle: int) -> [(usize, usize); 3] {
    let dx = trunc_div(sinish_spec(angle + 90) * 12, 256);
    let dy = trunc_div(sinish_spec(angle) * 12, 256);
    [
        (screen_coord(sx + dx), screen_coord(sy + dy)),
        (screen_coord(sx - trunc_div(dx, 2) - trunc_div(dy, 2)), screen_coord(sy - trunc_div(dy, 2) + trunc_div(dx, 2))),
        (screen_coord(sx - trunc_div(dx, 2) + trunc_div(dy, 2)), screen_coord(sy - trunc_div(dy, 2) - trunc_div(dx, 2))),
    ]
}

fn clamp_coord(v: isize) -> (r: usize)
    ensures
        r == screen_coord(v as int),
{
    if v > 0 {
        v as usize
    } else {
        0
    }
}

fn div_toward_zero(a: isize, b: isize) -> (q: isize)
    requires
        b > 0,
        -1_000_000 <= a <= 1_000_000,
    ensures
        q == trunc_div(a as int, b as int),
        -1_000_000 <= q <= 1_000_000,
{
    let q = if a < 0 {
        -((-a) / b)
    } else {
        a / b
    };
    proof {
        let n: int = if a < 0 { -a } else { a as int };
        vstd::arithmetic::div_mod::lemma_div_is_ordered_by_denominator(n, 1, b as int);
    }
    q
}

impl GameState {
    pub fn new() -> (g: Self)
        ensures
            g.ship_x == 200 && g.ship_y == 120 && g.ship_angle == 0 && g.score == 0,
            g.projectiles@.len() == 0 && g.asteroids@.len() == 0 && !g.initialized,
    {
        GameState {
            ship_x: 200,
            ship_y: 120,
            ship_angle: 0,
            score: 0,
            projectiles: Vec::new(),
            asteroids: Vec::new(),
            initialized: false,
        }
    }

    /// Sets out the three starting asteroids, once.
    pub fn init(&mut self)
        ensures
            final(self).initialized,
            !old(self).initialized ==> final(self).asteroids@ == old(self).asteroids@ + starting_asteroids(),
            old(self).initialized ==> final(self).asteroids@ == old(self).asteroids@,
            final(self).ship_x == old(self).ship_x && final(self).ship_y == old(self).ship_y,
            final(self).ship_angle == old(self).ship_angle && final(self).score == old(self).score,
            final(self).projectiles@ == old(self).projectiles@,
    {
        if self.initialized {
            return;
        }
        let ghost a0 = self.asteroids@;
        self.asteroids.push(Asteroid { x: 80, y: 60, vx: 1, vy: 1, radius: 16 });
        self.asteroids.push(Asteroid { x: 300, y: 80, vx: -1, vy: 1, radius: 20 });
        self.asteroids.push(Asteroid { x: 150, y: 180, vx: 1, vy: -1, radius: 14 });
        assert(self.asteroids@ =~= a0 + starting_asteroids());
        self.initialized = true;
    }

    /// The ship spins slowly: two steps of 1/256 turn per tick.
    pub fn spin_ship(&mut self, tick: u64)
        requires
            tick * 2 <= u64::MAX,
        ensures
            final(self).ship_angle == (tick * 2) % 256,
            final(self).ship_x == old(self).ship_x && final(self).ship_y == old(self).ship_y,
            final(self).asteroids@ == old(self).asteroids@ && final(self).initialized == old(self).initialized,
    {
        self.ship_angle = ((tick * 2) % 256) as isize;
    }

    /// The ship's triangle on screen for a window whose corner is at (`wx`, `wy`).
    pub fn ship_vertices(&self, wx: usize, wy: usize) -> (v: [(usize, usize); 3])
        requires
            0 <= self.ship_angle < 256,
            wx + 10 <= isize::MAX,
            wy + 40 <= isize::MAX,
            wx + 10 + self.ship_x + 100 <= isize::MAX,
            wy + 40 + self.ship_y + 100 <= isize::MAX,
            wx + 10 + self.ship_x - 100 >= isize::MIN,
            wy + 40 + self.ship_y - 100 >= isize::MIN,
        ensures
            v == ship_triangle(wx + 10 + self.ship_x, wy + 40 + self.ship_y, self.ship_angle as int),
    {
        let sx = (wx as isize + 10) + self.ship_x;
        let sy = (wy as isize + 40) + self.ship_y;
        let c = cosish(self.ship_angle as i32);
        let s = sinish(self.ship_angle as i32);
        let dir_x = div_toward_zero(c * 12, 256);
        let dir_y = div_toward_zero(s * 12, 256);
        let hx = div_toward_zero(dir_x, 2);
        let hy = div_toward_zero(dir_y, 2);
        [
            (clamp_coord(sx + dir_x), clamp_coord(sy + dir_y)),
            (clamp_coord(sx - hx - hy), clamp_coord(sy - hy + hx)),
            (clamp_coord(sx - hx + hy), clamp_coord(sy - hy - hx)),
        ]
    }

    /// Moves every asteroid one frame on inside a window of `ww` by `wh`.
    pub fn step_asteroids(&mut self, ww: usize, wh: usize)
        requires
            forall|i: int| 0 <= i < old(self).asteroids@.len() ==> asteroid_fits(#[trigger] old(self).asteroids@[i]),
        ensures
            final(self).asteroids@.len() == old(self).asteroids@.len(),
            forall|i: int|
                0 <= i < old(self).asteroids@.len() ==> #[trigger] final(self).asteroids@[i] == asteroid_after(
                    old(self).asteroids@[i],
                    field_size(ww, wh).0 as int,
                    field_size(ww, wh).1 as int,
                ),
            final(self).ship_x == old(self).ship_x && final(self).ship_y == old(self).ship_y,
            final(self).ship_angle == old(self).ship_angle && final(self).score == old(self).score,
            final(self).initialized == old(self).initialized,
    {
        let inner_w = ww.saturating_sub(20) as isize;
        let inner_h = wh.saturating_sub(60) as isize;
        let ghost a0 = self.asteroids@;
        let mut i: usize = 0;
        while i < self.asteroids.len()
            invariant
                self.asteroids@.len() == a0.len(),
                i <= a0.len(),
                inner_w == field_size(ww, wh).0 && inner_h == field_size(ww, wh).1,
                forall|j: int| 0 <= j < a0.len() ==> asteroid_fits(#[trigger] a0[j]),
                forall|j: int| 0 <= j < i ==> #[trigger] self.asteroids@[j] == asteroid_after(a0[j], inner_w as int, inner_h as int),
                forall|j: int| i <= j < a0.len() ==> #[trigger] self.asteroids@[j] == a0[j],
                self.ship_x == old(self).ship_x && self.ship_y == old(self).ship_y,
                self.ship_angle == old(self).ship_angle && self.score == old(self).score,
                self.initialized == old(self).initialized,
            decreases a0.len() - i,
        {
            let mut ast = self.asteroids[i];
            assert(ast == a0[i as int]);
            ast.x += ast.vx;
            ast.y += ast.vy;
            if ast.x < 0 {
                ast.x = inner_w;
            }
            if ast.x > inner_w {
                ast.x = 0;
            }
            if ast.y < 0 {
                ast.y = inner_h;
            }
            if ast.y > inner_h {
                ast.y = 0;
            }
            self.asteroids.set(i, ast);
            i += 1;
        }
    }
}

} // verus!
