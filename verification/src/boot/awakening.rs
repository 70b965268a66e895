use vstd::prelude::*;
use crate::ai_model::trunc_rem;
use crate::display::Rgb;

verus! {

/// Length of the boot sequence in milliseconds.
pub const AWAKENING_MS: u32 = 1600;

/// Number of energy particles around the orb.
pub const PARTICLES: usize = 48;

/// One energy particle: its angle (degrees), distance from the orb, speed and colour.
#[derive(Clone, Copy)]
pub struct Particle {
    pub angle: i32,
    pub dist: isize,
    pub speed: isize,
    pub color: Rgb,
}

/// The cyberpunk boot sequence: its particles.
pub struct Awakening {
    pub particles: Vec<Particle>,
}

/// Cyan, magenta and amber, the three particle colours in turn.
pub open spec fn particle_color(i: int) -> Rgb {
    if i % 3 == 0 {
        Rgb { r: 0, g: 229, b: 255 }
    } else if i % 3 == 1 {
        Rgb { r: 220, g: 60, b: 255 }
    } else {
        Rgb { r: 255, g: 160, b: 40 }
    }
}

/// Particle `i` at the start: spread evenly round the circle, at staggered distances and
/// speeds.
pub open spec fn initial_particle(i: int) -> Particle {
    Particle {
        angle: ((i * 360 / 48) % 360) as i32,
        dist: (120 + (i * 7) % 240) as isize,
        speed: (4 + i % 6) as isize,
        color: particle_color(i),
    }
}

/// The distance each particle settles at once the particles orbit.
pub open spec fn orbit_radius(i: int) -> int {
    150 + (i * 13) % 60
}

/// Particle `i` one frame later: it turns by its speed; while converging it falls inward
/// (no closer than 30), afterwards it moves two units a frame toward its orbit.
pub open spec fn particle_after(p: Particle, i: int, converging: bool) -> Particle {
    let dist: int = if converging {
        if p.dist - p.speed > 30 {
            p.dist - p.speed
        } else {
            30
        }
    } else if p.dist < orbit_radius(i) {
        p.dist + 2
    } else if p.dist > orbit_radius(i) {
        p.dist - 2
    } else {
        p.dist as int
    };
    Particle { angle: trunc_rem(p.angle + (p.speed as i32), 360) as i32, dist: dist as isize, ..p }
}

/// Whether particle `p` can take one more step without overflow.
pub open spec fn particle_fits(p: Particle, converging: bool) -> bool {
    &&& i32::MIN <= p.angle + (p.speed as i32) <= i32::MAX
    &&& converging ==> isize::MIN <= p.dist - p.speed <= isize::MAX
    &&& !converging ==> isize::MIN + 2 <= p.dist <= isize::MAX - 2
}

fn color_of(i: usize) -> (c: Rgb)
    ensures
        c == particle_color(i as int),
{
    if i % 3 == 0 {
        Rgb::new(0, 229, 255)
    } else if i % 3 == 1 {
        Rgb::new(220, 60, 255)
    } else {
        Rgb::new(255, 160, 40)
    }
}

impl Awakening {
    pub fn new() -> (a: Self)
        ensures
            a.particles@.len() == PARTICLES,
            forall|i: int| 0 <= i < PARTICLES ==> #[trigger] a.particles@[i] == initial_particle(i),
    {
        let mut particles: Vec<Particle> = Vec::new();
        let mut i: usize = 0;
        while i < PARTICLES
            invariant
                i <= PARTICLES,
                particles@.len() == i,
                forall|j: int| 0 <= j < i ==> #[trigger] particles@[j] == initial_particle(j),
            decreases PARTICLES - i,
        {
            let angle = ((i * 360 / 48) % 360) as i32;
            let dist = (120 + (i * 7) % 240) as isize;
            let speed = (4 + i % 6) as isize;
            particles.push(Particle { angle, dist, speed, color: color_of(i) });
            i += 1;
        }
        Self { particles }
    }

    /// Whether the sequence at `elapsed_ms` is in its first quarter, when the particles
    /// converge.
    pub fn converging(elapsed_ms: u32) -> (r: bool)
        ensures
            r == (elapsed_ms * 4 < AWAKENING_MS),
    {
        elapsed_ms < AWAKENING_MS / 4
    }

    /// Moves every particle one frame on.
    pub fn step(&mut self, converging: bool)
        requires
            old(self).particles@.len() == PARTICLES,
            forall|i: int| 0 <= i < PARTICLES ==> particle_fits(#[trigger] old(self).particles@[i], converging),
        ensures
            final(self).particles@.len() == PARTICLES,
            forall|i: int|
                0 <= i < PARTICLES ==> #[trigger] final(self).particles@[i] == particle_after(
                    old(self).particles@[i],
                    i,
                    converging,
                ),
    {
        let ghost p0 = self.particles@;
        let mut i: usize = 0;
        while i < self.particles.len()
            invariant
                self.particles@.len() == PARTICLES,
                i <= PARTICLES,
                forall|j: int| 0 <= j < i ==> #[trigger] self.particles@[j] == particle_after(p0[j], j, converging),
                forall|j: int| i <= j < PARTICLES ==> #[trigger] self.particles@[j] == p0[j],
                forall|j: int| 0 <= j < PARTICLES ==> particle_fits(#[trigger] p0[j], converging),
            decreases PARTICLES - i,
        {
            let mut part = self.particles[i];
            assert(part == p0[i as int]);
            part.angle = (part.angle + (part.speed as i32)) % 360;
            if converging {
                let d = part.dist - part.speed;
                part.dist = if d > 30 {
                    d
                } else {
                    30
                };
            } else {
                let target = 150 + ((i as isize * 13) % 60);
                if part.dist < target {
                    part.dist += 2;
                } else if part.dist > target {
                    part.dist -= 2;
                }
            }
            self.particles.set(i, part);
            i += 1;
        }
    }
}

} // verus!
