//! The generative boot animation's per-boot seed.
use vstd::prelude::*;

verus! {

/// The generative boot renderer; its seed makes every boot's animation different.
pub struct GpuBoot {
    pub seed: u32,
}

impl GpuBoot {
    /// A renderer seeded from a timestamp-counter reading: the reading folded with itself
    /// shifted right by 17 and with 0x9E3779B9, truncated to 32 bits.
    pub fn new(tsc: u64) -> (g: Self)
        ensures
            g.seed == (tsc ^ (tsc >> 17u64) ^ 0x9E37_79B9u64) as u32,
    {
        GpuBoot { seed: (tsc ^ (tsc >> 17) ^ 0x9E37_79B9) as u32 }
    }

    /// The 16-bit hash that places swarm particle `n`: `n` and the seed mixed by
    /// multiplication, two xor-shifts and a second multiplication, all modulo 2^32.
    pub fn swarm_hash(&self, n: u32) -> (h: u16)
        ensures
            h == swarm_hash_spec(n, self.seed),
    {
        let mut h = n.wrapping_mul(2654435761).wrapping_add(self.seed.wrapping_mul(40503));
        h = h ^ (h >> 15);
        h = h.wrapping_mul(2246822519);
        h = h ^ (h >> 13);
        (h & 0xFFFF) as u16
    }

    /// The film-grain byte of pixel (`x`, `y`) at time `t_ms`: the coordinates (taken modulo
    /// 2^32), the time and the seed each multiplied by an odd constant and summed, modulo 2^32.
    pub fn grain(&self, x: usize, y: usize, t_ms: u32) -> (g: u8)
        ensures
            g == grain_spec(x as u32, y as u32, t_ms, self.seed),
    {
        let h = (x as u32).wrapping_mul(2654435761)
            .wrapping_add((y as u32).wrapping_mul(2246822519))
            .wrapping_add(t_ms.wrapping_mul(3266489917))
            .wrapping_add(self.seed.wrapping_mul(668265263));
        (h & 0xFF) as u8
    }
}

pub open spec fn swarm_hash_spec(n: u32, seed: u32) -> u16 {
    let h0 = n.wrapping_mul(2654435761).wrapping_add(seed.wrapping_mul(40503));
    let h1 = h0 ^ (h0 >> 15u32);
    let h2 = h1.wrapping_mul(2246822519);
    ((h2 ^ (h2 >> 13u32)) & 0xFFFF) as u16
}

pub open spec fn grain_spec(x: u32, y: u32, t: u32, seed: u32) -> u8 {
    (x.wrapping_mul(2654435761).wrapping_add(y.wrapping_mul(2246822519)).wrapping_add(
        t.wrapping_mul(3266489917),
    ).wrapping_add(seed.wrapping_mul(668265263)) & 0xFF) as u8
}

} // verus!
