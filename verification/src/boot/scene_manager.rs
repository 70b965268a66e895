use vstd::prelude::*;

verus! {

/// One scene of the boot sequence: its name, how long it shows, how long it fades, and the
/// index of the boot frame image it shows.
pub struct SceneDef {
    pub name: String,
    pub duration_ms: u32,
    pub fade_ms: u32,
    pub frame: usize,
}

/// Plays a list of scenes back to back, each overlapping the one before by its fade.
pub struct SceneManager {
    pub scenes: Vec<SceneDef>,
    pub time_ms: u32,
    pub done: bool,
}

/// `a + b`, saturating at `u32::MAX`.
pub open spec fn sat_add(a: int, b: int) -> int {
    if a + b > u32::MAX {
        u32::MAX as int
    } else {
        a + b
    }
}

/// The saturating sum of the durations of the first `n` scenes.
pub open spec fn durations_before(s: Seq<SceneDef>, n: int) -> int
    decreases n,
{
    if n <= 0 {
        0
    } else {
        sat_add(durations_before(s, n - 1), s[n - 1].duration_ms as int)
    }
}

/// When scene `idx` starts: the durations before it, less one fade of its own for each of
/// them (all saturating).
pub open spec fn scene_start_spec(s: Seq<SceneDef>, idx: int) -> int {
    if idx == 0 {
        0
    } else {
        let overlap = if (idx as u32) * s[idx].fade_ms > u32::MAX {
            u32::MAX as int
        } else {
            (idx as u32) * s[idx].fade_ms
        };
        if durations_before(s, idx) > overlap {
            durations_before(s, idx) - overlap
        } else {
            0
        }
    }
}

/// The opacity (0..=256) of scene `idx` at time `t`: zero outside the scene, rising over
/// its fade at the start, falling over its fade at the end, full in between.
pub open spec fn scene_alpha_spec(s: Seq<SceneDef>, idx: int, t: int) -> int {
    let start = scene_start_spec(s, idx);
    let dur = s[idx].duration_ms as int;
    let fade = if s[idx].fade_ms >= 1 {
        s[idx].fade_ms as int
    } else {
        1
    };
    let local = t - start;
    let fade_out = if dur > fade {
        dur - fade
    } else {
        0
    };
    if t < start || t >= start + dur {
        0
    } else if local < fade {
        local * 256 / fade
    } else if local >= fade_out {
        (dur - local) * 256 / fade
    } else {
        256
    }
}

impl SceneManager {
    pub fn new(scenes: Vec<SceneDef>) -> (m: Self)
        ensures
            m.scenes@ == scenes@ && m.time_ms == 0 && !m.done,
    {
        Self { scenes, time_ms: 0, done: false }
    }

    /// The start time of scene `idx`.
    pub fn scene_start(&self, idx: usize) -> (r: u32)
        requires
            idx < self.scenes@.len(),
        ensures
            r == scene_start_spec(self.scenes@, idx as int),
    {
        if idx == 0 {
            return 0;
        }
        let mut sum = 0u32;
        let mut i = 0usize;
        while i < idx
            invariant
                i <= idx < self.scenes@.len(),
                sum == durations_before(self.scenes@, i as int),
            decreases idx - i,
        {
            sum = sum.saturating_add(self.scenes[i].duration_ms);
            i += 1;
        }
        let a = (idx as u32) as u64;
        let b = self.scenes[idx].fade_ms as u64;
        assert(a * b <= u64::MAX) by (nonlinear_arith)
            requires
                a <= u32::MAX,
                b <= u32::MAX,
        {
            assert(a * b <= u32::MAX * b);
            assert(u32::MAX * b <= u32::MAX * u32::MAX);
        }
        let prod = a * b;
        let overlap = if prod > u32::MAX as u64 {
            u32::MAX
        } else {
            prod as u32
        };
        sum.saturating_sub(overlap)
    }

    /// The opacity of scene `idx` at the current time.
    pub fn scene_alpha(&self, idx: usize) -> (a: u16)
        requires
            idx < self.scenes@.len(),
            scene_start_spec(self.scenes@, idx as int) + self.scenes@[idx as int].duration_ms <= u32::MAX,
        ensures
            a == scene_alpha_spec(self.scenes@, idx as int, self.time_ms as int),
            a <= 256,
    {
        let scene = &self.scenes[idx];
        let start = self.scene_start(idx);
        let end = start + scene.duration_ms;
        if self.time_ms < start || self.time_ms >= end {
            return 0;
        }
        let local = self.time_ms - start;
        let fade = if scene.fade_ms >= 1 {
            scene.fade_ms
        } else {
            1
        };
        if local < fade {
            let q = (local as u64 * 256) / fade as u64;
            assert(q < 256) by (nonlinear_arith)
                requires
                    q == (local * 256) / (fade as int),
                    local < fade,
            {
                assert(local * 256 < fade * 256);
            }
            return q as u16;
        }
        let fade_out_start = scene.duration_ms.saturating_sub(fade);
        if local >= fade_out_start {
            let remaining = scene.duration_ms - local;
            let q = (remaining as u64 * 256) / fade as u64;
            assert(q <= 256) by (nonlinear_arith)
                requires
                    q == (remaining * 256) / (fade as int),
                    remaining <= fade,
                    fade >= 1,
            {
                assert(remaining * 256 <= fade * 256);
            }
            return q as u16;
        }
        256
    }

    /// Advances the clock by `dt_ms` (saturating); the sequence is done once the clock
    /// reaches the end of the last scene, or at once when there are no scenes.
    pub fn tick(&mut self, dt_ms: u32)
        requires
            old(self).scenes@.len() > 0 ==> scene_start_spec(old(self).scenes@, old(self).scenes@.len() - 1)
                + old(self).scenes@.last().duration_ms <= u32::MAX,
        ensures
            final(self).scenes@ == old(self).scenes@,
            old(self).done ==> final(self).time_ms == old(self).time_ms && final(self).done,
            !old(self).done ==> final(self).time_ms == sat_add(old(self).time_ms as int, dt_ms as int)
                && final(self).done == (old(self).scenes@.len() == 0 || final(self).time_ms >= scene_start_spec(
                old(self).scenes@,
                old(self).scenes@.len() - 1,
            ) + old(self).scenes@.last().duration_ms),
    {
        if self.done {
            return;
        }
        self.time_ms = self.time_ms.saturating_add(dt_ms);
        if self.scenes.len() == 0 {
            self.done = true;
            return;
        }
        let last = self.scenes.len() - 1;
        let last_end = self.scene_start(last) + self.scenes[last].duration_ms;
        if self.time_ms >= last_end {
            self.done = true;
        }
    }
}

} // verus!
