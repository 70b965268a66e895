use vstd::prelude::*;
use crate::ai_model::trunc_rem;
use crate::boot::boot_state::BootStage;
use crate::text::{char_from_ascii, dec_spec, digit_char, to_string};

verus! {

/// Length of the boot timeline in milliseconds.
pub const TOTAL_MS: u32 = 2000;

/// The animated orb at the centre of the boot screen.
#[derive(Clone, Copy)]
pub struct OrbModel {
    pub radius: usize,
    pub glow: u16,
    pub rotation: i32,
    pub energy: u16,
    pub pulse: u16,
}

impl OrbModel {
    pub fn new() -> (o: Self)
        ensures
            o.radius == 2 && o.glow == 0 && o.rotation == 0 && o.energy == 0 && o.pulse == 0,
    {
        Self { radius: 2, glow: 0, rotation: 0, energy: 0, pulse: 0 }
    }
}

/// Time, stage and orb of the boot animation.
pub struct BootTimeline {
    pub elapsed_ms: u32,
    pub stage: BootStage,
    pub orb: OrbModel,
}

/// How far `now` has come from `start` to `end`, on a scale of 0 to 256.
pub open spec fn progress_spec(now: int, start: int, end: int) -> int {
    if now <= start {
        0
    } else if now >= end {
        256
    } else {
        (now - start) * 256 / (end - start)
    }
}

/// The stage that the timeline shows at `ms` milliseconds: one stage per two seconds.
pub open spec fn stage_at(ms: int) -> BootStage {
    if ms < 2000 {
        BootStage::PowerOn
    } else if ms < 4000 {
        BootStage::CoreFormation
    } else if ms < 6000 {
        BootStage::CoreOnline
    } else if ms < 8000 {
        BootStage::MemoryOnline
    } else if ms < 10000 {
        BootStage::VoiceOnline
    } else if ms < 12000 {
        BootStage::VisionOnline
    } else if ms < 14000 {
        BootStage::SkillsOnline
    } else if ms < 16000 {
        BootStage::KnowledgeGraph
    } else if ms < 18000 {
        BootStage::IdentityRestore
    } else {
        BootStage::WorkspaceReady
    }
}

/// The status line for a stage at `ms` milliseconds.
pub open spec fn status_for(stage: BootStage, ms: int) -> &'static str {
    match stage {
        BootStage::PowerOn => "SYSTEM POWER ON",
        BootStage::CoreFormation => "ENERGY INITIALIZING",
        BootStage::CoreOnline => "ATULYA CORE ONLINE",
        BootStage::MemoryOnline => "MEMORY ONLINE",
        BootStage::VoiceOnline => "VOICE ONLINE",
        BootStage::VisionOnline => "VISION ONLINE",
        BootStage::SkillsOnline => "SKILLS ONLINE",
        BootStage::KnowledgeGraph => "KNOWLEDGE GRAPH ACTIVATED",
        BootStage::IdentityRestore => "IDENTITY RESTORED",
        BootStage::WorkspaceReady => if ms < 19_400 {
            "PREPARING WORKSPACE"
        } else {
            "ATULYA IS READY"
        },
    }
}

/// The orb's rotation step for a frame of `dt` milliseconds: half of it, at least one degree.
pub open spec fn rotation_step(dt: int) -> int {
    if dt / 2 > 1 {
        dt / 2
    } else {
        1
    }
}

/// The scale-0..256 progress of `now` through `[start, end]`.
pub fn progress(now: u32, start: u32, end: u32) -> (p: u16)
    ensures
        p == progress_spec(now as int, start as int, end as int),
        p <= 256,
{
    if now <= start {
        return 0;
    }
    if now >= end {
        return 256;
    }
    let span = end - start;
    let a = (now - start) as u64;
    let q = (a * 256) / span as u64;
    assert(q < 256) by (nonlinear_arith)
        requires
            q == (a * 256) / (span as int),
            a < span,
            span > 0,
    {
        assert(a * 256 < span * 256);
    }
    q as u16
}

/// `base` moved by `delta`, saturating at zero and at `usize::MAX`.
pub fn signed_add(base: usize, delta: isize) -> (r: usize)
    ensures
        r == (if base + delta < 0 {
            0
        } else if base + delta > usize::MAX {
            usize::MAX as int
        } else {
            base + delta
        }),
{
    if delta < 0 {
        let d = if delta == isize::MIN {
            (isize::MAX as usize) + 1
        } else {
            (-delta) as usize
        };
        base.saturating_sub(d)
    } else {
        base.saturating_add(delta as usize)
    }
}

/// The percentage label: `pct` (at most 100) in decimal, followed by `%`.
pub fn percent_text(pct: u32) -> (s: String)
    ensures
        s@ == dec_spec((if pct > 100 {
            100
        } else {
            pct
        }) as nat) + "%"@,
{
    proof {
        reveal_strlit("%");
        reveal_with_fuel(dec_spec, 3);
    }
    let pct = if pct > 100 {
        100
    } else {
        pct
    };
    let mut v: Vec<char> = Vec::new();
    if pct == 100 {
        v.push('1');
        v.push('0');
        v.push('0');
        assert(dec_spec(10) == seq!['1', '0']);
        assert(v@ =~= dec_spec(100));
    } else if pct >= 10 {
        v.push(char_from_ascii(48 + (pct / 10) as u8));
        v.push(char_from_ascii(48 + (pct % 10) as u8));
        assert(v@ =~= dec_spec(pct as nat));
    } else {
        v.push(char_from_ascii(48 + pct as u8));
        assert(v@ =~= dec_spec(pct as nat));
    }
    v.push('%');
    to_string(v.as_slice())
}

impl BootTimeline {
    pub fn new() -> (t: Self)
        ensures
            t.elapsed_ms == 0 && t.stage == BootStage::PowerOn,
            t.orb == (OrbModel { radius: 2, glow: 0, rotation: 0, energy: 0, pulse: 0 }),
    {
        Self { elapsed_ms: 0, stage: BootStage::PowerOn, orb: OrbModel::new() }
    }

    /// The stage for the current elapsed time.
    pub fn stage_for_time(&self) -> (s: BootStage)
        ensures
            s == stage_at(self.elapsed_ms as int),
    {
        let ms = self.elapsed_ms;
        if ms < 2000 {
            BootStage::PowerOn
        } else if ms < 4000 {
            BootStage::CoreFormation
        } else if ms < 6000 {
            BootStage::CoreOnline
        } else if ms < 8000 {
            BootStage::MemoryOnline
        } else if ms < 10000 {
            BootStage::VoiceOnline
        } else if ms < 12000 {
            BootStage::VisionOnline
        } else if ms < 14000 {
            BootStage::SkillsOnline
        } else if ms < 16000 {
            BootStage::KnowledgeGraph
        } else if ms < 18000 {
            BootStage::IdentityRestore
        } else {
            BootStage::WorkspaceReady
        }
    }

    /// Advances the timeline by `dt_ms`: the clock stops at the end, the stage follows the
    /// clock, and the orb turns, pulses, grows and glows.
    pub fn tick(&mut self, dt_ms: u32)
        requires
            old(self).orb.pulse + dt_ms * 3 <= u32::MAX,
            old(self).orb.rotation + rotation_step(dt_ms as int) <= i32::MAX,
        ensures
            final(self).elapsed_ms == (if old(self).elapsed_ms + dt_ms > TOTAL_MS {
                TOTAL_MS as int
            } else {
                old(self).elapsed_ms + dt_ms
            }),
            final(self).stage == stage_at(final(self).elapsed_ms as int),
            final(self).orb.rotation == trunc_rem(old(self).orb.rotation + rotation_step(dt_ms as int), 360),
            final(self).orb.pulse == (old(self).orb.pulse + dt_ms * 3) % 1024,
            final(self).orb.energy == progress_spec(final(self).elapsed_ms as int, 0, 4000),
            final(self).orb.radius == 3 + progress_spec(final(self).elapsed_ms as int, 2000, 4000) * 88 / 256,
            final(self).orb.glow == (if progress_spec(final(self).elapsed_ms as int, 0, 4000) >= progress_spec(
                final(self).elapsed_ms as int,
                4000,
                TOTAL_MS as int,
            ) / 2 {
                progress_spec(final(self).elapsed_ms as int, 0, 4000)
            } else {
                progress_spec(final(self).elapsed_ms as int, 4000, TOTAL_MS as int) / 2
            }),
    {
        let e = self.elapsed_ms.saturating_add(dt_ms);
        self.elapsed_ms = if e > TOTAL_MS {
            TOTAL_MS
        } else {
            e
        };
        self.stage = self.stage_for_time();
        let half = (dt_ms as i32) / 2;
        let step = if half > 1 {
            half
        } else {
            1
        };
        self.orb.rotation = (self.orb.rotation + step) % 360;
        self.orb.pulse = ((self.orb.pulse as u32 + dt_ms * 3) % 1024) as u16;
        self.orb.energy = progress(self.elapsed_ms, 0, 4000);
        let grow = progress(self.elapsed_ms, 0, 4000) as usize;
        let formed = progress(self.elapsed_ms, 2000, 4000) as usize;
        self.orb.radius = 3 + (formed * 88 / 256);
        let late = progress(self.elapsed_ms, 4000, TOTAL_MS) / 2;
        self.orb.glow = if (grow as u16) >= late {
            grow as u16
        } else {
            late
        };
    }

    /// The status line shown under the orb for the current stage; the last stage reads
    /// "PREPARING WORKSPACE" until 19.4 s and "ATULYA IS READY" from then on.
    pub fn status_text(&self) -> (s: &'static str)
        ensures
            s == status_for(self.stage, self.elapsed_ms as int),
    {
        match self.stage {
            BootStage::PowerOn => "SYSTEM POWER ON",
            BootStage::CoreFormation => "ENERGY INITIALIZING",
            BootStage::CoreOnline => "ATULYA CORE ONLINE",
            BootStage::MemoryOnline => "MEMORY ONLINE",
            BootStage::VoiceOnline => "VOICE ONLINE",
            BootStage::VisionOnline => "VISION ONLINE",
            BootStage::SkillsOnline => "SKILLS ONLINE",
            BootStage::KnowledgeGraph => "KNOWLEDGE GRAPH ACTIVATED",
            BootStage::IdentityRestore => "IDENTITY RESTORED",
            BootStage::WorkspaceReady => {
                if self.elapsed_ms < 19_400 {
                    "PREPARING WORKSPACE"
                } else {
                    "ATULYA IS READY"
                }
            },
        }
    }

    /// The percentage of the timeline that has run, at most 100.
    pub fn percent(&self) -> (p: u32)
        ensures
            p == (if self.elapsed_ms > TOTAL_MS { TOTAL_MS as int } else { self.elapsed_ms as int }) * 100
                / TOTAL_MS as int,
    {
        let e = if self.elapsed_ms > TOTAL_MS { TOTAL_MS } else { self.elapsed_ms };
        e * 100 / TOTAL_MS
    }

    /// Whether the timeline has reached its end.
    pub fn done(&self) -> (r: bool)
        ensures
            r == (self.elapsed_ms >= TOTAL_MS),
    {
        self.elapsed_ms >= TOTAL_MS
    }
}

/// The clock after a run of ticks of `ds` milliseconds from a fresh timeline, each tick
/// stopping the clock at the end as `tick` does.
pub open spec fn elapsed_after(ds: Seq<u32>) -> int
    decreases ds.len(),
{
    if ds.len() == 0 {
        0
    } else {
        let e = elapsed_after(ds.drop_last());
        if e + ds.last() > TOTAL_MS {
            TOTAL_MS as int
        } else {
            e + ds.last()
        }
    }
}

/// The sum of the tick lengths.
pub open spec fn total_ms(ds: Seq<u32>) -> int
    decreases ds.len(),
{
    if ds.len() == 0 {
        0
    } else {
        total_ms(ds.drop_last()) + ds.last()
    }
}

/// After a run of ticks the clock reads their sum, stopped at the end; so the timeline is done
/// exactly when the ticks add up to its length, and once done it stays done whatever ticks
/// follow.
pub proof fn lemma_timeline_latches(ds: Seq<u32>, d: u32)
    ensures
        elapsed_after(ds) == (if total_ms(ds) > TOTAL_MS { TOTAL_MS as int } else { total_ms(ds) }),
        (elapsed_after(ds) >= TOTAL_MS) == (total_ms(ds) >= TOTAL_MS),
        elapsed_after(ds) >= TOTAL_MS ==> elapsed_after(ds.push(d)) >= TOTAL_MS,
    decreases ds.len(),
{
    if ds.len() > 0 {
        lemma_timeline_latches(ds.drop_last(), ds.last());
    }
    assert(ds.push(d).drop_last() =~= ds);
}

} // verus!
