use vstd::prelude::*;

verus! {

/// The fade between two boot scenes.
pub struct Transition {
    pub fade_ms: u32,
    pub pulse_alpha: u16,
}

impl Transition {
    /// The cinematic preset: a 300 ms fade with a pulse of alpha 96.
    pub fn cinematic() -> (t: Self)
        ensures
            t.fade_ms == 300 && t.pulse_alpha == 96,
    {
        Self { fade_ms: 300, pulse_alpha: 96 }
    }
}

} // verus!
