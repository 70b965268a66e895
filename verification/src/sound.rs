//! The PC speaker: the PIT divisor for a tone, the speaker-enable bits, and the chimes.
use vstd::prelude::*;

verus! {

/// Input clock of the programmable interval timer, in Hz.
pub const PIT_FREQUENCY: u32 = 1_193_180;

/// The PC speaker.
pub struct Sound;

/// One note: frequency in Hz, how long it sounds, and the pause after it (both in delay
/// loop iterations).
#[derive(Clone, Copy, PartialEq, Eq, Structural, Debug)]
pub struct Note {
    pub freq: u32,
    pub duration: usize,
    pub pause: usize,
}

impl Sound {
    /// The channel-2 divisor for a square wave of `freq` Hz, truncated to 16 bits as the
    /// timer's register takes it.
    pub fn tone_divisor(freq: u32) -> (d: u16)
        requires
            freq > 0,
        ensures
            d == (PIT_FREQUENCY / freq) as u16,
    {
        (PIT_FREQUENCY / freq) as u16
    }

    /// The speaker control byte that gates the timer to the speaker, if it is not already on.
    pub fn speaker_on(ctrl: u8) -> (r: Option<u8>)
        ensures
            ctrl % 4 == 3 ==> r.is_none(),
            ctrl % 4 != 3 ==> r == Some((ctrl - ctrl % 4 + 3) as u8),
    {
        if ctrl % 4 == 3 {
            None
        } else {
            Some(ctrl - ctrl % 4 + 3)
        }
    }

    /// The speaker control byte with both speaker bits cleared.
    pub fn speaker_off(ctrl: u8) -> (r: u8)
        ensures
            r == ctrl - ctrl % 4,
    {
        ctrl - ctrl % 4
    }

    /// The boot chime: C5, E5, G5, C6, E6, each for 6000 iterations with a pause of 1000.
    pub fn play_boot_chime() -> (notes: Vec<Note>)
        ensures
            notes@ == seq![
                Note { freq: 523, duration: 6000, pause: 1000 },
                Note { freq: 659, duration: 6000, pause: 1000 },
                Note { freq: 784, duration: 6000, pause: 1000 },
                Note { freq: 1046, duration: 6000, pause: 1000 },
                Note { freq: 1318, duration: 6000, pause: 1000 },
            ],
    {
        let freqs: [u32; 5] = [523, 659, 784, 1046, 1318];
        let mut notes: Vec<Note> = Vec::new();
        let mut i: usize = 0;
        while i < 5
            invariant
                i <= 5,
                freqs@ == seq![523u32, 659u32, 784u32, 1046u32, 1318u32],
                notes@.len() == i,
                forall|j: int|
                    0 <= j < i ==> #[trigger] notes@[j] == (Note { freq: freqs@[j], duration: 6000, pause: 1000 }),
            decreases 5 - i,
        {
            notes.push(Note { freq: freqs[i], duration: 6000, pause: 1000 });
            i += 1;
        }
        assert(notes@ =~= seq![
            Note { freq: 523, duration: 6000, pause: 1000 },
            Note { freq: 659, duration: 6000, pause: 1000 },
            Note { freq: 784, duration: 6000, pause: 1000 },
            Note { freq: 1046, duration: 6000, pause: 1000 },
            Note { freq: 1318, duration: 6000, pause: 1000 },
        ]);
        notes
    }

    /// The authorisation chime: A5 for 20000 iterations, then D6 for 35000.
    pub fn play_auth_chime() -> (notes: Vec<Note>)
        ensures
            notes@ == seq![
                Note { freq: 880, duration: 20000, pause: 0 },
                Note { freq: 1174, duration: 35000, pause: 0 },
            ],
    {
        let mut notes: Vec<Note> = Vec::new();
        notes.push(Note { freq: 880, duration: 20000, pause: 0 });
        notes.push(Note { freq: 1174, duration: 35000, pause: 0 });
        assert(notes@ =~= seq![
            Note { freq: 880, duration: 20000, pause: 0 },
            Note { freq: 1174, duration: 35000, pause: 0 },
        ]);
        notes
    }

    /// A single beep of `freq` Hz for `duration_cycles` iterations.
    pub fn beep(freq: u32, duration_cycles: usize) -> (n: Note)
        ensures
            n == (Note { freq, duration: duration_cycles, pause: 0 }),
    {
        Note { freq, duration: duration_cycles, pause: 0 }
    }
}

} // verus!
