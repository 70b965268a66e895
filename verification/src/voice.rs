use crate::audio::{AudioDriver, AudioState};
use crate::bytes::tdiv;
use crate::math::{sinish, sinish_spec};
use crate::text::{push_str, to_string};
use vstd::prelude::*;
use vstd::string::StringSliceAdditionalSpecFns;

verus! {

/// The formant voice: whether it speaks, and its output rate.
pub struct VoiceSynthesizer {
    pub is_enabled: bool,
    pub sample_rate: u32,
}

/// ASCII lower case of a byte; other bytes are left alone.
pub open spec fn lower_byte(b: u8) -> u8 {
    if 0x41 <= b <= 0x5a {
        (b + 32) as u8
    } else {
        b
    }
}

/// First formant, second formant and duration in milliseconds of a lower-case byte.
pub open spec fn formant_spec(b: u8) -> (u64, u64, u64) {
    if b == 0x61 {
        (730, 1090, 40)
    } else if b == 0x65 {
        (530, 1840, 35)
    } else if b == 0x69 {
        (270, 2290, 35)
    } else if b == 0x6f {
        (570, 840, 40)
    } else if b == 0x75 {
        (300, 870, 40)
    } else if b == 0x72 || b == 0x6c {
        (400, 1300, 30)
    } else if b == 0x73 || b == 0x7a {
        (200, 3000, 25)
    } else if b == 0x74 || b == 0x64 {
        (350, 1700, 20)
    } else if b == 0x6d || b == 0x6e {
        (250, 1000, 30)
    } else if b == 0x20 {
        (0, 0, 20)
    } else {
        (450, 1500, 25)
    }
}

/// Sample `i` of the two-formant wave at `rate`.
pub open spec fn voice_sample(i: int, f1: int, f2: int, rate: int) -> i16 {
    tdiv(
        sinish_spec(((i * f1 * 256) / rate) as i32 as int) * 6000 + sinish_spec(
            ((i * f2 * 256) / rate) as i32 as int,
        ) * 3000,
        256,
    ) as i16
}

/// The samples spoken for one byte of text at `rate`: silence for a space.
pub open spec fn voice_segment(b: u8, rate: int) -> Seq<i16> {
    let (f1, f2, ms) = formant_spec(lower_byte(b));
    let count = (rate * ms) / 1000;
    if f1 == 0 {
        Seq::new(count as nat, |i: int| 0i16)
    } else {
        Seq::new(count as nat, |i: int| voice_sample(i, f1 as int, f2 as int, rate))
    }
}

/// The samples spoken for the bytes `bs` at `rate`, one segment per byte.
pub open spec fn voice_pcm(bs: Seq<u8>, rate: int) -> Seq<i16>
    decreases bs.len(),
{
    if bs.len() == 0 {
        Seq::empty()
    } else {
        voice_pcm(bs.drop_last(), rate) + voice_segment(bs.last(), rate)
    }
}

/// The formants and duration for a byte of text, taken in ASCII lower case.
pub fn formant(b: u8) -> (r: (u64, u64, u64))
    ensures
        r == formant_spec(lower_byte(b)),
{
    let c = if 0x41 <= b && b <= 0x5a { b + 32 } else { b };
    if c == 0x61 {
        (730, 1090, 40)
    } else if c == 0x65 {
        (530, 1840, 35)
    } else if c == 0x69 {
        (270, 2290, 35)
    } else if c == 0x6f {
        (570, 840, 40)
    } else if c == 0x75 {
        (300, 870, 40)
    } else if c == 0x72 || c == 0x6c {
        (400, 1300, 30)
    } else if c == 0x73 || c == 0x7a {
        (200, 3000, 25)
    } else if c == 0x74 || c == 0x64 {
        (350, 1700, 20)
    } else if c == 0x6d || c == 0x6e {
        (250, 1000, 30)
    } else if c == 0x20 {
        (0, 0, 20)
    } else {
        (450, 1500, 25)
    }
}

/// Appends the samples of one byte of text to `pcm`.
fn push_segment(pcm: &mut Vec<i16>, b: u8, rate: u32)
    ensures
        final(pcm)@ == old(pcm)@ + voice_segment(b, rate as int),
{
    let (f1, f2, ms) = formant(b);
    let count: u64 = (rate as u64 * ms) / 1000;
    let ghost start = pcm@;
    let mut i: u64 = 0;
    while i < count
        invariant
            (f1, f2, ms) == formant_spec(lower_byte(b)),
            count == (rate * ms) / 1000,
            i <= count,
            pcm@ =~= start + voice_segment(b, rate as int).take(i as int),
        decreases count - i,
    {
        if f1 == 0 {
            pcm.push(0);
        } else {
            assert(i * f2 <= count * 3000 && count <= rate * 40 / 1000 && i * f1 <= count * 3000)
                by (nonlinear_arith)
                requires
                    i < count,
                    f1 <= 730,
                    f2 <= 3000,
                    ms <= 40,
                    count == (rate * ms) / 1000,
            ;
            let phase1 = ((i * f1 * 256) / rate as u64) as i32;
            let phase2 = ((i * f2 * 256) / rate as u64) as i32;
            let wave1 = sinish(phase1);
            let wave2 = sinish(phase2);
            let sample = ((wave1 * 6000 + wave2 * 3000) / 256) as i16;
            pcm.push(sample);
        }
        i += 1;
    }
    assert(voice_segment(b, rate as int).take(count as int) =~= voice_segment(b, rate as int));
}

/// The first formant of each byte, in order.
pub open spec fn pulses_of(bs: Seq<u8>) -> Seq<u32>
    decreases bs.len(),
{
    if bs.len() == 0 {
        Seq::empty()
    } else {
        pulses_of(bs.drop_last()).push(formant_spec(lower_byte(bs.last())).0 as u32)
    }
}

/// The speaker pulses for `bs`: each byte's first formant, then 0 (speaker off).
pub open spec fn speaker_spec(bs: Seq<u8>) -> Seq<u32> {
    pulses_of(bs).push(0u32)
}

impl VoiceSynthesizer {
    pub fn new() -> (r: Self)
        ensures
            r.is_enabled,
            r.sample_rate == 22050,
    {
        Self { is_enabled: true, sample_rate: 22050 }
    }

    /// Renders text as 16-bit PCM, one two-formant segment per byte.
    pub fn synthesize(&self, text: &str) -> (r: Vec<i16>)
        ensures
            r@ == voice_pcm(text.spec_bytes(), self.sample_rate as int),
    {
        let bs = text.as_bytes();
        let mut pcm: Vec<i16> = Vec::new();
        let mut k: usize = 0;
        while k < bs.len()
            invariant
                bs@ == text.spec_bytes(),
                k <= bs@.len(),
                pcm@ == voice_pcm(bs@.take(k as int), self.sample_rate as int),
            decreases bs@.len() - k,
        {
            push_segment(&mut pcm, bs[k], self.sample_rate);
            assert(bs@.take(k + 1).drop_last() =~= bs@.take(k as int));
            k += 1;
        }
        assert(bs@.take(bs@.len() as int) =~= bs@);
        pcm
    }

    /// The PC-speaker pulses that go with speaking `text`: for each byte its first formant in
    /// hertz (0 for a space, which silences the speaker), then a final 0 that turns it off.
    pub fn speaker_pulses(&self, text: &str) -> (r: Vec<u32>)
        ensures
            r@ == speaker_spec(text.spec_bytes()),
    {
        let bs = text.as_bytes();
        let mut r: Vec<u32> = Vec::new();
        let mut k: usize = 0;
        while k < bs.len()
            invariant
                bs@ == text.spec_bytes(),
                k <= bs@.len(),
                r@ == pulses_of(bs@.take(k as int)),
            decreases bs@.len() - k,
        {
            let (f1, _f2, _ms) = formant(bs[k]);
            r.push(f1 as u32);
            assert(bs@.take(k + 1).drop_last() =~= bs@.take(k as int));
            k += 1;
        }
        assert(bs@.take(bs@.len() as int) =~= bs@);
        r.push(0);
        r
    }

    /// Speaks `text`: loads its samples into `audio` under a "Voice TTS" track and plays them.
    pub fn speak(&self, text: &str, audio: &mut AudioDriver)
        ensures
            final(audio).pcm_buffer@ == voice_pcm(text.spec_bytes(), self.sample_rate as int),
            final(audio).playback_position == 0,
            final(audio).active_track matches Some(t) && t@ == "Voice TTS: \""@ + text@ + "\""@,
            final(audio).state == AudioState::Playing,
            final(audio).volume == old(audio).volume,
            final(audio).current_sample_rate == old(audio).current_sample_rate,
    {
        let samples = self.synthesize(text);
        let mut track: Vec<char> = Vec::new();
        push_str(&mut track, "Voice TTS: \"");
        push_str(&mut track, text);
        push_str(&mut track, "\"");
        audio.pcm_buffer = samples;
        audio.playback_position = 0;
        audio.active_track = Some(to_string(track.as_slice()));
        audio.state = AudioState::Playing;
    }
}

} // verus!
