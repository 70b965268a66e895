use crate::bytes::{as_signed16, le16, le32, read_le16, read_le32, read_le_i16, tdiv};
use crate::math::{sinish, sinish_spec};
use vstd::prelude::*;

verus! {

/// Playback state of the PCM stream.
#[derive(Clone, Copy, Debug, PartialEq, Eq, Structural)]
pub enum AudioState {
    Stopped,
    Playing,
    Paused,
}

/// What a RIFF/WAVE header describes.
pub struct WavInfo {
    pub channels: u16,
    pub sample_rate: u32,
    pub bits_per_sample: u16,
    pub total_samples: usize,
    pub duration_seconds: u32,
}

/// The PCM audio device: its state, its volume and the loaded stream.
pub struct AudioDriver {
    pub state: AudioState,
    pub volume: u8,
    pub current_sample_rate: u32,
    pub active_track: Option<String>,
    pub pcm_buffer: Vec<i16>,
    pub playback_position: usize,
}

/// The four bytes at `i` are `a b c e`.
pub open spec fn is_tag(d: Seq<u8>, i: int, a: u8, b: u8, c: u8, e: u8) -> bool {
    d[i] == a && d[i + 1] == b && d[i + 2] == c && d[i + 3] == e
}

/// The container starts with `RIFF`, has `WAVE` at offset 8 and is at least 44 bytes long.
pub open spec fn wav_header_ok(d: Seq<u8>) -> bool {
    &&& d.len() >= 44
    &&& is_tag(d, 0, 0x52, 0x49, 0x46, 0x46)
    &&& is_tag(d, 8, 0x57, 0x41, 0x56, 0x45)
}

/// How many bytes lie at or after `idx` in a container of `len` bytes.
pub open spec fn bytes_left(len: int, idx: int) -> nat {
    if idx < len {
        (len - idx) as nat
    } else {
        0
    }
}

/// Walks the chunks from `idx`, carrying the format seen so far, and yields
/// `(channels, sample_rate, bits_per_sample, data_start, data_len)`.
/// A `fmt ` chunk with 16 bytes of body sets the format; the first `data` chunk
/// ends the walk; without one the samples start at byte 44.
pub open spec fn wav_walk(d: Seq<u8>, idx: int, ch: int, rate: int, bits: int) -> (
    int,
    int,
    int,
    int,
    int,
)
    decreases bytes_left(d.len() as int, idx),
{
    if idx < 0 || idx + 8 >= d.len() {
        (ch, rate, bits, 44, d.len() - 44)
    } else {
        let size = le32(d, idx + 4);
        proof {
            assert(size >= 0);
        }
        if is_tag(d, idx, 0x66, 0x6d, 0x74, 0x20) && idx + 24 <= d.len() {
            wav_walk(d, idx + 8 + size, le16(d, idx + 10), le32(d, idx + 12), le16(d, idx + 22))
        } else if is_tag(d, idx, 0x64, 0x61, 0x74, 0x61) {
            let rest = d.len() - (idx + 8);
            (ch, rate, bits, idx + 8, if size < rest { size } else { rest })
        } else {
            wav_walk(d, idx + 8 + size, ch, rate, bits)
        }
    }
}

/// The layout of a WAVE container: the walk from byte 12 with stereo 16-bit 44.1 kHz defaults.
pub open spec fn wav_layout(d: Seq<u8>) -> (int, int, int, int, int) {
    wav_walk(d, 12, 2, 44100, 16)
}

/// 16-bit little-endian signed samples of `len` bytes from `start`.
pub open spec fn pcm16(d: Seq<u8>, start: int, len: int) -> Seq<i16> {
    Seq::new((len / 2) as nat, |k: int| as_signed16(le16(d, start + 2 * k)) as i16)
}

/// 8-bit unsigned samples of `len` bytes from `start`, widened to 16 bits.
pub open spec fn pcm8(d: Seq<u8>, start: int, len: int) -> Seq<i16> {
    Seq::new(len as nat, |k: int| ((d[start + k] - 128) * 256) as i16)
}

/// The samples a WAVE container holds; none for a depth other than 8 or 16 bits.
pub open spec fn wav_samples(d: Seq<u8>) -> Seq<i16> {
    let (ch, rate, bits, start, len) = wav_layout(d);
    if bits == 16 {
        pcm16(d, start, len)
    } else if bits == 8 {
        pcm8(d, start, len)
    } else {
        Seq::empty()
    }
}

/// Whole seconds of audio: samples over rate times channels.
pub open spec fn wav_duration(total: int, rate: int, ch: int) -> int {
    if rate > 0 && ch > 0 {
        ((total as u32) as int) / (rate * ch)
    } else {
        0
    }
}

/// The rate times the channel count of a valid container fits in 32 bits.
pub open spec fn wav_rate_fits(d: Seq<u8>) -> bool {
    wav_header_ok(d) ==> wav_layout(d).1 * wav_layout(d).0 <= u32::MAX
}

/// The angle (degrees, as `sinish` takes it) of sample `i` of a 44.1 kHz tone of `freq` Hz.
pub open spec fn tone_phase(i: int, freq: int) -> int {
    ((i * freq * 256) / 44100) as i32 as int
}

/// Sample `i` of a 44.1 kHz tone of `freq` Hz: the sine scaled to a peak of 10000.
pub open spec fn tone_sample(i: int, freq: int) -> i16 {
    tdiv(sinish_spec(tone_phase(i, freq)) * 10000, 1024) as i16
}

/// The sign of `x`: -1, 0 or 1.
pub open spec fn sign_of(x: int) -> int {
    if x > 0 { 1 } else if x < 0 { -1 } else { 0 }
}

/// A tone sample is the scaled sine itself: it fits in `i16` without wrapping, lies within
/// ±10000 and has the sign of the sine.
pub proof fn lemma_tone_sample(i: int, freq: int)
    ensures
        tone_sample(i, freq) as int == tdiv(sinish_spec(tone_phase(i, freq)) * 10000, 1024),
        -10000 <= tone_sample(i, freq) <= 10000,
        sign_of(tone_sample(i, freq) as int) == sign_of(sinish_spec(tone_phase(i, freq))),
{
    crate::math::lemma_sinish_range(tone_phase(i, freq));
    let s = sinish_spec(tone_phase(i, freq));
    if s >= 0 {
        assert(s * 10000 / 1024 <= 10000) by (nonlinear_arith)
            requires
                0 <= s <= 1024,
        ;
        if s > 0 {
            assert(s * 10000 / 1024 >= 9) by (nonlinear_arith)
                requires
                    1 <= s,
            ;
        }
    } else {
        assert((-s) * 10000 / 1024 <= 10000) by (nonlinear_arith)
            requires
                0 < -s <= 1024,
        ;
        assert((-s) * 10000 / 1024 >= 9) by (nonlinear_arith)
            requires
                1 <= -s,
        ;
        assert(-(s * 10000) == (-s) * 10000);
    }
}

/// The samples of a tone of `freq` Hz lasting `ms` milliseconds at 44.1 kHz.
pub open spec fn tone_samples(freq: int, ms: int) -> Seq<i16> {
    Seq::new(((44100 * ms) / 1000) as nat, |i: int| tone_sample(i, freq))
}

proof fn lemma_walk_step(d: Seq<u8>, idx: int, ch: int, rate: int, bits: int)
    requires
        0 <= idx,
        idx + 8 < d.len(),
    ensures
        wav_walk(d, idx, ch, rate, bits) == ({
            let size = le32(d, idx + 4);
            if is_tag(d, idx, 0x66, 0x6d, 0x74, 0x20) && idx + 24 <= d.len() {
                wav_walk(d, idx + 8 + size, le16(d, idx + 10), le32(d, idx + 12), le16(d, idx + 22))
            } else if is_tag(d, idx, 0x64, 0x61, 0x74, 0x61) {
                let rest = d.len() - (idx + 8);
                (ch, rate, bits, idx + 8, if size < rest { size } else { rest })
            } else {
                wav_walk(d, idx + 8 + size, ch, rate, bits)
            }
        }),
{
}

fn tag_at(d: &[u8], i: usize, a: u8, b: u8, c: u8, e: u8) -> (r: bool)
    requires
        i + 4 <= d@.len(),
    ensures
        r == is_tag(d@, i as int, a, b, c, e),
{
    d[i] == a && d[i + 1] == b && d[i + 2] == c && d[i + 3] == e
}

/// Walks the chunks of a container that passed the header checks.
fn walk_chunks(data: &[u8]) -> (r: (u16, u32, u16, usize, usize))
    requires
        data@.len() >= 44,
    ensures
        (r.0 as int, r.1 as int, r.2 as int, r.3 as int, r.4 as int) == wav_layout(data@),
        r.3 + r.4 <= data@.len(),
{
    let len = data.len();
    let mut idx: u128 = 12;
    let mut channels: u16 = 2;
    let mut sample_rate: u32 = 44100;
    let mut bits: u16 = 16;
    let mut data_start: usize = 44;
    let mut data_len: usize = len - 44;
    while idx + 8 < len as u128
        invariant_except_break
            len == data@.len(),
            len >= 44,
            12 <= idx <= len + 8 + u32::MAX,
            data_start == 44,
            data_len == len - 44,
            wav_walk(data@, idx as int, channels as int, sample_rate as int, bits as int)
                == wav_layout(data@),
        ensures
            (channels as int, sample_rate as int, bits as int, data_start as int, data_len as int)
                == wav_layout(data@),
            data_start + data_len <= len,
        decreases bytes_left(len as int, idx as int),
    {
        let i = idx as usize;
        proof {
            lemma_walk_step(data@, i as int, channels as int, sample_rate as int, bits as int);
        }
        let size = read_le32(data, i + 4);
        if tag_at(data, i, 0x66, 0x6d, 0x74, 0x20) && len - i >= 24 {
            channels = read_le16(data, i + 10);
            sample_rate = read_le32(data, i + 12);
            bits = read_le16(data, i + 22);
        } else if tag_at(data, i, 0x64, 0x61, 0x74, 0x61) {
            data_start = i + 8;
            let rest = len - data_start;
            data_len = if (size as u64) < (rest as u64) { size as usize } else { rest };
            break;
        }
        idx = idx + 8 + size as u128;
    }
    (channels, sample_rate, bits, data_start, data_len)
}

/// Whether the container's rate times its channel count fits in 32 bits, as loading it needs.
pub fn wav_rate_ok(data: &[u8]) -> (r: bool)
    ensures
        r == wav_rate_fits(data@),
{
    if data.len() < 44 || !tag_at(data, 0, 0x52, 0x49, 0x46, 0x46) || !tag_at(data, 8, 0x57, 0x41, 0x56, 0x45) {
        return true;
    }
    let (ch, rate, _bits, _start, _len) = walk_chunks(data);
    let r64: u64 = rate as u64;
    let c64: u64 = ch as u64;
    assert(r64 * c64 <= 0xffff_ffff * 0xffff) by (nonlinear_arith)
        requires
            r64 <= 0xffff_ffff,
            c64 <= 0xffff,
    {
    }
    r64 * c64 <= 4294967295u64
}

/// Decodes `len` bytes from `start` as 16-bit little-endian signed samples.
fn decode_pcm16(data: &[u8], start: usize, len: usize) -> (r: Vec<i16>)
    requires
        start + len <= data@.len(),
    ensures
        r@ == pcm16(data@, start as int, len as int),
{
    let _n = data.len();
    let mut out: Vec<i16> = Vec::new();
    let mut i: usize = 0;
    while i + 1 < len
        invariant
            start + len <= data@.len(),
            data@.len() <= usize::MAX,
            i <= len,
            i % 2 == 0,
            out@ == pcm16(data@, start as int, i as int),
        decreases len - i,
    {
        let s = read_le_i16(data, start + i);
        out.push(s);
        proof {
            assert(out@ =~= pcm16(data@, start as int, i + 2));
        }
        i += 2;
    }
    proof {
        assert(out@ =~= pcm16(data@, start as int, len as int));
    }
    out
}

/// Decodes `len` bytes from `start` as 8-bit unsigned samples widened to 16 bits.
fn decode_pcm8(data: &[u8], start: usize, len: usize) -> (r: Vec<i16>)
    requires
        start + len <= data@.len(),
    ensures
        r@ == pcm8(data@, start as int, len as int),
{
    let _n = data.len();
    let mut out: Vec<i16> = Vec::new();
    let mut k: usize = 0;
    while k < len
        invariant
            start + len <= data@.len(),
            data@.len() <= usize::MAX,
            k <= len,
            out@ == pcm8(data@, start as int, k as int),
        decreases len - k,
    {
        let b = data[start + k];
        out.push(((b as i16) - 128) * 256);
        proof {
            assert(out@ =~= pcm8(data@, start as int, k + 1));
        }
        k += 1;
    }
    out
}

impl AudioDriver {
    pub fn new() -> (r: Self)
        ensures
            r.state == AudioState::Stopped,
            r.volume == 85,
            r.current_sample_rate == 44100,
            r.active_track.is_none(),
            r.pcm_buffer@.len() == 0,
            r.playback_position == 0,
    {
        Self {
            state: AudioState::Stopped,
            volume: 85,
            current_sample_rate: 44100,
            active_track: None,
            pcm_buffer: Vec::new(),
            playback_position: 0,
        }
    }

    /// Parses a RIFF/WAVE container, loads its samples and starts playing them.
    pub fn parse_and_load_wav(&mut self, name: &str, data: &[u8]) -> (r: Result<WavInfo, &'static str>)
        requires
            wav_rate_fits(data@),
        ensures
            data@.len() < 44 ==> r == Err::<WavInfo, &'static str>(
                "WAV file too short (< 44 bytes)",
            ),
            data@.len() >= 44 && !wav_header_ok(data@) ==> r == Err::<WavInfo, &'static str>(
                "Invalid RIFF/WAVE container header",
            ),
            r is Err ==> *final(self) == *old(self),
            wav_header_ok(data@) ==> ({
                let (ch, rate, bits, start, len) = wav_layout(data@);
                &&& r matches Ok(info) && info.channels == ch && info.sample_rate == rate
                    && info.bits_per_sample == bits && info.total_samples == wav_samples(
                    data@,
                ).len() && info.duration_seconds == wav_duration(
                    wav_samples(data@).len() as int,
                    rate,
                    ch,
                )
                &&& final(self).pcm_buffer@ == wav_samples(data@)
                &&& final(self).playback_position == 0
                &&& final(self).current_sample_rate == rate
                &&& final(self).active_track matches Some(t) && t@ == name@
                &&& final(self).state == AudioState::Playing
                &&& final(self).volume == old(self).volume
            }),
    {
        if data.len() < 44 {
            return Err("WAV file too short (< 44 bytes)");
        }
        if !tag_at(data, 0, 0x52, 0x49, 0x46, 0x46) || !tag_at(data, 8, 0x57, 0x41, 0x56, 0x45) {
            return Err("Invalid RIFF/WAVE container header");
        }
        let (channels, sample_rate, bits_per_sample, data_start, data_len) = walk_chunks(data);
        let samples = if bits_per_sample == 16 {
            decode_pcm16(data, data_start, data_len)
        } else if bits_per_sample == 8 {
            decode_pcm8(data, data_start, data_len)
        } else {
            Vec::new()
        };
        let total_samples = samples.len();
        let duration_seconds: u32 = if sample_rate > 0 && channels > 0 {
            let per_second = sample_rate * channels as u32;
            assert(per_second > 0) by (nonlinear_arith)
                requires
                    per_second == sample_rate * channels,
                    sample_rate > 0,
                    channels > 0,
            ;
            (total_samples as u32) / per_second
        } else {
            0
        };
        self.pcm_buffer = samples;
        self.playback_position = 0;
        self.current_sample_rate = sample_rate;
        self.active_track = Some(name.to_owned());
        self.state = AudioState::Playing;
        Ok(WavInfo {
            channels,
            sample_rate,
            bits_per_sample,
            total_samples,
            duration_seconds,
        })
    }

    /// Synthesizes a tone of `freq_hz` lasting `duration_ms` at 44.1 kHz and starts playing it.
    pub fn synthesize_tone(&mut self, freq_hz: u32, duration_ms: u32)
        requires
            (44100 * duration_ms) / 1000 == 0 || ((44100 * duration_ms) / 1000 - 1) * freq_hz
                * 256 <= u64::MAX,
        ensures
            final(self).pcm_buffer@ == tone_samples(freq_hz as int, duration_ms as int),
            forall|j: int|
                0 <= j < final(self).pcm_buffer@.len() ==> -10000 <= #[trigger] final(self).pcm_buffer@[j]
                    <= 10000 && sign_of(final(self).pcm_buffer@[j] as int) == sign_of(
                    sinish_spec(tone_phase(j, freq_hz as int)),
                ),
            final(self).playback_position == 0,
            final(self).state == AudioState::Playing,
            final(self).current_sample_rate == old(self).current_sample_rate,
            final(self).active_track == old(self).active_track,
            final(self).volume == old(self).volume,
    {
        let total: u64 = (44100 * duration_ms as u64) / 1000;
        let mut buffer: Vec<i16> = Vec::new();
        let mut i: u64 = 0;
        while i < total
            invariant
                total == (44100 * duration_ms) / 1000,
                total == 0 || (total - 1) * freq_hz * 256 <= u64::MAX,
                i <= total,
                buffer@ =~= Seq::new(i as nat, |j: int| tone_sample(j, freq_hz as int)),
            decreases total - i,
        {
            assert(i * freq_hz * 256 <= (total - 1) * freq_hz * 256) by (nonlinear_arith)
                requires
                    i <= total - 1,
            ;
            let phase = ((i * freq_hz as u64 * 256) / 44100) as i32;
            let sine = sinish(phase);
            let sample = (sine * 10000) / 1024;
            proof {
                lemma_tone_sample(i as int, freq_hz as int);
            }
            buffer.push(sample as i16);
            i += 1;
        }
        proof {
            assert forall|j: int| 0 <= j < buffer@.len() implies -10000 <= #[trigger] buffer@[j] <= 10000
                && sign_of(buffer@[j] as int) == sign_of(sinish_spec(tone_phase(j, freq_hz as int))) by {
                lemma_tone_sample(j, freq_hz as int);
            }
        }
        self.pcm_buffer = buffer;
        self.playback_position = 0;
        self.state = AudioState::Playing;
    }

    /// Stops playback and drops the loaded samples.
    pub fn stop(&mut self)
        ensures
            final(self).state == AudioState::Stopped,
            final(self).playback_position == 0,
            final(self).pcm_buffer@.len() == 0,
            final(self).current_sample_rate == old(self).current_sample_rate,
            final(self).active_track == old(self).active_track,
            final(self).volume == old(self).volume,
    {
        self.state = AudioState::Stopped;
        self.playback_position = 0;
        self.pcm_buffer.clear();
    }
}

} // verus!
