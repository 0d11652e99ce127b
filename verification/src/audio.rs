//! PCM16 audio: frame geometry, padding, samples, and what the Opus
//! encoder is handed.
use vstd::prelude::*;

use crate::json::{decimal, push_decimal};

verus! {

/// Geometry of the PCM16 frames that are handed to the encoder.
#[derive(Clone, Copy, Debug, PartialEq, Eq)]
pub struct AudioConfig {
    pub sample_rate: u32,
    pub channels: u16,
    pub frame_duration_ms: u32,
    pub samples_per_frame: usize,
    pub bytes_per_frame: usize,
}

impl AudioConfig {
    /// Samples in one frame: `sample_rate * frame_duration_ms / 1000`.
    pub open spec fn spec_samples_per_frame(sample_rate: u32, frame_duration_ms: u32) -> int {
        (sample_rate * frame_duration_ms) / 1000
    }

    pub fn new(sample_rate: u32, channels: u16, frame_duration_ms: u32) -> (config: Self)
        requires
            sample_rate * frame_duration_ms <= u32::MAX,
            Self::spec_samples_per_frame(sample_rate, frame_duration_ms) * channels * 2 <= usize::MAX,
        ensures
            config.sample_rate == sample_rate,
            config.channels == channels,
            config.frame_duration_ms == frame_duration_ms,
            config.samples_per_frame == Self::spec_samples_per_frame(sample_rate, frame_duration_ms),
            config.bytes_per_frame == config.samples_per_frame * channels * 2,
    {
        let samples_per_frame = ((sample_rate * frame_duration_ms) / 1000) as usize;
        let bytes_per_frame = samples_per_frame * (channels as usize) * 2;
        AudioConfig { sample_rate, channels, frame_duration_ms, samples_per_frame, bytes_per_frame }
    }
}

impl Default for AudioConfig {
    /// 16 kHz mono in 20 ms frames: 320 samples, 640 bytes.
    fn default() -> (config: Self)
        ensures
            config.sample_rate == 16_000,
            config.channels == 1,
            config.frame_duration_ms == 20,
            config.samples_per_frame == 320,
            config.bytes_per_frame == 640,
    {
        AudioConfig::new(16_000, 1, 20)
    }
}

/// `frame` cut or padded with zero bytes to `len` bytes.
pub open spec fn padded(frame: Seq<u8>, len: nat) -> Seq<u8> {
    Seq::new(len, |i: int| if i < frame.len() { frame[i] } else { 0u8 })
}

/// A PCM frame of exactly `config.bytes_per_frame` bytes: the start of
/// `frame`, then silence.
pub fn pad_frame(frame: &[u8], config: AudioConfig) -> (r: Vec<u8>)
    ensures
        r@ == padded(frame@, config.bytes_per_frame as nat),
{
    let n = config.bytes_per_frame;
    let mut out: Vec<u8> = Vec::new();
    let mut i: usize = 0;
    while i < n
        invariant
            i <= n,
            out@ == padded(frame@, n as nat).take(i as int),
        decreases n - i,
    {
        if i < frame.len() {
            out.push(frame[i]);
        } else {
            out.push(0u8);
        }
        assert(out@ =~= padded(frame@, n as nat).take(i + 1));
        i = i + 1;
    }
    assert(out@ =~= padded(frame@, n as nat));
    out
}

/// A frame of silence: `config.bytes_per_frame` zero bytes.
pub fn silence_frame(config: AudioConfig) -> (r: Vec<u8>)
    ensures
        r@ == padded(Seq::empty(), config.bytes_per_frame as nat),
{
    let empty: [u8; 0] = [];
    pad_frame(&empty, config)
}

/// PCM16 bytes cut to a whole number of samples: a trailing odd byte is
/// dropped.
pub fn even_pcm_bytes(pcm16: &[u8]) -> (r: Vec<u8>)
    ensures
        r@ == pcm16@.take(pcm16@.len() - pcm16@.len() % 2),
{
    let even_len = pcm16.len() - pcm16.len() % 2;
    let mut out: Vec<u8> = Vec::new();
    let mut i: usize = 0;
    while i < even_len
        invariant
            even_len <= pcm16@.len(),
            i <= even_len,
            out@ == pcm16@.take(i as int),
        decreases even_len - i,
    {
        out.push(pcm16[i]);
        assert(out@ =~= pcm16@.take(i + 1));
        i = i + 1;
    }
    out
}

/// The signed 16-bit sample whose little-endian bytes are `lo`, `hi`.
pub open spec fn le_i16(lo: u8, hi: u8) -> int {
    let u = lo + 256 * hi;
    if u >= 32768 {
        u - 65536
    } else {
        u
    }
}

/// The samples of little-endian PCM16 bytes; a trailing odd byte is
/// dropped.
pub open spec fn pcm_samples_spec(pcm16: Seq<u8>) -> Seq<int> {
    Seq::new(pcm16.len() / 2, |i: int| le_i16(pcm16[2 * i], pcm16[2 * i + 1]))
}

fn sample_from_le(lo: u8, hi: u8) -> (r: i16)
    ensures
        r == le_i16(lo, hi),
{
    let u: u32 = (lo as u32) + 256 * (hi as u32);
    if u >= 32768 {
        (u as i32 - 65536) as i16
    } else {
        u as i16
    }
}

/// The samples of little-endian PCM16 bytes.
pub fn pcm_samples(pcm16: &[u8]) -> (r: Vec<i16>)
    ensures
        r@.len() == pcm_samples_spec(pcm16@).len(),
        forall|i: int| 0 <= i < r@.len() ==> r@[i] == pcm_samples_spec(pcm16@)[i],
{
    let len = pcm16.len();
    let n = len / 2;
    let mut out: Vec<i16> = Vec::new();
    let mut i: usize = 0;
    while i < n
        invariant
            len == pcm16@.len(),
            n == pcm16@.len() / 2,
            i <= n,
            out@.len() == i,
            forall|k: int| 0 <= k < i ==> out@[k] == pcm_samples_spec(pcm16@)[k],
        decreases n - i,
    {
        out.push(sample_from_le(pcm16[2 * i], pcm16[2 * i + 1]));
        i = i + 1;
    }
    out
}

/// The channel layouts the Opus encoder takes.
#[derive(Clone, Copy, Debug, PartialEq, Eq)]
pub enum OpusChannels {
    Mono,
    Stereo,
}

/// The message for a channel count the encoder does not take.
pub open spec fn unsupported_channels_message(channels: u16) -> Seq<char> {
    "unsupported channel count: "@ + decimal(channels as nat)
}

/// The Opus channel layout for a channel count: one is mono, two stereo,
/// anything else is refused.
pub fn opus_channels(channels: u16) -> (r: Result<OpusChannels, String>)
    ensures
        channels == 1 ==> r == Ok::<OpusChannels, String>(OpusChannels::Mono),
        channels == 2 ==> r == Ok::<OpusChannels, String>(OpusChannels::Stereo),
        channels != 1 && channels != 2 ==> (r matches Err(m) && m@ == unsupported_channels_message(
            channels,
        )),
{
    if channels == 1 {
        Ok(OpusChannels::Mono)
    } else if channels == 2 {
        Ok(OpusChannels::Stereo)
    } else {
        let mut message = "unsupported channel count: ".to_owned();
        push_decimal(&mut message, channels as u64);
        Err(message)
    }
}

/// The message for a PCM frame of the wrong size.
pub open spec fn frame_size_message(expected: nat, got: nat) -> Seq<char> {
    "expected "@ + decimal(expected) + " bytes per PCM frame, got "@ + decimal(got)
}

/// Checks that a PCM frame has `config.bytes_per_frame` bytes.
pub fn check_pcm_frame(config: AudioConfig, len: usize) -> (r: Result<(), String>)
    ensures
        r is Ok <==> len == config.bytes_per_frame,
        r matches Err(m) ==> m@ == frame_size_message(config.bytes_per_frame as nat, len as nat),
{
    if len == config.bytes_per_frame {
        return Ok(());
    }
    let mut message = "expected ".to_owned();
    push_decimal(&mut message, config.bytes_per_frame as u64);
    message.append(" bytes per PCM frame, got ");
    push_decimal(&mut message, len as u64);
    Err(message)
}

} // verus!
