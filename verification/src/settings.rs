//! What an output is made as.
use vstd::prelude::*;

verus! {

/// The video encoders an output can be made with.
#[derive(Clone, Copy, Debug, PartialEq, Eq, Structural)]
pub enum RecordingEncoder {
    Nvenc,
    MediaFoundation,
    X264,
    OpenH264,
}

/// The audio codecs an output can be made with.
#[derive(Clone, Copy, Debug, PartialEq, Eq, Structural)]
pub enum RecordingAudioCodec {
    Aac,
    Opus,
}

/// The containers a recording can be written as.
#[derive(Clone, Copy, Debug, PartialEq, Eq, Structural)]
pub enum RecordingFormat {
    Mp4,
    Mkv,
    Hls,
}

/// What cuts a recording into more than one file.
#[derive(Clone, Copy, Debug, PartialEq, Eq, Structural)]
pub enum RecordingSplit {
    Off,
    Time,
    Size,
}

/// What the next recording is written as.
pub struct RecordingSettings {
    pub fps: u32,
    pub encoder: RecordingEncoder,
    pub audio_codec: RecordingAudioCodec,
    pub format: RecordingFormat,
    pub split: RecordingSplit,
    /// How long one file is, where time cuts it.
    pub split_minutes: u32,
    /// How large one file is, where size cuts it.
    pub split_bytes: u64,
    pub bit_rate_bits: usize,
    pub keyframe_seconds: u32,
    pub audio_bit_rate_kbps: u32,
}

/// Where the next broadcast is published, and how.
pub struct StreamingSettings {
    pub server: String,
    /// Whether both a server and a stream key are set.
    pub addressable: bool,
    pub encoder: RecordingEncoder,
    pub audio_codec: RecordingAudioCodec,
    /// How long to wait before a broadcast that dropped is tried again, in
    /// nanoseconds; `None` where it is given up.
    pub reconnect: Option<u64>,
    pub bit_rate_bits: usize,
    pub keyframe_seconds: u32,
    pub audio_bit_rate_kbps: u32,
}

/// What the engine is handed about where output goes.
pub struct OutputSettings {
    pub recording: RecordingSettings,
    pub streaming: StreamingSettings,
}

/// What an output encodes with, whatever it does with the packets.
#[derive(Clone, Copy, Debug)]
pub struct OutputEncoding {
    pub encoder: RecordingEncoder,
    /// The picture's size, already settled against the canvas.
    pub size: [u32; 2],
    pub bit_rate_bits: usize,
    /// How often a keyframe is written, in seconds.
    pub keyframe_seconds: u32,
    pub audio_codec: RecordingAudioCodec,
    pub audio_bit_rate_kbps: u32,
}

} // verus!
