//! Which container a recording goes into, and what cuts it into files.
use vstd::prelude::*;
use vstd::string::*;

use crate::settings::{RecordingFormat, RecordingSettings, RecordingSplit};
use crate::text::{self, decimal_of};

verus! {

/// How long one segment of a playlist is, in nanoseconds.
pub const HLS_SEGMENT_DURATION: u64 = 6_000_000_000;

/// What ends one file and begins the next.
#[derive(Clone, Copy, Debug, PartialEq, Eq, Structural)]
pub enum SegmentPolicy {
    /// After this many seconds.
    Duration(u64),
    /// After this many bytes.
    Size(u64),
}

/// Which muxer a recording is written by.
#[derive(Clone, Copy, Debug, PartialEq, Eq, Structural)]
pub enum MuxerPlan {
    /// A playlist and its segments, which cuts itself.
    Hls,
    /// One file.
    Single,
    /// A file after another.
    Segmented(SegmentPolicy),
}

/// Which muxer these settings ask for.
pub open spec fn muxer_for(settings: RecordingSettings) -> MuxerPlan {
    if settings.format == RecordingFormat::Hls {
        MuxerPlan::Hls
    } else {
        match settings.split {
            RecordingSplit::Off => MuxerPlan::Single,
            RecordingSplit::Time => MuxerPlan::Segmented(
                SegmentPolicy::Duration((settings.split_minutes * 60) as u64),
            ),
            RecordingSplit::Size => MuxerPlan::Segmented(
                SegmentPolicy::Size(settings.split_bytes),
            ),
        }
    }
}

/// Which muxer these settings ask for.
pub fn open_muxer(settings: &RecordingSettings) -> (r: MuxerPlan)
    ensures
        r == muxer_for(*settings),
{
    if settings.format == RecordingFormat::Hls {
        return MuxerPlan::Hls;
    }
    match settings.split {
        RecordingSplit::Off => MuxerPlan::Single,
        RecordingSplit::Time => MuxerPlan::Segmented(
            SegmentPolicy::Duration(settings.split_minutes as u64 * 60),
        ),
        RecordingSplit::Size => MuxerPlan::Segmented(SegmentPolicy::Size(settings.split_bytes)),
    }
}

/// A number in at least three digits.
pub open spec fn three_digits(n: nat) -> Seq<char> {
    if n < 10 {
        "00"@ + text::decimal(n)
    } else if n < 100 {
        "0"@ + text::decimal(n)
    } else {
        text::decimal(n)
    }
}

/// What one segment of a recording is called: the recording's own name, and
/// its number before the extension.
pub fn segment_name(stem: &str, index: u64, extension: &str) -> (r: String)
    ensures
        r@ == stem@ + "_"@ + three_digits(index as nat) + "."@ + extension@,
{
    let mut r: String = stem.to_owned();
    r.append("_");
    let ghost head = r@;
    if index < 10 {
        r.append("00");
    } else if index < 100 {
        r.append("0");
    }
    let digits = decimal_of(index);
    r.append(digits.as_str());
    proof {
        assert(r@ =~= head + three_digits(index as nat));
    }
    r.append(".");
    r.append(extension);
    r
}

/// What the segments of a playlist are called.
pub fn hls_segment_pattern() -> (r: &'static str)
    ensures
        r@ == "segment_%05d.m4s"@,
{
    "segment_%05d.m4s"
}

/// What the first segment of a playlist is called.
pub fn hls_init_filename() -> (r: &'static str)
    ensures
        r@ == "init.mp4"@,
{
    "init.mp4"
}

/// A recording in HLS cuts itself; any other is one file unless it is to be
/// split, after so many minutes or so many bytes.
pub proof fn law_a_recording_is_cut_as_was_asked(settings: RecordingSettings)
    ensures
        settings.format is Hls ==> muxer_for(settings) is Hls,
        !(settings.format is Hls) ==> match settings.split {
            RecordingSplit::Off => muxer_for(settings) is Single,
            RecordingSplit::Time => muxer_for(settings) matches MuxerPlan::Segmented(
                SegmentPolicy::Duration(seconds),
            ) && seconds == settings.split_minutes * 60,
            RecordingSplit::Size => muxer_for(settings) matches MuxerPlan::Segmented(
                SegmentPolicy::Size(bytes),
            ) && bytes == settings.split_bytes,
        },
{
}

/// A number is written out with three digits, zeros before it where it has
/// fewer, and with all its own where it has more.
pub proof fn law_numbers_have_three_digits(n: nat)
    ensures
        n < 10 ==> three_digits(n) == "00"@ + text::decimal(n),
        10 <= n < 100 ==> three_digits(n) == "0"@ + text::decimal(n),
        n >= 100 ==> three_digits(n) == text::decimal(n),
{
}

/// A playlist's segments are six seconds long.
pub proof fn law_segments_are_six_seconds_long()
    ensures
        HLS_SEGMENT_DURATION == 6_000_000_000,
{
}

} // verus!
