//! Which encoder an output is made with, and what stands in front of it.
use vstd::prelude::*;
use vstd::string::*;

use crate::output::OutputKind;
use crate::scene::SourceKind;
use crate::settings::{OutputEncoding, RecordingEncoder};
use crate::text::{joined, same};

verus! {

/// The rate an encoder is tried at.
pub const PROBE_FPS: u32 = 60;

/// How many frames an output may fall behind by before the compositor is made
/// to wait.
pub const OUTPUT_QUEUE_DEPTH: usize = 8;

/// How long the compositor waits for room in that queue before giving up on a
/// frame, in nanoseconds.
pub const OUTPUT_SEND_TIMEOUT: u64 = 500_000_000;

/// The ways frames are composited.
#[derive(Clone, Copy, Debug, PartialEq, Eq, Structural)]
pub enum Platform {
    Cuda,
    D3d11,
    Unsupported,
}

/// The codecs a software encoder can be opened for.
#[derive(Clone, Copy, Debug, PartialEq, Eq, Structural)]
pub enum VideoCodec {
    H264,
    OpenH264,
}

/// Which codec a software choice comes to. The hardware choices never reach
/// this, and would come to the one that is always there.
pub fn software_codec(encoder: RecordingEncoder) -> (r: VideoCodec)
    ensures
        r == software_for(encoder),
        r == VideoCodec::H264 <==> encoder == RecordingEncoder::X264,
{
    match encoder {
        RecordingEncoder::X264 => VideoCodec::H264,
        _ => VideoCodec::OpenH264,
    }
}

/// A fraction as it is handed to an encoder.
#[derive(Clone, Copy, Debug, PartialEq, Eq, Structural)]
pub struct Rational {
    pub numerator: i32,
    pub denominator: i32,
}

/// A whole number of frames a second.
pub open spec fn whole_rate(fps: u32) -> Rational {
    Rational { numerator: fps as i32, denominator: 1 }
}

/// The larger of a number and one.
pub open spec fn at_least_one(n: int) -> int {
    if n < 1 {
        1
    } else {
        n
    }
}

/// What the compositor is emitting at, in whole frames a second: what it says,
/// and the fallback where there is nothing to ask; never nothing.
pub fn frame_rate(rate: Option<Rational>, fallback: u32) -> (r: u32)
    ensures
        r == (match rate {
            Some(rate) => at_least_one(
                at_least_one(rate.numerator as int) / at_least_one(rate.denominator as int),
            ),
            None => at_least_one(fallback as int),
        }),
        r >= 1,
        rate is None && fallback >= 1 ==> r == fallback,
        rate is None && fallback == 0 ==> r == 1,
        rate matches Some(rate) ==> (rate.numerator < 1 ==> r == 1),
        rate matches Some(rate) ==> (rate.numerator >= 1 && rate.denominator < 1 ==> r
            == rate.numerator),
        rate matches Some(rate) ==> (rate.numerator >= 1 && rate.denominator >= 1 ==> {
            &&& rate.numerator < (r + 1) * rate.denominator
            &&& r > 1 ==> r * rate.denominator <= rate.numerator
        }),
{
    let whole: u32 = match rate {
        Some(rate) => {
            let over: u32 = if rate.numerator < 1 {
                1
            } else {
                rate.numerator as u32
            };
            let under: u32 = if rate.denominator < 1 {
                1
            } else {
                rate.denominator as u32
            };
            over / under
        },
        None => fallback,
    };
    proof {
        if let Some(rate) = rate {
            if rate.numerator >= 1 && rate.denominator >= 1 {
                assert(whole * rate.denominator <= rate.numerator < (whole + 1)
                    * rate.denominator) by (nonlinear_arith)
                    requires
                        whole == rate.numerator / rate.denominator,
                        rate.denominator >= 1,
                        rate.numerator >= 1,
                ;
                if whole < 1 {
                    assert(rate.numerator < (1 + 1) * rate.denominator) by (nonlinear_arith)
                        requires
                            rate.numerator < (whole + 1) * rate.denominator,
                            whole < 1,
                            rate.denominator >= 1,
                    ;
                }
            }
        }
    }
    if whole < 1 {
        1
    } else {
        whole
    }
}

/// Whether a choice is encoded where the frames are.
pub open spec fn on_device(platform: Platform, encoder: RecordingEncoder) -> bool {
    match platform {
        Platform::Cuda => encoder == RecordingEncoder::Nvenc,
        Platform::D3d11 => encoder == RecordingEncoder::Nvenc || encoder
            == RecordingEncoder::MediaFoundation,
        Platform::Unsupported => false,
    }
}

/// What is opened for an encoder.
#[derive(Clone, Copy, Debug, PartialEq, Eq, Structural)]
pub enum EncoderCodec {
    /// The one encoder that takes frames of this platform's device.
    Cuda,
    Nvenc,
    MediaFoundation,
    Software(VideoCodec),
}

/// Which software codec a choice comes to.
pub open spec fn software_for(encoder: RecordingEncoder) -> VideoCodec {
    if encoder == RecordingEncoder::X264 {
        VideoCodec::H264
    } else {
        VideoCodec::OpenH264
    }
}

/// What a choice is opened as: on the device where this platform has that, and
/// in software otherwise.
pub open spec fn codec_for(platform: Platform, encoder: RecordingEncoder) -> EncoderCodec {
    match (platform, encoder) {
        (Platform::Cuda, RecordingEncoder::Nvenc) => EncoderCodec::Cuda,
        (Platform::D3d11, RecordingEncoder::Nvenc) => EncoderCodec::Nvenc,
        (Platform::D3d11, RecordingEncoder::MediaFoundation) => EncoderCodec::MediaFoundation,
        _ => EncoderCodec::Software(software_for(encoder)),
    }
}

/// What an encoder is opened with.
pub struct EncoderPlan {
    pub name: String,
    pub codec: EncoderCodec,
    /// Whether it takes the compositor's frames as they are.
    pub hardware: bool,
    pub width: u32,
    pub height: u32,
    pub time_base: Rational,
    pub frame_rate: Rational,
    pub bit_rate: usize,
    /// How many frames there are from one keyframe to the next.
    pub gop_size: u32,
}

/// How many frames there are from one keyframe to the next.
pub open spec fn keyframe_every(fps: u32, seconds: u32) -> int {
    fps * at_least_one(seconds as int)
}

/// What the encoder an output asks for is opened with, at the rate that is
/// composited.
pub fn open_encoder(
    platform: Platform,
    kind: OutputKind,
    fps: u32,
    encoding: &OutputEncoding,
) -> (r: EncoderPlan)
    requires
        fps <= i32::MAX,
        keyframe_every(fps, encoding.keyframe_seconds) <= u32::MAX,
    ensures
        r.name@ == kind.called() + "-encode"@,
        r.codec == codec_for(platform, encoding.encoder),
        r.hardware == on_device(platform, encoding.encoder),
        r.width == encoding.size[0],
        r.height == encoding.size[1],
        r.time_base == (Rational { numerator: 1, denominator: fps as i32 }),
        r.frame_rate == whole_rate(fps),
        r.bit_rate == encoding.bit_rate_bits,
        r.gop_size == keyframe_every(fps, encoding.keyframe_seconds),
        encoding.keyframe_seconds >= 1 ==> r.gop_size == fps * encoding.keyframe_seconds,
        encoding.keyframe_seconds == 0 ==> r.gop_size == fps,
        r.frame_rate.numerator == fps,
        r.frame_rate.denominator == 1,
        r.hardware == !(r.codec is Software),
        platform == Platform::Cuda && encoding.encoder == RecordingEncoder::Nvenc ==> r.codec
            == EncoderCodec::Cuda,
        platform == Platform::D3d11 && encoding.encoder == RecordingEncoder::Nvenc ==> r.codec
            == EncoderCodec::Nvenc,
        platform == Platform::D3d11 && encoding.encoder == RecordingEncoder::MediaFoundation
            ==> r.codec == EncoderCodec::MediaFoundation,
        platform != Platform::D3d11 && encoding.encoder == RecordingEncoder::MediaFoundation
            ==> r.codec == EncoderCodec::Software(VideoCodec::OpenH264),
        platform == Platform::Unsupported && encoding.encoder == RecordingEncoder::Nvenc
            ==> r.codec == EncoderCodec::Software(VideoCodec::OpenH264),
        encoding.encoder == RecordingEncoder::X264 ==> r.codec == EncoderCodec::Software(
            VideoCodec::H264,
        ),
        encoding.encoder == RecordingEncoder::OpenH264 ==> r.codec == EncoderCodec::Software(
            VideoCodec::OpenH264,
        ),
{
    let seconds: u32 = if encoding.keyframe_seconds < 1 {
        1
    } else {
        encoding.keyframe_seconds
    };
    let codec: EncoderCodec = match (platform, encoding.encoder) {
        (Platform::Cuda, RecordingEncoder::Nvenc) => EncoderCodec::Cuda,
        (Platform::D3d11, RecordingEncoder::Nvenc) => EncoderCodec::Nvenc,
        (Platform::D3d11, RecordingEncoder::MediaFoundation) => EncoderCodec::MediaFoundation,
        (_, other) => EncoderCodec::Software(software_codec(other)),
    };
    let hardware: bool = match codec {
        EncoderCodec::Software(_) => false,
        _ => true,
    };
    EncoderPlan {
        name: joined(kind.prefix(), "-encode"),
        codec,
        hardware,
        width: encoding.size[0],
        height: encoding.size[1],
        time_base: Rational { numerator: 1, denominator: fps as i32 },
        frame_rate: Rational { numerator: fps as i32, denominator: 1 },
        bit_rate: encoding.bit_rate_bits,
        gop_size: fps * seconds,
    }
}

/// The encoders that can be opened among the first `n`.
pub open spec fn opened_among(all: Seq<RecordingEncoder>, opens: Seq<bool>, n: int) -> Seq<
    RecordingEncoder,
>
    decreases n,
{
    if n <= 0 {
        Seq::empty()
    } else if opens[n - 1] {
        opened_among(all, opens, n - 1).push(all[n - 1])
    } else {
        opened_among(all, opens, n - 1)
    }
}

/// Which encoders this machine can open, given what came of opening each, in
/// the order they are offered.
pub fn available_encoders(all: &Vec<RecordingEncoder>, opens: &Vec<bool>) -> (r: Vec<
    RecordingEncoder,
>)
    requires
        all@.len() == opens@.len(),
    ensures
        r@ == opened_among(all@, opens@, all@.len() as int),
{
    let mut r: Vec<RecordingEncoder> = Vec::new();
    let mut i: usize = 0;
    while i < all.len()
        invariant
            i <= all@.len(),
            all@.len() == opens@.len(),
            r@ == opened_among(all@, opens@, i as int),
        decreases all@.len() - i,
    {
        if opens[i] {
            r.push(all[i]);
        }
        i = i + 1;
    }
    r
}

/// What one stage of a branch does.
#[derive(Clone, Copy, Debug, PartialEq, Eq, Structural)]
pub enum StageKind {
    /// A thread of its own, which the compositor waits for.
    Queue,
    /// A thread of its own, which drops what it cannot keep up with.
    DroppingQueue,
    Pause,
    Scale,
    Download,
    Convert,
    Encode,
    Origin,
    /// Sees every frame and makes nothing of it.
    Count,
    /// Lets through the newest picture, no more often than it is wanted, and
    /// never one that has already gone through.
    Changes,
    /// Brings sound to the format of what plays it.
    Resample,
    Render,
}

/// One stage of a branch, by what it does and what it is called.
pub struct Stage {
    pub kind: StageKind,
    pub name: String,
}

impl View for Stage {
    type V = (StageKind, Seq<char>);

    open spec fn view(&self) -> (StageKind, Seq<char>) {
        (self.kind, self.name@)
    }
}

/// Whether stages are these.
pub open spec fn stages_are(stages: Seq<Stage>, expected: Seq<(StageKind, Seq<char>)>) -> bool {
    &&& stages.len() == expected.len()
    &&& forall|i: int| 0 <= i < stages.len() ==> (#[trigger] stages[i])@ == expected[i]
}

/// The stages of an output's picture, in order. A pause is taken out first, so
/// that it is gone before anything has to reason about it; a picture is
/// scaled only where it is smaller than the canvas, and comes back from the
/// device and is converted only for an encoder that is not on it.
pub open spec fn branch_of(kind: OutputKind, hardware: bool, scaled: bool) -> Seq<
    (StageKind, Seq<char>),
> {
    let prefix = kind.called();
    seq![(StageKind::Queue, prefix + "-queue"@), (StageKind::Pause, prefix + "-pause"@)] + (
    if scaled {
        seq![(StageKind::Scale, prefix + "-scale"@)]
    } else {
        Seq::empty()
    }) + (if hardware {
        Seq::empty()
    } else {
        seq![
            (StageKind::Download, prefix + "-download"@),
            (StageKind::Convert, prefix + "-convert"@),
        ]
    }) + seq![(StageKind::Encode, prefix + "-encode"@), (StageKind::Origin, prefix + "-origin"@)]
}

pub(crate) fn add_stage(stages: &mut Vec<Stage>, kind: StageKind, prefix: &str, suffix: &str)
    ensures
        final(stages)@.len() == old(stages)@.len() + 1,
        forall|expected: Seq<(StageKind, Seq<char>)>| #[trigger]
            stages_are(old(stages)@, expected) ==> stages_are(
                final(stages)@,
                expected + seq![(kind, prefix@ + suffix@)],
            ),
{
    stages.push(Stage { kind, name: joined(prefix, suffix) });
    proof {
        assert forall|expected: Seq<(StageKind, Seq<char>)>| #[trigger]
            stages_are(old(stages)@, expected) implies stages_are(
            stages@,
            expected + seq![(kind, prefix@ + suffix@)],
        ) by {
            let all = expected + seq![(kind, prefix@ + suffix@)];
            assert forall|i: int| 0 <= i < stages@.len() implies (#[trigger] stages@[i])@
                == all[i] by {
                if i < old(stages)@.len() {
                    assert(stages@[i] == old(stages)@[i]);
                    assert(old(stages)@[i]@ == expected[i]);
                }
            }
        }
    }
}

/// The stages of an output's picture, for an encoder on the device or not, and
/// the size it is written at against that of the canvas.
pub fn attach_output(kind: OutputKind, hardware: bool, size: [u32; 2], canvas: [u32; 2]) -> (r: Vec<
    Stage,
>)
    ensures
        stages_are(
            r@,
            branch_of(kind, hardware, size[0] != canvas[0] || size[1] != canvas[1]),
        ),
        ({
            let n = r@.len() as int;
            let scaled = size[0] != canvas[0] || size[1] != canvas[1];
            &&& n == 4 + (if scaled {
                1int
            } else {
                0
            }) + (if hardware {
                0int
            } else {
                2
            })
            &&& r@[0]@ == (StageKind::Queue, kind.called() + "-queue"@)
            &&& r@[1]@ == (StageKind::Pause, kind.called() + "-pause"@)
            &&& scaled ==> r@[2]@ == (StageKind::Scale, kind.called() + "-scale"@)
            &&& !hardware ==> r@[n - 4]@ == (StageKind::Download, kind.called() + "-download"@)
            &&& !hardware ==> r@[n - 3]@ == (StageKind::Convert, kind.called() + "-convert"@)
            &&& r@[n - 2]@ == (StageKind::Encode, kind.called() + "-encode"@)
            &&& r@[n - 1]@ == (StageKind::Origin, kind.called() + "-origin"@)
        }),
{
    let mut r: Vec<Stage> = Vec::new();
    let prefix: &str = kind.prefix();
    let scaled: bool = size[0] != canvas[0] || size[1] != canvas[1];
    let ghost mut expected = Seq::<(StageKind, Seq<char>)>::empty();
    proof {
        assert(stages_are(r@, expected));
    }
    add_stage(&mut r, StageKind::Queue, prefix, "-queue");
    proof {
        expected = expected + seq![(StageKind::Queue, prefix@ + "-queue"@)];
    }
    add_stage(&mut r, StageKind::Pause, prefix, "-pause");
    proof {
        expected = expected + seq![(StageKind::Pause, prefix@ + "-pause"@)];
    }
    if scaled {
        add_stage(&mut r, StageKind::Scale, prefix, "-scale");
        proof {
            expected = expected + seq![(StageKind::Scale, prefix@ + "-scale"@)];
        }
    }
    if !hardware {
        add_stage(&mut r, StageKind::Download, prefix, "-download");
        proof {
            expected = expected + seq![(StageKind::Download, prefix@ + "-download"@)];
        }
        add_stage(&mut r, StageKind::Convert, prefix, "-convert");
        proof {
            expected = expected + seq![(StageKind::Convert, prefix@ + "-convert"@)];
        }
    }
    add_stage(&mut r, StageKind::Encode, prefix, "-encode");
    proof {
        expected = expected + seq![(StageKind::Encode, prefix@ + "-encode"@)];
    }
    add_stage(&mut r, StageKind::Origin, prefix, "-origin");
    proof {
        expected = expected + seq![(StageKind::Origin, prefix@ + "-origin"@)];
        assert(expected =~= branch_of(kind, hardware, scaled));
    }
    r
}

/// The stages of a screenshot: off the compositor's own thread, dropping what
/// is not wanted, back from the device and converted.
pub fn attach_screenshot() -> (r: Vec<Stage>)
    ensures
        stages_are(
            r@,
            seq![
                (StageKind::DroppingQueue, "screenshot"@ + "-queue"@),
                (StageKind::Download, "screenshot"@ + "-download"@),
                (StageKind::Convert, "screenshot"@ + "-convert"@),
            ],
        ),
{
    let mut r: Vec<Stage> = Vec::new();
    let ghost mut expected = Seq::<(StageKind, Seq<char>)>::empty();
    proof {
        assert(stages_are(r@, expected));
    }
    add_stage(&mut r, StageKind::DroppingQueue, "screenshot", "-queue");
    proof {
        expected = expected + seq![(StageKind::DroppingQueue, "screenshot"@ + "-queue"@)];
    }
    add_stage(&mut r, StageKind::Download, "screenshot", "-download");
    proof {
        expected = expected + seq![(StageKind::Download, "screenshot"@ + "-download"@)];
    }
    add_stage(&mut r, StageKind::Convert, "screenshot", "-convert");
    proof {
        expected = expected + seq![(StageKind::Convert, "screenshot"@ + "-convert"@)];
        assert(expected =~= seq![
            (StageKind::DroppingQueue, "screenshot"@ + "-queue"@),
            (StageKind::Download, "screenshot"@ + "-download"@),
            (StageKind::Convert, "screenshot"@ + "-convert"@),
        ]);
    }
    r
}

/// Nothing is scaled, fetched or converted between the canvas and an encoder
/// on the device that is written at the canvas's own size.
pub proof fn law_a_frame_stays_on_the_device(kind: OutputKind, i: int)
    requires
        0 <= i < branch_of(kind, true, false).len(),
    ensures
        branch_of(kind, true, false)[i].0 != StageKind::Scale,
        branch_of(kind, true, false)[i].0 != StageKind::Download,
        branch_of(kind, true, false)[i].0 != StageKind::Convert,
{
}

/// Whatever an output is made with, a pause is taken out before anything else
/// sees it, and the origin is what the file is handed last.
pub proof fn law_a_pause_is_taken_out_first(kind: OutputKind, hardware: bool, scaled: bool)
    ensures
        branch_of(kind, hardware, scaled)[0].0 == StageKind::Queue,
        branch_of(kind, hardware, scaled)[1].0 == StageKind::Pause,
        branch_of(kind, hardware, scaled).last().0 == StageKind::Origin,
{
}

/// Whether a source of this kind can be opened here.
pub open spec fn opens(platform: Platform, kind: SourceKind) -> bool {
    match platform {
        Platform::Cuda => kind is DisplayCapture || kind is Color || kind is Drawing,
        Platform::D3d11 => kind is DisplayCapture || kind is WindowCapture || kind is MediaFile
            || kind is Image || kind is Color || kind is Drawing,
        Platform::Unsupported => false,
    }
}

/// What a kind is called where it cannot be opened.
pub open spec fn kind_called(kind: SourceKind) -> Seq<char> {
    match kind {
        SourceKind::DisplayCapture => "DisplayCapture"@,
        SourceKind::WindowCapture => "WindowCapture"@,
        SourceKind::Color => "Color"@,
        SourceKind::Image => "Image"@,
        SourceKind::Text => "Text"@,
        SourceKind::Drawing => "Drawing"@,
        SourceKind::MediaFile => "MediaFile"@,
        SourceKind::Rtsp => "Rtsp"@,
    }
}

/// What is said of a kind that cannot be opened.
pub fn unsupported_kind(kind: SourceKind) -> (r: String)
    ensures
        r@ == kind_called(kind) + " is not connected to the compositor yet"@,
{
    let name: &str = match kind {
        SourceKind::DisplayCapture => "DisplayCapture",
        SourceKind::WindowCapture => "WindowCapture",
        SourceKind::Color => "Color",
        SourceKind::Image => "Image",
        SourceKind::Text => "Text",
        SourceKind::Drawing => "Drawing",
        SourceKind::MediaFile => "MediaFile",
        SourceKind::Rtsp => "Rtsp",
    };
    joined(name, " is not connected to the compositor yet")
}

/// Whether a source of this kind can be opened here, or why it cannot.
pub fn open_source(platform: Platform, kind: SourceKind) -> (r: Result<(), String>)
    ensures
        match r {
            Ok(()) => opens(platform, kind),
            Err(reason) => !opens(platform, kind) && reason@ == kind_called(kind)
                + " is not connected to the compositor yet"@,
        },
        platform == Platform::Unsupported ==> r is Err,
        platform == Platform::Cuda ==> (r is Ok <==> kind == SourceKind::DisplayCapture || kind
            == SourceKind::Color || kind == SourceKind::Drawing),
        platform == Platform::D3d11 ==> (r is Ok <==> kind != SourceKind::Text && kind
            != SourceKind::Rtsp),
{
    let known: bool = match platform {
        Platform::Cuda => match kind {
            SourceKind::DisplayCapture | SourceKind::Color | SourceKind::Drawing => true,
            _ => false,
        },
        Platform::D3d11 => match kind {
            SourceKind::Text | SourceKind::Rtsp => false,
            _ => true,
        },
        Platform::Unsupported => false,
    };
    if known {
        Ok(())
    } else {
        Err(unsupported_kind(kind))
    }
}

/// What a display is captured by.
pub enum DisplayCaptureTarget {
    /// The portal, with the token it handed out before.
    Portal { restore_token: Option<String> },
    /// A display by name.
    MonitorName(String),
}

/// The token a display is reopened with: a name means nothing to the portal,
/// which then has to ask.
pub fn restore_token(target: &DisplayCaptureTarget) -> (r: Option<&String>)
    ensures
        match target {
            DisplayCaptureTarget::Portal { restore_token: Some(token) } => r == Some(token),
            _ => r is None,
        },
{
    match target {
        DisplayCaptureTarget::Portal { restore_token } => match restore_token {
            Some(token) => Some(token),
            None => None,
        },
        DisplayCaptureTarget::MonitorName(_) => None,
    }
}

/// The token to keep in place of the stored one: one the portal issued, where
/// it is another. That none was issued does not take back the one that worked.
pub fn refreshed_token(stored: Option<&String>, issued: Option<String>) -> (r: Option<String>)
    ensures
        match issued {
            None => r is None,
            Some(token) => if stored matches Some(stored) && stored@ == token@ {
                r is None
            } else {
                r == Some(token)
            },
        },
{
    match issued {
        None => None,
        Some(token) => match stored {
            Some(stored) => {
                if same(stored.as_str(), token.as_str()) {
                    None
                } else {
                    Some(token)
                }
            },
            None => Some(token),
        },
    }
}

/// Twice the interval is twice the frames between keyframes, and twice the rate
/// is too: a keyframe comes as often as was asked, in seconds.
pub proof fn law_keyframes_come_as_often_as_was_asked(fps: u32, seconds: u32)
    ensures
        seconds >= 1 ==> keyframe_every(fps, seconds) == fps * seconds,
        seconds == 0 ==> keyframe_every(fps, seconds) == fps,
        1 <= seconds <= 0x7fff_ffff ==> keyframe_every(fps, (2 * seconds) as u32) == 2
            * keyframe_every(fps, seconds),
        fps <= 0x7fff_ffff ==> keyframe_every((2 * fps) as u32, seconds) == 2 * keyframe_every(
            fps,
            seconds,
        ),
{
    let (f, s) = (fps as int, seconds as int);
    assert(f * (2 * s) == 2 * (f * s)) by (nonlinear_arith);
    assert((2 * f) * s == 2 * (f * s)) by (nonlinear_arith);
}

/// Every encoder that opens is offered and none that does not, in the order
/// they were tried in: offering two lists one after the other is offering what
/// each offers.
pub proof fn law_what_opens_is_offered_in_order(
    a: Seq<RecordingEncoder>,
    a_opens: Seq<bool>,
    b: Seq<RecordingEncoder>,
    b_opens: Seq<bool>,
    encoder: RecordingEncoder,
)
    requires
        a.len() == a_opens.len(),
        b.len() == b_opens.len(),
    ensures
        opened_among(a + b, a_opens + b_opens, (a.len() + b.len()) as int) == opened_among(
            a,
            a_opens,
            a.len() as int,
        ) + opened_among(b, b_opens, b.len() as int),
        opened_among(seq![encoder], seq![true], 1) == seq![encoder],
        opened_among(seq![encoder], seq![false], 1) == Seq::<RecordingEncoder>::empty(),
{
    lemma_opened_on(a, a_opens, b, b_opens, b.len() as int);
    assert(opened_among(seq![encoder], seq![true], 0) =~= Seq::empty());
    assert(opened_among(seq![encoder], seq![false], 0) =~= Seq::empty());
    assert(seq![true][0] && !seq![false][0] && seq![encoder][0] == encoder);
    assert(opened_among(seq![encoder], seq![true], 1) =~= seq![encoder]);
}

proof fn lemma_opened_on(
    a: Seq<RecordingEncoder>,
    a_opens: Seq<bool>,
    b: Seq<RecordingEncoder>,
    b_opens: Seq<bool>,
    n: int,
)
    requires
        a.len() == a_opens.len(),
        b.len() == b_opens.len(),
        0 <= n <= b.len(),
    ensures
        opened_among(a + b, a_opens + b_opens, a.len() as int + n) == opened_among(
            a,
            a_opens,
            a.len() as int,
        ) + opened_among(b, b_opens, n),
    decreases n,
{
    let all = a + b;
    let opens = a_opens + b_opens;
    if n > 0 {
        lemma_opened_on(a, a_opens, b, b_opens, n - 1);
        assert(all[a.len() + n - 1] == b[n - 1]);
        assert(opens[a.len() + n - 1] == b_opens[n - 1]);
        assert(opened_among(all, opens, a.len() as int + n) =~= opened_among(
            a,
            a_opens,
            a.len() as int,
        ) + opened_among(b, b_opens, n));
    } else {
        lemma_opened_first(a, a_opens, all, opens, a.len() as int);
        assert(opened_among(all, opens, a.len() as int) =~= opened_among(
            a,
            a_opens,
            a.len() as int,
        ) + opened_among(b, b_opens, 0));
    }
}

proof fn lemma_opened_first(
    a: Seq<RecordingEncoder>,
    a_opens: Seq<bool>,
    all: Seq<RecordingEncoder>,
    opens: Seq<bool>,
    n: int,
)
    requires
        n <= a.len() <= all.len(),
        a.len() == a_opens.len(),
        all.len() == opens.len(),
        forall|i: int| 0 <= i < n ==> #[trigger] all[i] == a[i],
        forall|i: int| 0 <= i < n ==> #[trigger] opens[i] == a_opens[i],
    ensures
        opened_among(all, opens, n) == opened_among(a, a_opens, n),
    decreases n,
{
    if n > 0 {
        lemma_opened_first(a, a_opens, all, opens, n - 1);
        assert(all[n - 1] == a[n - 1]);
        assert(opens[n - 1] == a_opens[n - 1]);
    }
}

/// A rate is as many frames as it says, in a second; a number is never counted
/// as less than one.
pub proof fn law_a_rate_is_frames_in_a_second(fps: u32, n: int)
    requires
        fps <= i32::MAX,
    ensures
        whole_rate(fps).numerator == fps && whole_rate(fps).denominator == 1,
        n >= 1 ==> at_least_one(n) == n,
        n < 1 ==> at_least_one(n) == 1,
{
}

/// An encoder takes the device's own frames where it is made for that device,
/// and is the one of that device; everything else encodes in software.
pub proof fn law_an_encoder_is_its_devices_own(platform: Platform, encoder: RecordingEncoder)
    ensures
        on_device(platform, encoder) <==> !(codec_for(platform, encoder) is Software),
        codec_for(platform, encoder) is Cuda <==> platform == Platform::Cuda && encoder
            == RecordingEncoder::Nvenc,
        codec_for(platform, encoder) is Nvenc <==> platform == Platform::D3d11 && encoder
            == RecordingEncoder::Nvenc,
        codec_for(platform, encoder) is MediaFoundation <==> platform == Platform::D3d11 && encoder
            == RecordingEncoder::MediaFoundation,
        codec_for(platform, encoder) matches EncoderCodec::Software(codec) ==> (codec
            == VideoCodec::H264 <==> encoder == RecordingEncoder::X264),
        !on_device(Platform::Unsupported, encoder),
{
}

/// What each platform can put on its compositor.
pub proof fn law_what_a_platform_can_show(kind: SourceKind)
    ensures
        !opens(Platform::Unsupported, kind),
        opens(Platform::D3d11, kind) <==> kind != SourceKind::Text && kind != SourceKind::Rtsp,
        opens(Platform::Cuda, kind) <==> kind == SourceKind::DisplayCapture || kind
            == SourceKind::Color || kind == SourceKind::Drawing,
        opens(Platform::Cuda, kind) ==> opens(Platform::D3d11, kind),
{
}

/// An output's stages: a thread of its own and the pause, the picture's size
/// where it is another than the canvas, its way off the device where its
/// encoder is not on it, and last its encoder and where its time begins.
pub proof fn law_an_outputs_stages(kind: OutputKind, hardware: bool, scaled: bool)
    ensures
        ({
            let stages = branch_of(kind, hardware, scaled);
            let n = stages.len() as int;
            &&& !scaled && hardware ==> n == 4
            &&& scaled && hardware ==> n == 5
            &&& !scaled && !hardware ==> n == 6
            &&& scaled && !hardware ==> n == 7
            &&& stages[0] == (StageKind::Queue, kind.called() + "-queue"@)
            &&& stages[1] == (StageKind::Pause, kind.called() + "-pause"@)
            &&& scaled ==> stages[2] == (StageKind::Scale, kind.called() + "-scale"@)
            &&& !hardware ==> stages[n - 4] == (StageKind::Download, kind.called() + "-download"@)
            &&& !hardware ==> stages[n - 3] == (StageKind::Convert, kind.called() + "-convert"@)
            &&& stages[n - 2] == (StageKind::Encode, kind.called() + "-encode"@)
            &&& stages[n - 1] == (StageKind::Origin, kind.called() + "-origin"@)
        }),
{
}

/// Stages are what was expected where there are as many, and each is of the
/// kind and the name expected in its place.
pub proof fn law_stages_are_what_was_expected(
    stages: Seq<Stage>,
    expected: Seq<(StageKind, Seq<char>)>,
    i: int,
)
    requires
        stages_are(stages, expected),
    ensures
        stages.len() == expected.len(),
        0 <= i < stages.len() ==> stages[i].kind == expected[i].0 && stages[i].name@
            == expected[i].1,
{
    if 0 <= i < stages.len() {
        assert(stages[i]@ == expected[i]);
    }
}

/// What each kind of source is called.
pub proof fn law_every_kind_has_its_name()
    ensures
        kind_called(SourceKind::DisplayCapture) == "DisplayCapture"@,
        kind_called(SourceKind::WindowCapture) == "WindowCapture"@,
        kind_called(SourceKind::Color) == "Color"@,
        kind_called(SourceKind::Image) == "Image"@,
        kind_called(SourceKind::Text) == "Text"@,
        kind_called(SourceKind::Drawing) == "Drawing"@,
        kind_called(SourceKind::MediaFile) == "MediaFile"@,
        kind_called(SourceKind::Rtsp) == "Rtsp"@,
{
}

} // verus!
