//! One output: its tracks, and the order in which they begin and end.
//!
//! A container's tracks are fixed before its header is written, so both
//! encoders are open before the file is; and its trailer is written once every
//! track has ended, so one owner ends them all.
use vstd::prelude::*;
use vstd::string::*;

use crate::audio::graph::MixFormat;
use crate::backend::encode::Rational;
use crate::output::OutputKind;
use crate::settings::{OutputEncoding, RecordingAudioCodec};
use crate::text::joined;

verus! {

/// An output's tracks by what they carry: always a picture, and sound where
/// the mixer is running.
pub struct Tracks<T> {
    pub video: T,
    pub audio: Option<T>,
}

impl<T> Tracks<T> {
    /// Each track through `f`, the picture first.
    pub fn map<U, F: FnMut(T) -> U>(self, mut f: F) -> (r: Tracks<U>)
        requires
            f.requires((self.video,)),
            self.audio matches Some(audio) ==> f.requires((audio,)),
        ensures
            f.ensures((self.video,), r.video),
            match self.audio {
                Some(audio) => r.audio is Some && f.ensures((audio,), r.audio->0),
                None => r.audio is None,
            },
    {
        let video = f(self.video);
        let audio = match self.audio {
            Some(audio) => Some(f(audio)),
            None => None,
        };
        Tracks { video, audio }
    }

    /// Each track through `f`, the picture first, stopping at the first it
    /// fails on.
    pub fn try_map<U, E, F: FnMut(T) -> Result<U, E>>(self, mut f: F) -> (r: Result<Tracks<U>, E>)
        requires
            f.requires((self.video,)),
            self.audio matches Some(audio) ==> f.requires((audio,)),
        ensures
            match r {
                Ok(tracks) => {
                    &&& f.ensures((self.video,), Ok(tracks.video))
                    &&& match self.audio {
                        Some(audio) => tracks.audio is Some && f.ensures(
                            (audio,),
                            Ok(tracks.audio->0),
                        ),
                        None => tracks.audio is None,
                    }
                },
                Err(error) => {
                    ||| f.ensures((self.video,), Err(error))
                    ||| self.audio is Some && f.ensures((self.audio->0,), Err(error)) && exists|
                        video: U,
                    |
                        f.ensures((self.video,), Ok(video))
                },
            },
    {
        let video = match f(self.video) {
            Ok(video) => video,
            Err(error) => {
                return Err(error);
            },
        };
        let audio = match self.audio {
            Some(audio) => match f(audio) {
                Ok(audio) => Some(audio),
                Err(error) => {
                    return Err(error);
                },
            },
            None => None,
        };
        Ok(Tracks { video, audio })
    }
}

/// What is asked for while an output starts.
#[derive(Clone, Copy, Debug, PartialEq, Eq, Structural)]
pub enum StartAction {
    /// Open the video encoder.
    PrepareVideo,
    /// Open the audio encoder.
    OpenAudioEncoder,
    /// Open the muxer, with a sound track or without.
    OpenMuxer { audio: bool },
    /// Begin the audio branch.
    AttachAudio,
    /// Begin the video branch.
    AttachVideo,
    /// End the audio branch.
    FinishAudio,
}

/// How far an output has come in starting.
#[derive(Clone, Copy, Debug, PartialEq, Eq, Structural)]
pub enum StartStage {
    PreparingVideo,
    OpeningAudioEncoder,
    OpeningMuxer { audio: bool },
    AttachingAudio,
    AttachingVideo { audio: bool },
    Running { audio: bool },
    Failed,
}

/// What became of what was asked for.
#[derive(Clone, Copy, Debug, PartialEq, Eq, Structural)]
pub enum StartEvent {
    Done,
    /// The muxer opened, and answered for a sound track or for none.
    Opened { audio: bool },
    Refused,
}

/// What is said of a muxer that opened for other tracks than it was given.
pub const OTHER_TRACKS: &'static str = "the muxer answered for a different set of tracks";

/// An output that is starting, with a mixer to take sound from or without.
pub struct Starting {
    pub mixer: bool,
    pub stage: StartStage,
}

/// Where one event leaves an output that is starting.
pub open spec fn next_stage(mixer: bool, stage: StartStage, event: StartEvent) -> StartStage {
    match (stage, event) {
        (StartStage::PreparingVideo, StartEvent::Done) => if mixer {
            StartStage::OpeningAudioEncoder
        } else {
            StartStage::OpeningMuxer { audio: false }
        },
        (StartStage::OpeningAudioEncoder, StartEvent::Done) => StartStage::OpeningMuxer {
            audio: true,
        },
        (StartStage::OpeningMuxer { audio }, StartEvent::Opened { audio: answered }) => if audio
            != answered {
            StartStage::Failed
        } else if audio {
            StartStage::AttachingAudio
        } else {
            StartStage::AttachingVideo { audio: false }
        },
        (StartStage::AttachingAudio, StartEvent::Done) => StartStage::AttachingVideo {
            audio: true,
        },
        (StartStage::AttachingVideo { audio }, StartEvent::Done) => StartStage::Running { audio },
        (StartStage::Running { audio }, _) => StartStage::Running { audio },
        _ => StartStage::Failed,
    }
}

/// What is asked for on entering a stage.
pub open spec fn asked_at(stage: StartStage) -> Option<StartAction> {
    match stage {
        StartStage::PreparingVideo => Some(StartAction::PrepareVideo),
        StartStage::OpeningAudioEncoder => Some(StartAction::OpenAudioEncoder),
        StartStage::OpeningMuxer { audio } => Some(StartAction::OpenMuxer { audio }),
        StartStage::AttachingAudio => Some(StartAction::AttachAudio),
        StartStage::AttachingVideo { .. } => Some(StartAction::AttachVideo),
        StartStage::Running { .. } => None,
        StartStage::Failed => None,
    }
}

/// Whether the audio branch is writing.
pub open spec fn audio_writes(stage: StartStage) -> bool {
    stage matches StartStage::AttachingVideo { audio: true } || stage matches StartStage::Running {
        audio: true,
    }
}

/// What one event asks for: what the next stage does, and where the start has
/// failed with the audio branch writing, that this be ended.
pub open spec fn next_action(mixer: bool, stage: StartStage, event: StartEvent) -> Option<
    StartAction,
> {
    let next = next_stage(mixer, stage, event);
    if next == stage {
        None
    } else if next is Failed && audio_writes(stage) {
        Some(StartAction::FinishAudio)
    } else {
        asked_at(next)
    }
}

impl Starting {
    /// Begins starting an output.
    pub fn begin(mixer: bool) -> (r: (Self, StartAction))
        ensures
            r.0.mixer == mixer,
            r.0.stage == StartStage::PreparingVideo,
            Some(r.1) == asked_at(r.0.stage),
    {
        (Starting { mixer, stage: StartStage::PreparingVideo }, StartAction::PrepareVideo)
    }

    fn ask(stage: StartStage) -> (r: Option<StartAction>)
        ensures
            r == asked_at(stage),
    {
        match stage {
            StartStage::PreparingVideo => Some(StartAction::PrepareVideo),
            StartStage::OpeningAudioEncoder => Some(StartAction::OpenAudioEncoder),
            StartStage::OpeningMuxer { audio } => Some(StartAction::OpenMuxer { audio }),
            StartStage::AttachingAudio => Some(StartAction::AttachAudio),
            StartStage::AttachingVideo { .. } => Some(StartAction::AttachVideo),
            StartStage::Running { .. } => None,
            StartStage::Failed => None,
        }
    }

    /// Takes what became of what was asked for, and answers what is asked for
    /// next.
    pub fn advance(&mut self, event: StartEvent) -> (r: Option<StartAction>)
        ensures
            final(self).mixer == old(self).mixer,
            final(self).stage == next_stage(old(self).mixer, old(self).stage, event),
            r == next_action(old(self).mixer, old(self).stage, event),
    {
        let before: StartStage = self.stage;
        let next: StartStage = match (before, event) {
            (StartStage::PreparingVideo, StartEvent::Done) => {
                if self.mixer {
                    StartStage::OpeningAudioEncoder
                } else {
                    StartStage::OpeningMuxer { audio: false }
                }
            },
            (StartStage::OpeningAudioEncoder, StartEvent::Done) => StartStage::OpeningMuxer {
                audio: true,
            },
            (StartStage::OpeningMuxer { audio }, StartEvent::Opened { audio: answered }) => {
                if audio != answered {
                    StartStage::Failed
                } else if audio {
                    StartStage::AttachingAudio
                } else {
                    StartStage::AttachingVideo { audio: false }
                }
            },
            (StartStage::AttachingAudio, StartEvent::Done) => StartStage::AttachingVideo {
                audio: true,
            },
            (StartStage::AttachingVideo { audio }, StartEvent::Done) => StartStage::Running {
                audio,
            },
            (StartStage::Running { audio }, _) => StartStage::Running { audio },
            _ => StartStage::Failed,
        };
        self.stage = next;
        if next == before {
            return None;
        }
        let writes: bool = match before {
            StartStage::AttachingVideo { audio } => audio,
            StartStage::Running { audio } => audio,
            _ => false,
        };
        if next == StartStage::Failed && writes {
            Some(StartAction::FinishAudio)
        } else {
            Self::ask(next)
        }
    }
}

/// Whether the file has been opened.
pub open spec fn file_open(stage: StartStage) -> bool {
    stage is AttachingAudio || stage is AttachingVideo || stage is Running
}

/// The stage reached after the first `n` events.
pub open spec fn stage_after(mixer: bool, events: Seq<StartEvent>, n: int) -> StartStage
    decreases n,
{
    if n <= 0 {
        StartStage::PreparingVideo
    } else {
        next_stage(mixer, stage_after(mixer, events, n - 1), events[n - 1])
    }
}

/// Whatever happens, an output carries sound only where there is a mixer.
pub proof fn law_sound_needs_a_mixer(mixer: bool, events: Seq<StartEvent>, n: int)
    requires
        0 <= n <= events.len(),
    ensures
        stage_after(mixer, events, n) matches StartStage::OpeningMuxer { audio } ==> audio == mixer,
        stage_after(mixer, events, n) is AttachingAudio ==> mixer,
        stage_after(mixer, events, n) is OpeningAudioEncoder ==> mixer,
        stage_after(mixer, events, n) matches StartStage::AttachingVideo { audio } ==> audio
            == mixer,
        stage_after(mixer, events, n) matches StartStage::Running { audio } ==> audio == mixer,
    decreases n,
{
    if n > 0 {
        law_sound_needs_a_mixer(mixer, events, n - 1);
    }
}

/// A start that fails leaves no track running: where the audio branch was
/// writing it is ended, and the video branch is begun last.
pub proof fn law_a_failed_start_leaves_nothing_running(
    mixer: bool,
    stage: StartStage,
    event: StartEvent,
)
    requires
        !(stage is Failed),
        next_stage(mixer, stage, event) is Failed,
    ensures
        audio_writes(stage) <==> next_action(mixer, stage, event) == Some(
            StartAction::FinishAudio,
        ),
        !(stage is Running),
{
}

/// The file is not opened until every encoder the output needs is: an encoder
/// that cannot be opened leaves no empty file behind.
pub proof fn law_encoders_open_before_the_file(
    mixer: bool,
    stage: StartStage,
    event: StartEvent,
)
    requires
        next_action(mixer, stage, event) matches Some(StartAction::OpenMuxer { .. }),
    ensures
        event == StartEvent::Done,
        if mixer {
            stage is OpeningAudioEncoder
        } else {
            stage is PreparingVideo || stage is OpeningAudioEncoder
        },
        !file_open(stage),
{
}

/// What is asked for while an output ends.
#[derive(Clone, Copy, Debug, PartialEq, Eq, Structural)]
pub enum StopAction {
    FinishAudio,
    DetachVideo,
}

/// A gate to open or close.
#[derive(Clone, Copy, Debug, PartialEq, Eq, Structural)]
pub enum Gate {
    Video,
    Audio,
}

/// One running output, by which tracks it has.
#[derive(Clone, Copy, Debug, PartialEq, Eq, Structural)]
pub struct Output {
    pub video: bool,
    pub audio: bool,
}

impl Output {
    /// What ends every track: each of them is tried, the sound first.
    pub fn stop(self) -> (r: Vec<StopAction>)
        ensures
            r@ == (if self.audio {
                seq![StopAction::FinishAudio]
            } else {
                Seq::empty()
            }) + (if self.video {
                seq![StopAction::DetachVideo]
            } else {
                Seq::empty()
            }),
    {
        let mut r: Vec<StopAction> = Vec::new();
        if self.audio {
            r.push(StopAction::FinishAudio);
        }
        if self.video {
            r.push(StopAction::DetachVideo);
        }
        proof {
            assert(r@ =~= (if self.audio {
                seq![StopAction::FinishAudio]
            } else {
                Seq::empty()
            }) + (if self.video {
                seq![StopAction::DetachVideo]
            } else {
                Seq::empty()
            }));
        }
        r
    }

    /// The gates that are told when writing stops or resumes: those of every
    /// track, in one breath.
    pub fn set_paused(&self) -> (r: Vec<Gate>)
        ensures
            r@ == (if self.video {
                seq![Gate::Video]
            } else {
                Seq::empty()
            }) + (if self.audio {
                seq![Gate::Audio]
            } else {
                Seq::empty()
            }),
    {
        let mut r: Vec<Gate> = Vec::new();
        if self.video {
            r.push(Gate::Video);
        }
        if self.audio {
            r.push(Gate::Audio);
        }
        proof {
            assert(r@ =~= (if self.video {
                seq![Gate::Video]
            } else {
                Seq::empty()
            }) + (if self.audio {
                seq![Gate::Audio]
            } else {
                Seq::empty()
            }));
        }
        r
    }
}

/// What ending an output came to: the first failure, once both tracks have
/// been tried.
pub fn stopped<E>(audio: Option<E>, video: Option<E>) -> (r: Result<(), E>)
    ensures
        r == (match (audio, video) {
            (Some(error), _) => Err(error),
            (None, Some(error)) => Err(error),
            (None, None) => Ok(()),
        }),
{
    match audio {
        Some(error) => Err(error),
        None => match video {
            Some(error) => Err(error),
            None => Ok(()),
        },
    }
}

/// What the sound track of an output is made with.
pub struct AudioPlan {
    pub track: String,
    pub encode: String,
    pub queue: String,
    pub pause: String,
    pub origin: String,
    pub codec: RecordingAudioCodec,
    pub sample_rate: u32,
    pub channels: u16,
    /// What it is stamped in: samples.
    pub time_base: Rational,
    pub bit_rate: usize,
}

/// The format sound is encoded for: what the mixer says it sums into, and the
/// fallback where it has nothing to say. What was asked of it does not count,
/// since a format it refused leaves the old one running.
pub fn mix_format(running: Option<MixFormat>, fallback: MixFormat) -> (r: MixFormat)
    ensures
        r == (match running {
            Some(format) => format,
            None => fallback,
        }),
{
    match running {
        Some(format) => format,
        None => fallback,
    }
}

/// The rate sound is encoded at, in bits a second: never nothing.
pub open spec fn audio_bits(kbps: u32) -> int {
    (if kbps == 0 {
        1
    } else {
        kbps as int
    }) * 1_000
}

/// What the sound track of an output is called and made with, at the format
/// the mix runs at.
pub fn audio_plan(kind: OutputKind, encoding: &OutputEncoding, mix: MixFormat) -> (r: AudioPlan)
    requires
        mix.sample_rate <= i32::MAX,
        audio_bits(encoding.audio_bit_rate_kbps) <= usize::MAX,
    ensures
        r.track@ == kind.called() + "-audio"@,
        r.encode@ == kind.called() + "-audio-encode"@,
        r.queue@ == kind.called() + "-audio-queue"@,
        r.pause@ == kind.called() + "-audio-pause"@,
        r.origin@ == kind.called() + "-audio-origin"@,
        r.codec == encoding.audio_codec,
        r.sample_rate == mix.sample_rate,
        r.channels == mix.channels,
        r.time_base == (Rational { numerator: 1, denominator: mix.sample_rate as i32 }),
        r.bit_rate == audio_bits(encoding.audio_bit_rate_kbps),
        encoding.audio_bit_rate_kbps > 0 ==> r.bit_rate == encoding.audio_bit_rate_kbps * 1_000,
        encoding.audio_bit_rate_kbps == 0 ==> r.bit_rate == 1_000,
{
    let kbps: u32 = if encoding.audio_bit_rate_kbps == 0 {
        1
    } else {
        encoding.audio_bit_rate_kbps
    };
    AudioPlan {
        track: joined(kind.prefix(), "-audio"),
        encode: joined(kind.prefix(), "-audio-encode"),
        queue: joined(kind.prefix(), "-audio-queue"),
        pause: joined(kind.prefix(), "-audio-pause"),
        origin: joined(kind.prefix(), "-audio-origin"),
        codec: encoding.audio_codec,
        sample_rate: mix.sample_rate,
        channels: mix.channels,
        time_base: Rational { numerator: 1, denominator: mix.sample_rate as i32 },
        bit_rate: kbps as usize * 1_000,
    }
}

/// What the picture track of an output is called.
pub fn video_track(kind: OutputKind) -> (r: String)
    ensures
        r@ == kind.called() + "-video"@,
{
    joined(kind.prefix(), "-video")
}

/// An output starts step by step, each asked for once the one before it is
/// done: the picture's encoder, the sound's where there is a mix, the file, the
/// sound's branch and last the picture's. Whatever is refused on the way ends
/// it, and a muxer that answers for other tracks is a refusal.
pub proof fn law_an_output_starts_step_by_step(audio: bool, stage: StartStage)
    ensures
        next_stage(true, StartStage::PreparingVideo, StartEvent::Done) is OpeningAudioEncoder,
        next_stage(false, StartStage::PreparingVideo, StartEvent::Done) == (
        StartStage::OpeningMuxer { audio: false }),
        next_stage(audio, StartStage::OpeningAudioEncoder, StartEvent::Done) == (
        StartStage::OpeningMuxer { audio: true }),
        next_stage(
            audio,
            StartStage::OpeningMuxer { audio: true },
            StartEvent::Opened { audio: true },
        ) is AttachingAudio,
        next_stage(
            audio,
            StartStage::OpeningMuxer { audio: false },
            StartEvent::Opened { audio: false },
        ) == (StartStage::AttachingVideo { audio: false }),
        next_stage(
            audio,
            StartStage::OpeningMuxer { audio },
            StartEvent::Opened { audio: !audio },
        ) is Failed,
        next_stage(audio, StartStage::AttachingAudio, StartEvent::Done) == (
        StartStage::AttachingVideo { audio: true }),
        next_stage(audio, StartStage::AttachingVideo { audio }, StartEvent::Done) == (
        StartStage::Running { audio }),
        !(stage is Running) ==> next_stage(audio, stage, StartEvent::Refused) is Failed,
        stage is Running ==> next_stage(audio, stage, StartEvent::Refused) == stage,
{
}

/// What is asked for at each step.
pub proof fn law_each_step_asks_for_itself(audio: bool)
    ensures
        asked_at(StartStage::PreparingVideo) == Some(StartAction::PrepareVideo),
        asked_at(StartStage::OpeningAudioEncoder) == Some(StartAction::OpenAudioEncoder),
        asked_at(StartStage::OpeningMuxer { audio }) == Some(StartAction::OpenMuxer { audio }),
        asked_at(StartStage::AttachingAudio) == Some(StartAction::AttachAudio),
        asked_at(StartStage::AttachingVideo { audio }) == Some(StartAction::AttachVideo),
        asked_at(StartStage::Running { audio }) is None,
        asked_at(StartStage::Failed) is None,
        next_action(true, StartStage::PreparingVideo, StartEvent::Done) == Some(
            StartAction::OpenAudioEncoder,
        ),
        next_action(false, StartStage::PreparingVideo, StartEvent::Done) == Some(
            StartAction::OpenMuxer { audio: false },
        ),
        next_action(audio, StartStage::AttachingVideo { audio: true }, StartEvent::Refused) == Some(
            StartAction::FinishAudio,
        ),
        next_action(audio, StartStage::AttachingVideo { audio: false }, StartEvent::Refused)
            is None,
        next_action(audio, StartStage::AttachingAudio, StartEvent::Refused) is None,
{
}

/// A bit rate is so many thousand bits, and never nothing.
pub proof fn law_a_bit_rate_is_in_thousands(kbps: u32)
    ensures
        kbps > 0 ==> audio_bits(kbps) == kbps * 1_000,
        audio_bits(0) == 1_000,
{
}

/// The sound is being written from when its branch has begun.
pub proof fn law_sound_is_written_once_its_branch_has_begun(stage: StartStage, audio: bool)
    ensures
        audio_writes(StartStage::AttachingVideo { audio }) == audio,
        audio_writes(StartStage::Running { audio }) == audio,
        stage is PreparingVideo || stage is OpeningAudioEncoder || stage is OpeningMuxer || stage
            is AttachingAudio || stage is Failed ==> !audio_writes(stage),
        file_open(stage) <==> stage is AttachingAudio || stage is AttachingVideo || stage
            is Running,
{
}

} // verus!
