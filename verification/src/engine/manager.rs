//! What the application holds of the engine: what it asks for, and what it is
//! shown.
use vstd::prelude::*;

use crate::audio::level::{self, reading};
use crate::engine::commands::{Engine, EngineCommand};
use crate::engine::outputs::Published;
use crate::engine::run::{self, MeasuredRate};
use crate::engine::sources::SourceState;
use crate::engine::status::SourceStatus;
use crate::scene::{Placement, Scene, SceneItem, SceneItemId, Stroke};
use crate::settings::{
    OutputSettings, RecordingAudioCodec, RecordingEncoder, RecordingSettings, StreamingSettings,
};
use crate::share::Share;
use crate::stats::StatsSnapshot;
use crate::table::Table;

verus! {

/// The most recent composited frame, by the texture it is in.
#[derive(Clone, Copy, Debug, PartialEq, Eq, Structural)]
pub struct CompositeFrame {
    pub texture_id: u64,
}

/// What one playing media file measures about itself.
#[derive(Clone, Copy, Debug, PartialEq, Eq, Structural)]
pub struct MediaMeters {
    /// The bits of its level, and zero where it has measured nothing.
    pub peak: u32,
    /// Where it has reached, in microseconds, and negative where it has
    /// reached nothing.
    pub position: i64,
}

/// What the engine shows.
pub struct Shown {
    pub frame: Option<CompositeFrame>,
    pub rate: Option<MeasuredRate>,
    pub outputs: Published,
    pub output_load: Share,
    pub stats: Option<StatsSnapshot>,
    pub source_status: Option<Table<SourceStatus>>,
    pub media_meters: Option<Table<MediaMeters>>,
    pub encoders: Option<Vec<RecordingEncoder>>,
    pub audio_codecs: Option<Vec<RecordingAudioCodec>>,
}

/// The application's end of the engine: what has been asked for and not taken
/// yet, and what the engine last showed.
pub struct EngineManager {
    pub commands: Vec<EngineCommand>,
    pub shown: Shown,
}

/// What one media file measures, where it is playing.
pub open spec fn meters_of(meters: Option<Table<MediaMeters>>, item: SceneItemId) -> Option<
    MediaMeters,
> {
    match meters {
        Some(meters) => meters.at(item.0),
        None => None,
    }
}

impl EngineManager {
    /// What has been asked for and not taken yet, oldest first.
    pub open spec fn asked(&self) -> Seq<EngineCommand> {
        self.commands@
    }

    /// No media file is shown twice.
    pub open spec fn wf(&self) -> bool {
        self.shown.media_meters matches Some(meters) ==> meters.wf()
    }

    /// Both ends of the engine as it starts: nothing asked, nothing shown, and
    /// the outputs as they were saved.
    pub fn spawn(outputs: OutputSettings, project: bool, now: u64) -> (r: (Self, Engine))
        ensures
            r.0.wf(),
            r.0.asked() == Seq::<EngineCommand>::empty(),
            r.0.shown.frame is None,
            r.0.shown.rate is None,
            r.0.shown.outputs.recorded(now) is None,
            r.0.shown.outputs.recording_paused_at is None,
            r.0.shown.outputs.recording_error is None,
            r.0.shown.outputs.streaming_since is None,
            r.0.shown.outputs.streaming_error is None,
            !r.0.shown.outputs.streaming_reconnecting,
            r.0.shown.output_load == Share::nothing(),
            r.0.shown.stats is None,
            r.0.shown.source_status is None,
            r.0.shown.media_meters is None,
            r.0.shown.encoders is None,
            r.0.shown.audio_codecs is None,
            r.1.wf(now),
            r.1.open@ == Map::<i64, SourceState>::empty(),
            r.1.scene.items@ == Seq::<SceneItem>::empty(),
            r.1.outputs.state.settings == outputs.recording,
            r.1.outputs.state.streaming == outputs.streaming,
            !r.1.outputs.state.running,
            r.1.outputs.state.broadcast is Off,
            r.1.project == project,
            r.1.looked_for_missing == now,
    {
        let manager = EngineManager {
            commands: Vec::new(),
            shown: Shown {
                frame: None,
                rate: None,
                outputs: Published::new(),
                output_load: Share { part: 0, whole: 1 },
                stats: None,
                source_status: None,
                media_meters: None,
                encoders: None,
                audio_codecs: None,
            },
        };
        (manager, Engine::new(outputs, project, now))
    }

    fn send(&mut self, command: EngineCommand)
        ensures
            final(self).asked() == old(self).asked().push(command),
            final(self).shown == old(self).shown,
    {
        self.commands.push(command);
    }

    /// Takes everything that has been asked for, oldest first.
    pub fn take(&mut self) -> (r: Vec<EngineCommand>)
        ensures
            r@ == old(self).asked(),
            final(self).asked() == Seq::<EngineCommand>::empty(),
            final(self).shown == old(self).shown,
    {
        let mut taken: Vec<EngineCommand> = Vec::new();
        core::mem::swap(&mut taken, &mut self.commands);
        taken
    }

    /// Tells the engine what the selected scene now contains.
    pub fn apply(&mut self, scene: Scene)
        ensures
            final(self).asked() == old(self).asked().push(EngineCommand::Scene(scene)),
            final(self).shown == old(self).shown,
    {
        self.send(EngineCommand::Scene(scene));
    }

    /// Redraws a drawing while the pointer is still down.
    pub fn set_drawing_strokes(&mut self, item: SceneItemId, strokes: Vec<Stroke>)
        ensures
            final(self).asked() == old(self).asked().push(EngineCommand::Drawing(item, strokes)),
            final(self).shown == old(self).shown,
    {
        self.send(EngineCommand::Drawing(item, strokes));
    }

    /// Shows a colour while it is still being picked.
    pub fn set_source_colour(&mut self, item: SceneItemId, rgba: [u8; 4])
        ensures
            final(self).asked() == old(self).asked().push(EngineCommand::Colour(item, rgba)),
            final(self).shown == old(self).shown,
    {
        self.send(EngineCommand::Colour(item, rgba));
    }

    /// Shows a text while it is still being typed.
    pub fn set_source_text(&mut self, item: SceneItemId, text: String)
        ensures
            final(self).asked() == old(self).asked().push(EngineCommand::Text(item, text)),
            final(self).shown == old(self).shown,
    {
        self.send(EngineCommand::Text(item, text));
    }

    /// Moves one layer while the pointer is still down.
    pub fn set_dragging_transform(&mut self, item: SceneItemId, at: Placement)
        ensures
            final(self).asked() == old(self).asked().push(EngineCommand::Dragging(item, at)),
            final(self).shown == old(self).shown,
    {
        self.send(EngineCommand::Dragging(item, at));
    }

    /// Tells the engine whether anyone is looking at the preview.
    pub fn set_preview_visible(&mut self, visible: bool)
        ensures
            final(self).asked() == old(self).asked().push(EngineCommand::PreviewVisible(visible)),
            final(self).shown == old(self).shown,
    {
        self.send(EngineCommand::PreviewVisible(visible));
    }

    /// Asks for a recording. What is shown of the outputs says whether it worked.
    pub fn start_recording(&mut self)
        ensures
            final(self).asked() == old(self).asked().push(EngineCommand::StartRecording),
            final(self).shown == old(self).shown,
    {
        self.send(EngineCommand::StartRecording);
    }

    /// Stops or resumes the running recording.
    pub fn set_recording_paused(&mut self, paused: bool)
        ensures
            final(self).asked() == old(self).asked().push(EngineCommand::PauseRecording(paused)),
            final(self).shown == old(self).shown,
    {
        self.send(EngineCommand::PauseRecording(paused));
    }

    /// Ends the running recording.
    pub fn stop_recording(&mut self)
        ensures
            final(self).asked() == old(self).asked().push(EngineCommand::StopRecording),
            final(self).shown == old(self).shown,
    {
        self.send(EngineCommand::StopRecording);
    }

    /// Hands the engine what the next recording should be written as.
    pub fn set_recording_settings(&mut self, settings: RecordingSettings)
        ensures
            final(self).asked() == old(self).asked().push(
                EngineCommand::RecordingSettings(settings),
            ),
            final(self).shown == old(self).shown,
    {
        self.send(EngineCommand::RecordingSettings(settings));
    }

    /// Begins publishing to the server the settings name.
    pub fn start_streaming(&mut self)
        ensures
            final(self).asked() == old(self).asked().push(EngineCommand::StartStreaming),
            final(self).shown == old(self).shown,
    {
        self.send(EngineCommand::StartStreaming);
    }

    /// Ends the running broadcast.
    pub fn stop_streaming(&mut self)
        ensures
            final(self).asked() == old(self).asked().push(EngineCommand::StopStreaming),
            final(self).shown == old(self).shown,
    {
        self.send(EngineCommand::StopStreaming);
    }

    /// Hands the engine where the next broadcast is published, and how.
    pub fn set_streaming_settings(&mut self, settings: StreamingSettings)
        ensures
            final(self).asked() == old(self).asked().push(
                EngineCommand::StreamingSettings(settings),
            ),
            final(self).shown == old(self).shown,
    {
        self.send(EngineCommand::StreamingSettings(settings));
    }

    /// Moves one media file to a position in it, in nanoseconds.
    pub fn seek_media_file(&mut self, item: SceneItemId, target: u64)
        ensures
            final(self).asked() == old(self).asked().push(EngineCommand::MediaSeek(item, target)),
            final(self).shown == old(self).shown,
    {
        self.send(EngineCommand::MediaSeek(item, target));
    }

    /// Hands one media file its gain, in millionths of a decibel, while its fader
    /// is held.
    pub fn set_media_gain_db(&mut self, item: SceneItemId, gain: i64)
        ensures
            final(self).asked() == old(self).asked().push(EngineCommand::MediaGain(item, gain)),
            final(self).shown == old(self).shown,
    {
        self.send(EngineCommand::MediaGain(item, gain));
    }

    /// Hands one filter its settings while its slider is held.
    pub fn set_filter_settings(&mut self, item: SceneItemId, filter: i64, values: Vec<i64>)
        ensures
            final(self).asked() == old(self).asked().push(
                EngineCommand::FilterSettings(item, filter, values),
            ),
            final(self).shown == old(self).shown,
    {
        self.send(EngineCommand::FilterSettings(item, filter, values));
    }

    /// Asks for one source to be opened again, whatever that costs.
    pub fn reopen_source(&mut self, item: SceneItemId)
        ensures
            final(self).asked() == old(self).asked().push(EngineCommand::ReopenSource(item)),
            final(self).shown == old(self).shown,
    {
        self.send(EngineCommand::ReopenSource(item));
    }

    /// The most recent composited frame, or `None` before the first one.
    pub fn frame(&self) -> (r: Option<CompositeFrame>)
        ensures
            r == self.shown.frame,
    {
        self.shown.frame
    }

    /// The compositor's measured rate, or `None` until a full window has been
    /// observed.
    pub fn active_fps(&self) -> (r: Option<MeasuredRate>)
        ensures
            r == self.shown.rate,
    {
        self.shown.rate
    }

    /// The rate the compositor is being asked for: never nothing.
    pub fn target_fps(&self, settings: &RecordingSettings) -> (r: u32)
        ensures
            r == run::usable_rate(settings.fps),
            settings.fps > 0 ==> r == settings.fps,
            settings.fps == 0 ==> r == 1,
    {
        if settings.fps == 0 {
            1
        } else {
            settings.fps
        }
    }

    /// How long the running recording's file is, or `None` when none is.
    pub fn recording(&self, now: u64) -> (r: Option<u64>)
        ensures
            match r {
                Some(length) => self.shown.outputs.recorded(now) == Some(length as int),
                None => self.shown.outputs.recorded(now) is None,
            },
    {
        self.shown.outputs.recording(now)
    }

    /// How long the running broadcast has been live, or `None` when none is.
    pub fn streaming(&self, now: u64) -> (r: Option<u64>)
        ensures
            match self.shown.outputs.streaming_since {
                Some(since) => r == Some(
                    (if now >= since {
                        now - since
                    } else {
                        0
                    }) as u64,
                ),
                None => r is None,
            },
    {
        self.shown.outputs.streaming(now)
    }

    /// Why the last broadcast failed, where it did.
    pub fn streaming_error(&self) -> (r: &Option<String>)
        ensures
            *r == self.shown.outputs.streaming_error,
    {
        &self.shown.outputs.streaming_error
    }

    /// Whether a dropped broadcast is waiting to be tried again.
    pub fn streaming_reconnecting(&self) -> (r: bool)
        ensures
            r == self.shown.outputs.streaming_reconnecting,
    {
        self.shown.outputs.streaming_reconnecting
    }

    /// How hard the outputs press on what feeds them.
    pub fn output_load(&self) -> (r: Share)
        ensures
            r == self.shown.output_load,
    {
        self.shown.output_load
    }

    /// What every named part of the graph is doing, or `None` before the first
    /// reading.
    pub fn stats(&self) -> (r: &Option<StatsSnapshot>)
        ensures
            *r == self.shown.stats,
    {
        &self.shown.stats
    }

    /// Whether the running recording is paused.
    pub fn recording_paused(&self) -> (r: bool)
        ensures
            r == (self.shown.outputs.recording_paused_at is Some),
    {
        self.shown.outputs.recording_paused_at.is_some()
    }

    /// Which encoders this machine can record with, or `None` before that is
    /// known.
    pub fn encoders(&self) -> (r: &Option<Vec<RecordingEncoder>>)
        ensures
            *r == self.shown.encoders,
    {
        &self.shown.encoders
    }

    /// Which audio codecs can be recorded with, or `None` before that is
    /// known.
    pub fn audio_codecs(&self) -> (r: &Option<Vec<RecordingAudioCodec>>)
        ensures
            *r == self.shown.audio_codecs,
    {
        &self.shown.audio_codecs
    }

    /// Why the last recording failed, where it did.
    pub fn recording_error(&self) -> (r: &Option<String>)
        ensures
            *r == self.shown.outputs.recording_error,
    {
        &self.shown.outputs.recording_error
    }

    /// The items that are not producing a picture, or `None` where none ever
    /// was dark.
    pub fn source_status(&self) -> (r: &Option<Table<SourceStatus>>)
        ensures
            *r == self.shown.source_status,
    {
        &self.shown.source_status
    }

    fn meters(&self, item: SceneItemId) -> (r: Option<MediaMeters>)
        requires
            self.wf(),
        ensures
            r == meters_of(self.shown.media_meters, item),
    {
        match &self.shown.media_meters {
            Some(meters) => match meters.get(item.0) {
                Some(held) => Some(*held),
                None => None,
            },
            None => None,
        }
    }

    /// What this media file's meter reads, or `None` for one that has measured
    /// nothing and for anything that is not playing.
    pub fn media_peak_db(&self, item: SceneItemId) -> (r: Option<u32>)
        requires
            self.wf(),
        ensures
            r == (match meters_of(self.shown.media_meters, item) {
                Some(meters) => level::read_back(meters.peak),
                None => None,
            }),
    {
        match self.meters(item) {
            Some(meters) => reading(meters.peak),
            None => None,
        }
    }

    /// Where this media file has reached, in microseconds, or `None` for one
    /// that is not playing or has not produced a frame yet.
    pub fn media_position(&self, item: SceneItemId) -> (r: Option<u64>)
        requires
            self.wf(),
        ensures
            r == (match meters_of(self.shown.media_meters, item) {
                Some(meters) if meters.position >= 0 => Some(meters.position as u64),
                _ => None,
            }),
    {
        match self.meters(item) {
            Some(meters) => {
                if meters.position >= 0 {
                    Some(meters.position as u64)
                } else {
                    None
                }
            },
            None => None,
        }
    }
}

/// A media file's meters are those published for its own item, and nothing
/// where none were.
pub proof fn law_meters_belong_to_their_item(meters: Table<MediaMeters>, item: SceneItemId)
    ensures
        meters_of(None, item) is None,
        meters_of(Some(meters), item) is Some <==> meters@.dom().contains(item.0),
        meters_of(Some(meters), item) matches Some(read) ==> read == meters@[item.0],
{
}

} // verus!
