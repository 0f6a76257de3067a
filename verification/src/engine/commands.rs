//! What can be asked of the engine, and what each request changes.
use vstd::prelude::*;

use crate::engine::outputs::{ALREADY_RECORDING, OutputAction, OutputState, Outputs, Trouble};
use crate::engine::sources::{
    self, finish_open, look, position, redraw_clocks, reopen, retry_missing, settle, MISSING_RETRY,
    Opened, SourceAction, SourceState,
};
use crate::scene::{self, layer_for, FilterSlot, Placement, Scene, SceneItemId, Stroke};
use crate::settings::{RecordingSettings, StreamingSettings};
use crate::table::Table;

verus! {

/// What the application asks the engine to change.
pub enum EngineCommand {
    /// The selected scene's contents, as the project now holds them.
    Scene(Scene),
    /// Open this item's source again, because someone asked for it.
    ReopenSource(SceneItemId),
    /// One source has finished opening, however it came out.
    Opened(Opened),
    /// One item's placement while it is being dragged.
    Dragging(SceneItemId, Placement),
    /// One filter's settings while they are being turned.
    FilterSettings(SceneItemId, i64, Vec<i64>),
    /// A drawing's strokes while one is being made.
    Drawing(SceneItemId, Vec<Stroke>),
    /// A colour while it is being picked.
    Colour(SceneItemId, [u8; 4]),
    /// A text while it is being typed.
    Text(SceneItemId, String),
    /// A media file's gain, in millionths of a decibel, while its fader is
    /// held.
    MediaGain(SceneItemId, i64),
    /// Move a media file to a position, in nanoseconds.
    MediaSeek(SceneItemId, u64),
    /// Whether anyone is looking at the preview.
    PreviewVisible(bool),
    StartRecording,
    StopRecording,
    PauseRecording(bool),
    /// What the next recording is written as.
    RecordingSettings(RecordingSettings),
    StartStreaming,
    StopStreaming,
    /// What a connect came out as.
    BroadcastOpened(Result<(), String>),
    /// Where the next broadcast is published, and how.
    StreamingSettings(StreamingSettings),
}

/// A change to a running source that the project does not hold yet.
pub enum LiveEdit {
    Drawing(SceneItemId, Vec<Stroke>),
    Colour(SceneItemId, [u8; 4]),
    Text(SceneItemId, String),
    MediaGain(SceneItemId, i64),
    FilterSettings(SceneItemId, i64, Vec<i64>),
    MediaSeek(SceneItemId, u64),
}

/// What one command comes to.
pub struct Step {
    /// Whether the running sources may have moved on.
    pub reconciled: bool,
    pub sources: Vec<SourceAction>,
    pub outputs: Vec<OutputAction>,
    pub edit: Option<LiveEdit>,
    /// The items whose source has to be opened anew, for [`Engine::settle`].
    pub rebuild: Vec<i64>,
}

/// The engine's whole state.
pub struct Engine {
    pub open: Table<SourceState>,
    pub scene: Scene,
    pub outputs: Outputs,
    /// Whether there is a project to tell what was learned.
    pub project: bool,
    /// When missing sources were last looked for.
    pub looked_for_missing: u64,
}

/// Whether a source is running behind an id.
pub open spec fn is_open(open: Map<i64, SourceState>, id: SceneItemId) -> bool {
    sources::held(open, id.0) matches Some(SourceState::Open(_))
}

/// Whether a running source has this filter.
pub open spec fn has_filter(open: Map<i64, SourceState>, id: SceneItemId, filter: i64) -> bool {
    sources::held(open, id.0) matches Some(SourceState::Open(source)) && exists|i: int|
        0 <= i < source.filters@.len() && (#[trigger] source.filters@[i]).id == filter
}

/// Whether a running source has a file to move about in.
pub open spec fn has_file(open: Map<i64, SourceState>, id: SceneItemId) -> bool {
    sources::held(open, id.0) matches Some(SourceState::Open(source)) && source.media_file
}

/// What a live edit comes to: it reaches the source it is for where that one
/// is running and can take it, and nothing else.
pub open spec fn live_edit(open: Map<i64, SourceState>, command: EngineCommand) -> Option<
    LiveEdit,
> {
    match command {
        EngineCommand::Drawing(id, strokes) => if is_open(open, id) {
            Some(LiveEdit::Drawing(id, strokes))
        } else {
            None
        },
        EngineCommand::Colour(id, rgba) => if is_open(open, id) {
            Some(LiveEdit::Colour(id, rgba))
        } else {
            None
        },
        EngineCommand::Text(id, text) => if is_open(open, id) {
            Some(LiveEdit::Text(id, text))
        } else {
            None
        },
        EngineCommand::MediaGain(id, gain) => if is_open(open, id) {
            Some(LiveEdit::MediaGain(id, gain))
        } else {
            None
        },
        EngineCommand::FilterSettings(id, filter, values) => if has_filter(open, id, filter) {
            Some(LiveEdit::FilterSettings(id, filter, values))
        } else {
            None
        },
        EngineCommand::MediaSeek(id, target) => if has_file(open, id) {
            Some(LiveEdit::MediaSeek(id, target))
        } else {
            None
        },
        _ => None,
    }
}

/// What a command asks of the sources.
pub open spec fn source_actions(engine: Engine, command: EngineCommand, fps: u32) -> Seq<
    SourceAction,
> {
    match command {
        EngineCommand::Scene(scene) => sources::look_actions(
            engine.open@,
            scene.items@,
            fps,
            scene.items@.len() as int,
        ),
        EngineCommand::Opened(opened) => sources::finish_actions(
            engine.open@,
            engine.scene.items@,
            engine.project,
            opened,
        ),
        EngineCommand::ReopenSource(id) => if sources::shown(engine.scene.items@, id.0) && is_open(
            engine.open@,
            id,
        ) {
            seq![SourceAction::Stop(id)]
        } else {
            Seq::empty()
        },
        EngineCommand::Dragging(id, at) => match sources::find(engine.scene.items@, id.0) {
            Some(i) if is_open(engine.open@, id) => seq![
                SourceAction::SetLayer(
                    id,
                    scene::placed(
                        engine.scene.items@[i],
                        at,
                        ((engine.scene.items@.len() - i) as usize) as i32,
                    ),
                ),
            ],
            _ => Seq::empty(),
        },
        _ => Seq::empty(),
    }
}

/// Where a command leaves the sources.
pub open spec fn sources_after(engine: Engine, command: EngineCommand, now: u64) -> Map<
    i64,
    SourceState,
> {
    match command {
        EngineCommand::Scene(scene) => sources::looked(
            engine.open@,
            scene.items@,
            scene.items@.len() as int,
        ),
        EngineCommand::Opened(opened) => if sources::held(engine.open@, opened.item.id.0) == Some(
            SourceState::Opening,
        ) {
            engine.open@.insert(
                opened.item.id.0,
                sources::answered(opened.item, opened.result, now),
            )
        } else {
            engine.open@
        },
        EngineCommand::ReopenSource(id) => match sources::find(engine.scene.items@, id.0) {
            Some(i) => engine.open@.insert(
                id.0,
                SourceState::Missing(sources::overdue(engine.scene.items@[i], now)),
            ),
            None => engine.open@,
        },
        _ => engine.open@,
    }
}

/// What a command asks of the outputs.
pub open spec fn output_actions(engine: Engine, command: EngineCommand, fps: u32) -> Seq<
    OutputAction,
> {
    let outputs = engine.outputs;
    match command {
        EngineCommand::PreviewVisible(visible) => seq![OutputAction::SetPreviewVisible(visible)],
        EngineCommand::StartRecording => if outputs.state.running {
            Seq::empty()
        } else {
            seq![OutputAction::StartRecording]
        },
        EngineCommand::StopRecording => if outputs.state.running {
            seq![OutputAction::StopRecording]
        } else {
            Seq::empty()
        },
        EngineCommand::PauseRecording(paused) => if outputs.state.running {
            seq![OutputAction::SetRecordingPaused(paused)]
        } else {
            Seq::empty()
        },
        EngineCommand::RecordingSettings(settings) => if !outputs.state.running && settings.fps
            != fps {
            seq![OutputAction::SetFrameRate(settings.fps), OutputAction::ProbeAudioCodecs]
        } else {
            seq![OutputAction::ProbeAudioCodecs]
        },
        EngineCommand::StartStreaming => outputs.request_actions(fps),
        EngineCommand::StopStreaming => if outputs.state.broadcast is Live {
            seq![OutputAction::StopBroadcast]
        } else {
            Seq::empty()
        },
        EngineCommand::BroadcastOpened(opened) => if opened is Ok
            && !outputs.state.broadcast.is_wanted() {
            seq![OutputAction::DiscardBroadcast]
        } else {
            Seq::empty()
        },
        _ => Seq::empty(),
    }
}

/// Where a command leaves the outputs. Of a recording asked for while one runs
/// it leaves open only how the reason is written, which `apply_command` states.
pub open spec fn outputs_after(engine: Engine, command: EngineCommand, now: u64, reason: Option<
    String,
>) -> Outputs {
    let outputs = engine.outputs;
    match command {
        EngineCommand::StartRecording => outputs.asked_to_record(reason),
        EngineCommand::StopRecording => outputs.recording_ended(),
        EngineCommand::PauseRecording(paused) => outputs.paused(paused, now),
        EngineCommand::RecordingSettings(settings) => Outputs {
            state: OutputState { settings, ..outputs.state },
            ..outputs
        },
        EngineCommand::StartStreaming => outputs.streaming_cleared().requested(),
        EngineCommand::StopStreaming => outputs.streaming_ended(),
        EngineCommand::BroadcastOpened(opened) => outputs.connected(opened, now),
        EngineCommand::StreamingSettings(settings) => Outputs {
            state: OutputState { streaming: settings, ..outputs.state },
            ..outputs
        },
        _ => outputs,
    }
}

/// Whether a command may have moved the running sources on: a change of scene,
/// an answer, or a request to open one of its items again.
pub open spec fn moves_sources(engine: Engine, command: EngineCommand) -> bool {
    match command {
        EngineCommand::Scene(_) => true,
        EngineCommand::Opened(_) => true,
        EngineCommand::ReopenSource(id) => sources::shown(engine.scene.items@, id.0),
        _ => false,
    }
}

fn names_filter(filters: &Vec<FilterSlot>, filter: i64) -> (r: bool)
    ensures
        r == exists|i: int| 0 <= i < filters@.len() && (#[trigger] filters@[i]).id == filter,
{
    let mut i: usize = 0;
    while i < filters.len()
        invariant
            i <= filters@.len(),
            forall|j: int| 0 <= j < i ==> (#[trigger] filters@[j]).id != filter,
        decreases filters@.len() - i,
    {
        if filters[i].id == filter {
            return true;
        }
        i = i + 1;
    }
    false
}

impl Step {
    fn nothing() -> (r: Self)
        ensures
            !r.reconciled,
            r.sources@ == Seq::<SourceAction>::empty(),
            r.outputs@ == Seq::<OutputAction>::empty(),
            r.edit is None,
            r.rebuild@ == Seq::<i64>::empty(),
    {
        Step {
            reconciled: false,
            sources: Vec::new(),
            outputs: Vec::new(),
            edit: None,
            rebuild: Vec::new(),
        }
    }
}

impl Engine {
    /// No item is held twice, and no moment shown is in the future.
    pub open spec fn wf(&self, now: u64) -> bool {
        &&& self.open.wf()
        &&& self.outputs.published.timely(now)
    }

    fn is_running(&self, id: SceneItemId) -> (r: bool)
        requires
            self.open.wf(),
        ensures
            r == is_open(self.open@, id),
    {
        match self.open.get(id.0) {
            Some(SourceState::Open(_)) => true,
            _ => false,
        }
    }

    fn runs_filter(&self, id: SceneItemId, filter: i64) -> (r: bool)
        requires
            self.open.wf(),
        ensures
            r == has_filter(self.open@, id, filter),
    {
        match self.open.get(id.0) {
            Some(SourceState::Open(source)) => names_filter(&source.filters, filter),
            _ => false,
        }
    }

    fn plays_file(&self, id: SceneItemId) -> (r: bool)
        requires
            self.open.wf(),
        ensures
            r == has_file(self.open@, id),
    {
        match self.open.get(id.0) {
            Some(SourceState::Open(source)) => source.media_file,
            _ => false,
        }
    }

    /// What dragging an item comes to: its layer follows, where it runs.
    fn drag(&self, id: SceneItemId, at: Placement) -> (r: Vec<SourceAction>)
        requires
            self.open.wf(),
        ensures
            forall|fps: u32|
                r@ == #[trigger] source_actions(*self, EngineCommand::Dragging(id, at), fps),
    {
        let mut actions: Vec<SourceAction> = Vec::new();
        match position(&self.scene.items, id.0) {
            Some(index) => {
                if self.is_running(id) {
                    let layer = layer_for(
                        &self.scene.items[index],
                        at,
                        (self.scene.items.len() - index) as i32,
                    );
                    actions.push(SourceAction::SetLayer(id, layer));
                    proof {
                        assert(actions@ =~= seq![SourceAction::SetLayer(id, layer)]);
                    }
                }
            },
            None => {},
        }
        actions
    }

    /// Applies one change, with the rate the compositor runs at.
    ///
    /// Answers what has to be done, and whether the running sources may have
    /// moved on. After a scene the pass is finished by [`Engine::settle`].
    pub fn apply_command(&mut self, command: EngineCommand, now: u64, fps: u32) -> (r: Step)
        requires
            old(self).wf(now),
            old(self).outputs.state.can_wait(now),
        ensures
            final(self).wf(now),
            final(self).project == old(self).project,
            final(self).looked_for_missing == old(self).looked_for_missing,
            final(self).scene == (match command {
                EngineCommand::Scene(scene) => scene,
                _ => old(self).scene,
            }),
            final(self).open@ == sources_after(*old(self), command, now),
            final(self).outputs == outputs_after(
                *old(self),
                command,
                now,
                final(self).outputs.published.recording_error,
            ),
            command is StartRecording ==> (if old(self).outputs.state.running {
                final(self).outputs.published.recording_error matches Some(reason) && reason@
                    == ALREADY_RECORDING@
            } else {
                final(self).outputs.published.recording_error is None
            }),
            r.reconciled == moves_sources(*old(self), command),
            r.sources@ == source_actions(*old(self), command, fps),
            r.outputs@ == output_actions(*old(self), command, fps),
            r.edit == live_edit(old(self).open@, command),
            r.rebuild@ == (match command {
                EngineCommand::Scene(scene) => sources::rebuilds(
                    old(self).open@,
                    scene.items@,
                    scene.items@.len() as int,
                ),
                _ => Seq::empty(),
            }),
    {
        let mut step = Step::nothing();
        match command {
            EngineCommand::Scene(scene) => {
                self.scene = scene;
                let pass = look(&mut self.open, &self.scene.items, fps);
                step.sources = pass.actions;
                step.rebuild = pass.rebuild;
                step.reconciled = true;
            },
            EngineCommand::Opened(opened) => {
                step.sources = finish_open(&mut self.open, &self.scene, self.project, opened, now);
                step.reconciled = true;
            },
            EngineCommand::ReopenSource(id) => {
                let (in_scene, actions) = reopen(&mut self.open, &self.scene.items, id, now);
                step.sources = actions;
                step.reconciled = in_scene;
            },
            EngineCommand::Drawing(id, strokes) => {
                if self.is_running(id) {
                    step.edit = Some(LiveEdit::Drawing(id, strokes));
                }
            },
            EngineCommand::Colour(id, rgba) => {
                if self.is_running(id) {
                    step.edit = Some(LiveEdit::Colour(id, rgba));
                }
            },
            EngineCommand::Text(id, text) => {
                if self.is_running(id) {
                    step.edit = Some(LiveEdit::Text(id, text));
                }
            },
            EngineCommand::MediaGain(id, gain) => {
                if self.is_running(id) {
                    step.edit = Some(LiveEdit::MediaGain(id, gain));
                }
            },
            EngineCommand::FilterSettings(id, filter, values) => {
                if self.runs_filter(id, filter) {
                    step.edit = Some(LiveEdit::FilterSettings(id, filter, values));
                }
            },
            EngineCommand::MediaSeek(id, target) => {
                if self.plays_file(id) {
                    step.edit = Some(LiveEdit::MediaSeek(id, target));
                }
            },
            EngineCommand::Dragging(id, at) => {
                step.sources = self.drag(id, at);
                proof {
                    assert(step.sources@ == source_actions(
                        *old(self),
                        EngineCommand::Dragging(id, at),
                        fps,
                    ));
                }
            },
            EngineCommand::PreviewVisible(visible) => {
                step.outputs.push(OutputAction::SetPreviewVisible(visible));
                proof {
                    assert(step.outputs@ =~= seq![OutputAction::SetPreviewVisible(visible)]);
                }
            },
            EngineCommand::StartRecording => {
                step.outputs = self.outputs.start_recording();
            },
            EngineCommand::StopRecording => {
                step.outputs = self.outputs.stop_recording();
            },
            EngineCommand::PauseRecording(paused) => {
                step.outputs = self.outputs.pause_recording(paused, now);
            },
            EngineCommand::RecordingSettings(settings) => {
                step.outputs = self.outputs.set_recording_settings(settings, fps);
            },
            EngineCommand::StartStreaming => {
                step.outputs = self.outputs.start_streaming(fps);
            },
            EngineCommand::StopStreaming => {
                step.outputs = self.outputs.stop_streaming();
            },
            EngineCommand::BroadcastOpened(opened) => {
                step.outputs = self.outputs.finish_broadcast(opened, now);
            },
            EngineCommand::StreamingSettings(settings) => {
                self.outputs.state.streaming = settings;
            },
        }
        step
    }

    /// Finishes the pass a new scene began, once the filters have been
    /// refilled. `rebuild` names the sources that have to be opened anew.
    pub fn settle(&mut self, rebuild: &Vec<i64>, now: u64) -> (actions: Vec<SourceAction>)
        requires
            old(self).wf(now),
            forall|id: i64| rebuild@.contains(id) ==> old(self).open@.dom().contains(id),
        ensures
            final(self).wf(now),
            final(self).scene == old(self).scene,
            final(self).outputs == old(self).outputs,
            final(self).project == old(self).project,
            final(self).looked_for_missing == old(self).looked_for_missing,
            final(self).open@ == sources::reconciled(
                old(self).open@,
                old(self).scene,
                rebuild@,
                now,
            ),
            actions@ == sources::settling(
                old(self).open@,
                old(self).open.keys(),
                old(self).scene,
                rebuild@,
                now,
            ),
    {
        settle(&mut self.open, &self.scene, rebuild, now)
    }
}

/// What an idle moment comes to.
pub struct Tick {
    /// Redraw these clocks first.
    pub clocks: Vec<SourceAction>,
    /// Then see to the outputs.
    pub outputs: Vec<OutputAction>,
    /// Whether a look round is due: what the graph is doing is to be read and
    /// shown, and sources that have gone noticed, before anything is retried.
    pub look_round: bool,
}

impl Engine {
    /// What the engine does when nothing has been asked of it for a while: the
    /// clocks are redrawn and the outputs seen to every time, and once an
    /// interval it looks round.
    pub fn idle(&mut self, troubles: &Vec<Trouble>, now: u64, fps: u32) -> (r: Tick)
        requires
            old(self).wf(now),
            old(self).outputs.state.can_wait(now),
        ensures
            final(self).wf(now),
            final(self).open == old(self).open,
            final(self).scene == old(self).scene,
            final(self).project == old(self).project,
            final(self).outputs == old(self).outputs.watched(troubles@, now),
            r.clocks@ == sources::clock_actions(
                old(self).open@,
                old(self).scene.items@,
                old(self).scene.items@.len() as int,
            ),
            r.outputs@ == old(self).outputs.watch_actions(troubles@, now, fps),
            r.look_round == (sources::waited(old(self).looked_for_missing, now) >= MISSING_RETRY),
            r.look_round == (now - old(self).looked_for_missing >= 1_000_000_000),
            final(self).looked_for_missing == (if r.look_round {
                now
            } else {
                old(self).looked_for_missing
            }),
    {
        let clocks = redraw_clocks(&self.open, &self.scene.items);
        let outputs = self.outputs.watch_outputs(troubles, now, fps);
        let look_round: bool = now.saturating_sub(self.looked_for_missing) >= MISSING_RETRY;
        if look_round {
            self.looked_for_missing = now;
        }
        Tick { clocks, outputs, look_round }
    }

    /// Looks again for whatever is missing, at the end of a look round.
    pub fn retry_missing(&mut self, now: u64, fps: u32) -> (actions: Vec<SourceAction>)
        requires
            old(self).wf(now),
        ensures
            final(self).wf(now),
            final(self).scene == old(self).scene,
            final(self).outputs == old(self).outputs,
            final(self).project == old(self).project,
            final(self).looked_for_missing == old(self).looked_for_missing,
            final(self).open@ == sources::retried(
                old(self).open@,
                old(self).scene.items@,
                now,
                old(self).scene.items@.len() as int,
            ),
            actions@ == sources::retry_actions(
                old(self).open@,
                old(self).scene.items@,
                fps,
                now,
                old(self).scene.items@.len() as int,
            ),
    {
        retry_missing(&mut self.open, &self.scene.items, fps, now)
    }
}

} // verus!
