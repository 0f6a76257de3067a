//! What holds of every request, whatever the engine is doing.
use vstd::prelude::*;

use crate::engine::commands::{self, Engine, EngineCommand, LiveEdit};
use crate::engine::outputs::{Broadcast, OutputAction, Outputs, Trouble};
use crate::engine::sources::{self, OpenSource, SourceAction, SourceState};
use crate::scene::{self, Placement, SceneItemId};

verus! {

/// What there is of the recording, in the engine and on the screen.
pub open spec fn same_recording(a: Outputs, b: Outputs) -> bool {
    &&& a.state.running == b.state.running
    &&& a.published.recording_since == b.published.recording_since
    &&& a.published.recording_paused_at == b.published.recording_paused_at
    &&& a.published.recording_error == b.published.recording_error
}

/// What there is of the broadcast, in the engine and on the screen.
pub open spec fn same_broadcast(a: Outputs, b: Outputs) -> bool {
    &&& a.state.broadcast == b.state.broadcast
    &&& a.published.streaming_since == b.published.streaming_since
    &&& a.published.streaming_error == b.published.streaming_error
    &&& a.published.streaming_reconnecting == b.published.streaming_reconnecting
}

/// Whether a request is about the recording.
pub open spec fn of_the_recording(command: EngineCommand) -> bool {
    command is StartRecording || command is StopRecording || command is PauseRecording
}

/// Whether a request is about the broadcast.
pub open spec fn of_the_broadcast(command: EngineCommand) -> bool {
    command is StartStreaming || command is StopStreaming || command is BroadcastOpened
}

/// Recording and streaming are independent: nothing asked of the one changes
/// the other, whichever of them is running.
pub proof fn law_recording_and_streaming_are_independent(
    engine: Engine,
    command: EngineCommand,
    now: u64,
    reason: Option<String>,
)
    ensures
        of_the_recording(command) ==> same_broadcast(
            commands::outputs_after(engine, command, now, reason),
            engine.outputs,
        ),
        of_the_broadcast(command) ==> same_recording(
            commands::outputs_after(engine, command, now, reason),
            engine.outputs,
        ),
{
}

/// Settings are for the next output: handing them over disturbs neither what
/// is running nor what is shown of it.
pub proof fn law_settings_disturb_nothing_that_runs(
    engine: Engine,
    command: EngineCommand,
    now: u64,
    reason: Option<String>,
)
    requires
        command is RecordingSettings || command is StreamingSettings,
    ensures
        same_recording(commands::outputs_after(engine, command, now, reason), engine.outputs),
        same_broadcast(commands::outputs_after(engine, command, now, reason), engine.outputs),
{
}

/// Whether a request is an edit to something that runs, as a slider or a
/// pointer makes while it is held.
pub open spec fn is_live_edit(command: EngineCommand) -> bool {
    command is Drawing || command is Colour || command is Text || command is MediaGain
        || command is FilterSettings || command is MediaSeek
}

/// No slider reopens anything: an edit to a running source opens, stops and
/// pauses none, and touches no output.
pub proof fn law_a_live_edit_reopens_nothing(
    engine: Engine,
    command: EngineCommand,
    now: u64,
    fps: u32,
    reason: Option<String>,
)
    requires
        is_live_edit(command),
    ensures
        commands::sources_after(engine, command, now) == engine.open@,
        commands::source_actions(engine, command, fps) == Seq::<SourceAction>::empty(),
        commands::outputs_after(engine, command, now, reason) == engine.outputs,
        commands::output_actions(engine, command, fps) == Seq::<OutputAction>::empty(),
        !commands::moves_sources(engine, command),
{
}

/// The item an edit reaches.
pub open spec fn reached(edit: LiveEdit) -> SceneItemId {
    match edit {
        LiveEdit::Drawing(id, _) => id,
        LiveEdit::Colour(id, _) => id,
        LiveEdit::Text(id, _) => id,
        LiveEdit::MediaGain(id, _) => id,
        LiveEdit::FilterSettings(id, _, _) => id,
        LiveEdit::MediaSeek(id, _) => id,
    }
}

/// An edit reaches nothing that is not running: the item it is for is held as
/// open, a filter's settings reach a filter that is on it, and only a file is
/// moved about in.
pub proof fn law_an_edit_needs_something_running(engine: Engine, command: EngineCommand)
    requires
        commands::live_edit(engine.open@, command) is Some,
    ensures
        is_live_edit(command),
        ({
            let edit = commands::live_edit(engine.open@, command)->0;
            let id = reached(edit).0;
            &&& engine.open@.dom().contains(id)
            &&& engine.open@[id] is Open
            &&& edit matches LiveEdit::FilterSettings(_, filter, _) ==> exists|i: int|
                0 <= i < engine.open@[id]->Open_0.filters@.len() && (
                #[trigger] engine.open@[id]->Open_0.filters@[i]).id == filter
            &&& edit is MediaSeek ==> engine.open@[id]->Open_0.media_file
        }),
{
}

/// A broadcast that drops is opened again on its own: it waits as long as the
/// settings say, is left alone until then, and is asked for once the wait is
/// up.
pub proof fn law_a_dropped_broadcast_is_tried_again(
    outputs: Outputs,
    reason: String,
    interval: u64,
    at: u64,
    later: u64,
    fps: u32,
)
    requires
        outputs.state.broadcast is Live,
        outputs.state.streaming.reconnect == Some(interval),
        at + interval <= u64::MAX,
    ensures
        ({
            let dropped = outputs.troubled(Trouble::Broadcast(reason), at);
            let watched = dropped.watched(Seq::empty(), later);
            let asked = dropped.watch_actions(Seq::empty(), later, fps);
            &&& dropped.state.broadcast == (Broadcast::Waiting { retry_at: (at + interval) as u64 })
            &&& dropped.published.streaming_error == Some(reason)
            &&& later < at + interval ==> watched == dropped && asked == Seq::<
                OutputAction,
            >::empty()
            &&& later >= at + interval ==> watched.state.broadcast is Connecting && asked == seq![
                OutputAction::Connect(fps),
            ]
        }),
{
    let dropped = outputs.troubled(Trouble::Broadcast(reason), at);
    assert(dropped.all_troubled(Seq::empty(), later, 0) == dropped);
    assert(dropped.all_trouble_actions(Seq::empty(), later, 0) == Seq::<OutputAction>::empty());
    let asked = dropped.watch_actions(Seq::empty(), later, fps);
    if later >= at + interval {
        assert(asked =~= seq![OutputAction::Connect(fps)]);
    } else {
        assert(asked =~= Seq::<OutputAction>::empty());
    }
}

/// An edit of something that runs reaches it, with what was edited: a filter's
/// settings where it has that filter, and a position where it plays a file.
pub proof fn law_an_edit_reaches_what_runs(
    engine: Engine,
    id: SceneItemId,
    source: OpenSource,
    command: EngineCommand,
    i: int,
)
    requires
        engine.open@.dom().contains(id.0),
        engine.open@[id.0] == SourceState::Open(source),
    ensures
        ({
            let edit = commands::live_edit(engine.open@, command);
            &&& command matches EngineCommand::Drawing(at, strokes) ==> (at == id ==> edit == Some(
                LiveEdit::Drawing(id, strokes),
            ))
            &&& command matches EngineCommand::Colour(at, rgba) ==> (at == id ==> edit == Some(
                LiveEdit::Colour(id, rgba),
            ))
            &&& command matches EngineCommand::Text(at, text) ==> (at == id ==> edit == Some(
                LiveEdit::Text(id, text),
            ))
            &&& command matches EngineCommand::MediaGain(at, gain) ==> (at == id ==> edit == Some(
                LiveEdit::MediaGain(id, gain),
            ))
            &&& command matches EngineCommand::MediaSeek(at, target) ==> (at == id
                && source.media_file ==> edit == Some(LiveEdit::MediaSeek(id, target)))
            &&& command matches EngineCommand::FilterSettings(at, filter, values) ==> (at == id && 0
                <= i < source.filters@.len() && source.filters@[i].id == filter ==> edit == Some(
                LiveEdit::FilterSettings(id, filter, values),
            ))
        }),
{
    if let EngineCommand::FilterSettings(at, filter, _) = command {
        if at == id && 0 <= i < source.filters@.len() && source.filters@[i].id == filter {
            assert(sources::held(engine.open@, id.0) == Some(SourceState::Open(source)));
            let held = sources::held(engine.open@, id.0);
            assert(held->0->Open_0 == source);
            assert(held->0->Open_0.filters@[i].id == filter);
            assert(commands::has_filter(engine.open@, id, filter));
        }
    }
}

/// A drag moves the item's layer to where it is dragged, at its own place in
/// the order, while its source runs, and changes nothing else.
pub proof fn law_a_drag_moves_one_layer(
    engine: Engine,
    id: SceneItemId,
    at: Placement,
    now: u64,
    fps: u32,
    reason: Option<String>,
    i: int,
)
    requires
        0 <= i < engine.scene.items@.len() <= 0x7fff_ffff,
        sources::find(engine.scene.items@, id.0) == Some(i),
    ensures
        ({
            let command = EngineCommand::Dragging(id, at);
            let asked = commands::source_actions(engine, command, fps);
            let running = engine.open@.dom().contains(id.0) && engine.open@[id.0] is Open;
            &&& running ==> asked == seq![
                SourceAction::SetLayer(
                    id,
                    scene::placed(
                        engine.scene.items@[i],
                        at,
                        (engine.scene.items@.len() - i) as i32,
                    ),
                ),
            ]
            &&& !running ==> asked.len() == 0
            &&& commands::sources_after(engine, command, now) == engine.open@
            &&& commands::outputs_after(engine, command, now, reason) == engine.outputs
            &&& commands::output_actions(engine, command, fps).len() == 0
            &&& !commands::moves_sources(engine, command)
        }),
{
}

/// A source that is asked for again is let go of and missing from then on,
/// where the scene holds its item; where it does not, nothing happens. No other
/// source is touched.
pub proof fn law_a_source_is_asked_for_again(
    engine: Engine,
    id: SceneItemId,
    other: i64,
    now: u64,
    fps: u32,
    i: int,
)
    requires
        other != id.0,
    ensures
        ({
            let command = EngineCommand::ReopenSource(id);
            let after = commands::sources_after(engine, command, now);
            let asked = commands::source_actions(engine, command, fps);
            let held = engine.scene.items@;
            let running = engine.open@.dom().contains(id.0) && engine.open@[id.0] is Open;
            &&& sources::find(held, id.0) == Some(i) ==> {
                &&& after.dom().contains(id.0)
                &&& after[id.0] == SourceState::Missing(sources::overdue(held[i], now))
                &&& running ==> asked == seq![SourceAction::Stop(id)]
                &&& !running ==> asked.len() == 0
                &&& commands::moves_sources(engine, command)
            }
            &&& sources::find(held, id.0) is None ==> after == engine.open@ && asked.len() == 0
                && !commands::moves_sources(engine, command)
            &&& after.dom().contains(other) == engine.open@.dom().contains(other)
            &&& engine.open@.dom().contains(other) ==> after[other] == engine.open@[other]
        }),
{
}

/// What each request asks of the outputs.
pub proof fn law_what_is_asked_of_the_outputs(engine: Engine, command: EngineCommand, fps: u32)
    ensures
        ({
            let asked = commands::output_actions(engine, command, fps);
            let recording = engine.outputs.state.running;
            let broadcast = engine.outputs.state.broadcast;
            &&& command matches EngineCommand::PreviewVisible(visible) ==> asked == seq![
                OutputAction::SetPreviewVisible(visible),
            ]
            &&& command is StartRecording && recording ==> asked.len() == 0
            &&& command is StartRecording && !recording ==> asked == seq![
                OutputAction::StartRecording,
            ]
            &&& command is StopRecording && recording ==> asked == seq![
                OutputAction::StopRecording,
            ]
            &&& command is StopRecording && !recording ==> asked.len() == 0
            &&& command matches EngineCommand::PauseRecording(paused) ==> (recording ==> asked
                == seq![OutputAction::SetRecordingPaused(paused)]) && (!recording ==> asked.len()
                == 0)
            &&& command matches EngineCommand::RecordingSettings(settings) ==> {
                &&& asked.last() is ProbeAudioCodecs
                &&& recording || settings.fps == fps ==> asked.len() == 1
                &&& !recording && settings.fps != fps ==> asked.len() == 2 && asked[0]
                    == OutputAction::SetFrameRate(settings.fps)
            }
            &&& command is StartStreaming && (broadcast is Connecting || broadcast is Live)
                ==> asked.len() == 0
            &&& command is StartStreaming && (broadcast is Off || broadcast is Waiting) ==> asked
                == seq![OutputAction::Connect(fps)]
            &&& command is StopStreaming && broadcast is Live ==> asked == seq![
                OutputAction::StopBroadcast,
            ]
            &&& command is StopStreaming && !(broadcast is Live) ==> asked.len() == 0
            &&& command matches EngineCommand::BroadcastOpened(Ok(_)) ==> (broadcast is Off
                ==> asked == seq![OutputAction::DiscardBroadcast]) && (!(broadcast is Off)
                ==> asked.len() == 0)
            &&& command matches EngineCommand::BroadcastOpened(Err(_)) ==> asked.len() == 0
            &&& command is StreamingSettings || command is Scene || command is Opened
                ==> asked.len() == 0
        }),
{
}

/// Settings are kept as they were handed over, each for its own output.
pub proof fn law_settings_are_kept(
    engine: Engine,
    command: EngineCommand,
    now: u64,
    reason: Option<String>,
)
    ensures
        ({
            let after = commands::outputs_after(engine, command, now, reason).state;
            let before = engine.outputs.state;
            &&& command matches EngineCommand::RecordingSettings(settings) ==> after.settings
                == settings && after.streaming == before.streaming
            &&& command matches EngineCommand::StreamingSettings(settings) ==> after.streaming
                == settings && after.settings == before.settings
            &&& !(command is RecordingSettings) && !(command is StreamingSettings)
                ==> after.settings == before.settings && after.streaming == before.streaming
        }),
{
}

/// Only a scene, an arrival and a request to open again move the sources.
pub proof fn law_only_these_move_the_sources(
    engine: Engine,
    command: EngineCommand,
    now: u64,
    fps: u32,
)
    ensures
        command is Scene || command is Opened ==> commands::moves_sources(engine, command),
        !(command is Scene || command is Opened || command is ReopenSource) ==> {
            &&& !commands::moves_sources(engine, command)
            &&& commands::sources_after(engine, command, now) == engine.open@
        },
        command matches EngineCommand::Opened(opened) ==> {
            let id = opened.item.id.0;
            let after = commands::sources_after(engine, command, now);
            &&& !(engine.open@.dom().contains(id) && engine.open@[id] is Opening) ==> after
                == engine.open@
            &&& engine.open@.dom().contains(id) && engine.open@[id] is Opening ==> after[id]
                == sources::answered(opened.item, opened.result, now) && after.remove(id)
                == engine.open@.remove(id)
        },
{
    if let EngineCommand::Opened(opened) = command {
        let id = opened.item.id.0;
        let after = commands::sources_after(engine, command, now);
        assert(after.remove(id) =~= engine.open@.remove(id));
    }
}

} // verus!
