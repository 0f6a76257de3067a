//! The engine: what it opens, what it is asked, and what it shows.
use obs_rs::engine::commands::{Engine, EngineCommand, LiveEdit};
use obs_rs::engine::manager::{CompositeFrame, EngineManager, MediaMeters};
use obs_rs::engine::outputs::{Broadcast, OutputAction, Trouble, ALREADY_RECORDING};
use obs_rs::engine::run::{
    input_name, next_turn, publish_frame, start_rates, FrameRate, MeasuredRate, NextTurn, Turn,
    RATE_WINDOW,
};
use obs_rs::engine::sources::{
    needs_asking, retry_after, Arrival, OpenResult, OpenSource, Opened, SourceAction, SourceState,
    MISSING_RETRY,
};
use obs_rs::engine::status::{SourceStatus, StatusBoard};
use obs_rs::scene::{
    layer_for, source_rect, ColorSourceSettings, Crop, FilterSlot, Placement, RtspSourceSettings,
    Scene, SceneItem, SceneItemId, Size, SourceKind, SourceSettings, VideoRect, VideoSourceRect,
    VisibilityFades, WindowCaptureSettings, WindowCaptureTarget,
};
use obs_rs::settings::{
    OutputSettings, RecordingAudioCodec, RecordingEncoder, RecordingFormat, RecordingSettings,
    RecordingSplit, StreamingSettings,
};
use obs_rs::table::Table;

const SECOND: u64 = 1_000_000_000;
const PIXEL: i64 = 256;

fn window_item(id: i64, target: WindowCaptureTarget) -> SceneItem {
    SceneItem {
        id: SceneItemId(id),
        name: "Window Capture".to_owned(),
        kind: SourceKind::WindowCapture,
        settings: SourceSettings::WindowCapture(WindowCaptureSettings { target, size_hint: None }),
        source_width: 1280 * PIXEL,
        source_height: 720 * PIXEL,
        placement: Placement {
            x: 0,
            y: 0,
            width: 1280 * PIXEL,
            height: 720 * PIXEL,
            crop: Crop::default(),
        },
        visible: true,
        fades: VisibilityFades { show_ms: 0, hide_ms: 0 },
        paused: false,
        follows_clock: false,
        filters: vec![],
    }
}

fn named_window() -> WindowCaptureTarget {
    WindowCaptureTarget::Window { process: "firefox".to_owned(), title: "obs-rs".to_owned() }
}

fn portal_window() -> WindowCaptureTarget {
    WindowCaptureTarget::Portal { restore_token: None }
}

#[test]
fn only_a_window_the_portal_owns_has_to_be_asked_for() {
    assert!(
        !needs_asking(&window_item(1, named_window())),
        "a named window is found by looking, which costs no one anything"
    );
    assert!(
        needs_asking(&window_item(
            2,
            WindowCaptureTarget::Portal { restore_token: Some("token".to_owned()) }
        )),
        "a portal window can only be reopened through its picker"
    );

    let mut colour = window_item(3, portal_window());
    colour.kind = SourceKind::Color;
    colour.settings = SourceSettings::Color(ColorSourceSettings {
        size: Size { width: 1920, height: 1080 },
        rgba: [0, 0, 0, 255],
    });
    assert!(
        !needs_asking(&colour),
        "nothing but a Window Capture has a picker behind it"
    );
}

fn stream_item(id: i64, reconnect: Option<u64>) -> SceneItem {
    let mut item = window_item(id, portal_window());
    item.kind = SourceKind::Rtsp;
    item.settings = SourceSettings::Rtsp(RtspSourceSettings {
        url: "rtsp://10.0.0.7/main".to_owned(),
        reconnect,
        size_hint: None,
        has_audio: false,
        muted: false,
    });
    item
}

#[test]
fn a_stream_waits_the_interval_it_was_given() {
    let every_minute = stream_item(1, Some(60 * SECOND));
    assert_eq!(retry_after(&every_minute), 60 * SECOND);
    assert!(
        !needs_asking(&every_minute),
        "a stream with an interval reconnects by itself"
    );

    let never = stream_item(2, None);
    assert!(
        needs_asking(&never),
        "a stream told not to reconnect waits to be asked, like a portal window"
    );

    // Everything else is on the tick, which is what a window's search has
    // always run at.
    let window = window_item(3, named_window());
    assert_eq!(retry_after(&window), MISSING_RETRY);
}

fn units(pixels: f32) -> i64 {
    (pixels * PIXEL as f32).round() as i64
}

fn crop(left: f32, top: f32, right: f32, bottom: f32) -> Crop {
    Crop { left: units(left), top: units(top), right: units(right), bottom: units(bottom) }
}

#[test]
fn a_crop_becomes_the_region_the_layer_draws() {
    let mut item = window_item(1, portal_window());
    item.source_width = 1920 * PIXEL;
    item.source_height = 1080 * PIXEL;

    assert_eq!(
        source_rect(&item, Crop::default()),
        None,
        "an uncropped layer draws the whole frame, as it always did"
    );

    let region = source_rect(&item, crop(100.5, 50.0, 200.0, 0.0))
        .expect("a crop that leaves something");
    assert_eq!((region.x, region.y), (101, 50));
    assert_eq!((region.width, region.height), (1619, 1030));

    assert_eq!(
        source_rect(&item, crop(1920.0, 0.0, 0.0, 0.0)),
        None,
        "a crop that leaves nothing is a layer with nothing to draw"
    );
}

/// Half a pixel at either end costs a pixel at either end.
#[test]
fn a_crop_puts_back_no_sliver() {
    let mut item = window_item(1, portal_window());
    item.source_width = 1920 * PIXEL;
    item.source_height = 1080 * PIXEL;
    let region = source_rect(&item, crop(0.5, 0.25, 0.5, 0.5)).expect("most of it");
    assert_eq!((region.x, region.width), (1, 1918));
    assert_eq!((region.y, region.height), (1, 1078));
    assert_eq!(source_rect(&item, crop(959.75, 0.0, 959.75, 0.0)), None, "no whole pixel");
}

#[test]
fn the_status_map_names_the_dark_sources_and_holds_still() {
    let mut board = StatusBoard::new();
    let mut open: Table<SourceState> = Table::new();

    board.publish_source_status(&open);
    assert!(
        board.source_status().is_none(),
        "nothing has gone wrong yet, so there is nothing to say"
    );

    open.insert(1, SourceState::Disconnected);
    open.insert(2, SourceState::Missing(0));
    // A file that played out is dark for a different reason, and says so.
    open.insert(3, SourceState::Ended);
    // Still being opened, which is not a state to report.
    open.insert(4, SourceState::Opening);
    assert!(board.publish_source_status(&open));
    let first = board.source_status().expect("a dark Source must be published");
    assert_eq!(first.len(), 3, "an opening Source must not be listed among the dark ones");
    assert_eq!(first.get(1), Some(&SourceStatus::Disconnected));
    assert_eq!(first.get(2), Some(&SourceStatus::Disconnected));
    assert_eq!(first.get(3), Some(&SourceStatus::Ended));

    let replaced = board.publish_source_status(&open);
    assert!(board.source_status().is_some(), "still published");
    assert!(!replaced, "an unchanged map must not be replaced");

    open.remove(1);
    open.remove(2);
    open.remove(3);
    board.publish_source_status(&open);
    assert_eq!(
        board.source_status().expect("the recovery has to be published too").len(),
        0,
        "a Source that came back must stop being listed"
    );
}

#[test]
fn a_layer_stands_where_its_item_does() {
    let item = window_item(1, named_window());
    let at = Placement {
        x: units(10.4),
        y: units(-3.6),
        width: units(100.5),
        height: 0,
        crop: crop(1.0, 0.0, 0.0, 0.0),
    };
    let layer = layer_for(&item, at, 7);
    assert_eq!(layer.rect, VideoRect { x: 10, y: -4, width: 101, height: 1 });
    assert_eq!(layer.z_index, 7);
    assert!(layer.visible);
    assert_eq!(
        layer.source,
        Some(VideoSourceRect { x: 1, y: 0, width: 1279, height: 720 })
    );
}

fn output_settings() -> OutputSettings {
    OutputSettings {
        recording: RecordingSettings {
            fps: 60,
            encoder: RecordingEncoder::Nvenc,
            audio_codec: RecordingAudioCodec::Aac,
            format: RecordingFormat::Mp4,
            split: RecordingSplit::Off,
            split_minutes: 10,
            split_bytes: 1_000,
            bit_rate_bits: 6_000_000,
            keyframe_seconds: 2,
            audio_bit_rate_kbps: 160,
        },
        streaming: StreamingSettings {
            server: "rtmp://live.example/app".to_owned(),
            addressable: true,
            encoder: RecordingEncoder::Nvenc,
            audio_codec: RecordingAudioCodec::Aac,
            reconnect: Some(5 * SECOND),
            bit_rate_bits: 6_000_000,
            keyframe_seconds: 2,
            audio_bit_rate_kbps: 160,
        },
    }
}

fn engine() -> Engine {
    Engine::new(output_settings(), true, SECOND)
}

fn scene(items: Vec<SceneItem>) -> Scene {
    let live_items = items.iter().map(|item| item.id.0).collect();
    Scene { items, live_items }
}

fn opened(item: SceneItem) -> EngineCommand {
    EngineCommand::Opened(Opened {
        item,
        result: OpenResult::Running(Arrival {
            source: OpenSource {
                running: true,
                showing: true,
                has_rack: false,
                media_file: false,
                filters: vec![],
            },
            negotiated_size: None,
            refreshed_token: None,
        }),
    })
}

/// A scene's item is asked for once, and drawn once it has arrived.
#[test]
fn a_source_is_asked_for_once_while_it_opens() {
    let mut engine = engine();
    let item = window_item(1, named_window());
    let step = engine.apply_command(EngineCommand::Scene(scene(vec![item.clone()])), SECOND, 60);
    assert!(step.reconciled);
    assert!(matches!(step.sources[..], [SourceAction::Open(SceneItemId(1), _, 60)]));
    engine.settle(&step.rebuild, SECOND);
    let again = engine.apply_command(EngineCommand::Scene(scene(vec![item.clone()])), SECOND, 60);
    assert!(again.sources.is_empty(), "it is being opened already");
    engine.settle(&again.rebuild, SECOND);
    engine.apply_command(opened(item), SECOND, 60);
    assert!(matches!(engine.open.get(1), Some(SourceState::Open(_))));
}

/// An item that left the project takes its source with it.
#[test]
fn a_source_whose_item_is_gone_is_stopped() {
    let mut engine = engine();
    let item = window_item(1, named_window());
    let step = engine.apply_command(EngineCommand::Scene(scene(vec![item.clone()])), SECOND, 60);
    engine.settle(&step.rebuild, SECOND);
    engine.apply_command(opened(item), SECOND, 60);
    assert!(matches!(engine.leave()[..], [SourceAction::Stop(SceneItemId(1))]));
    let step = engine.apply_command(EngineCommand::Scene(scene(vec![])), SECOND, 60);
    let actions = engine.settle(&step.rebuild, SECOND);
    assert!(actions.iter().any(|action| matches!(action, SourceAction::Stop(SceneItemId(1)))));
    assert!(!engine.open.contains(1));
    assert!(engine.leave().is_empty());
}

/// Filters that cannot be replaced while a source runs take it down, and the
/// next pass opens it with them.
#[test]
fn a_source_without_a_rack_is_opened_anew_for_its_filters() {
    let mut engine = engine();
    let mut item = window_item(1, named_window());
    let step = engine.apply_command(EngineCommand::Scene(scene(vec![item.clone()])), SECOND, 60);
    engine.settle(&step.rebuild, SECOND);
    engine.apply_command(opened(item.clone()), SECOND, 60);
    item.filters = vec![FilterSlot { id: 4, kind: 1 }];
    let step = engine.apply_command(EngineCommand::Scene(scene(vec![item.clone()])), SECOND, 60);
    assert_eq!(step.rebuild, [1]);
    let actions = engine.settle(&step.rebuild, SECOND);
    assert!(matches!(actions[..], [SourceAction::LetGo(SceneItemId(1))]));
    let step = engine.apply_command(EngineCommand::Scene(scene(vec![item])), SECOND, 60);
    assert!(matches!(step.sources[..], [SourceAction::Open(SceneItemId(1), _, 60)]));
}

/// A window that is missing is looked for again once its wait is up, and one
/// the portal owns is not.
#[test]
fn only_what_can_be_looked_for_is_looked_for_again() {
    let mut engine = engine();
    let items = vec![window_item(1, named_window()), window_item(2, portal_window())];
    let step = engine.apply_command(EngineCommand::Scene(scene(items.clone())), SECOND, 60);
    engine.settle(&step.rebuild, SECOND);
    let answers = [OpenResult::Nothing, OpenResult::Refused];
    for (item, result) in items.into_iter().zip(answers) {
        engine.apply_command(EngineCommand::Opened(Opened { item, result }), SECOND, 60);
    }
    let early = engine.retry_missing(SECOND + MISSING_RETRY - 1, 60);
    assert!(early.is_empty());
    let due = engine.retry_missing(SECOND + MISSING_RETRY, 60);
    assert!(matches!(due[..], [SourceAction::Open(SceneItemId(1), _, 60)]));
    assert!(matches!(engine.open.get(2), Some(SourceState::Disconnected)));
    // Someone asked, so the picker may come up.
    let step = engine.apply_command(
        EngineCommand::ReopenSource(SceneItemId(2)),
        3 * SECOND,
        60,
    );
    assert!(step.reconciled);
    let asked = engine.retry_missing(3 * SECOND, 60);
    assert!(matches!(asked[..], [SourceAction::Open(SceneItemId(2), _, 60)]));
}

/// An edit reaches a source that runs, and nothing where none does.
#[test]
fn a_live_edit_reaches_only_what_is_open() {
    let mut engine = engine();
    let edit = || EngineCommand::Colour(SceneItemId(1), [1, 2, 3, 4]);
    assert!(engine.apply_command(edit(), SECOND, 60).edit.is_none());
    let item = window_item(1, named_window());
    let step = engine.apply_command(EngineCommand::Scene(scene(vec![item.clone()])), SECOND, 60);
    engine.settle(&step.rebuild, SECOND);
    engine.apply_command(opened(item), SECOND, 60);
    let step = engine.apply_command(edit(), SECOND, 60);
    assert!(matches!(step.edit, Some(LiveEdit::Colour(SceneItemId(1), [1, 2, 3, 4]))));
    assert!(!step.reconciled);
    // It plays no file, so there is nothing to move about in.
    let seek = EngineCommand::MediaSeek(SceneItemId(1), 5);
    assert!(engine.apply_command(seek, SECOND, 60).edit.is_none());
}

#[test]
fn a_second_recording_is_refused() {
    let mut engine = engine();
    let step = engine.apply_command(EngineCommand::StartRecording, SECOND, 60);
    assert_eq!(step.outputs, [OutputAction::StartRecording]);
    engine.outputs.recording_started(Ok(()), SECOND);
    assert_eq!(engine.outputs.published.recording(3 * SECOND), Some(2 * SECOND));
    let step = engine.apply_command(EngineCommand::StartRecording, 2 * SECOND, 60);
    assert!(step.outputs.is_empty());
    assert_eq!(
        engine.outputs.published.recording_error.as_deref(),
        Some(ALREADY_RECORDING)
    );
}

/// Asking again while a recording is paused is refused and changes nothing
/// else: it stays paused, and its length goes on from where it was.
#[test]
fn a_refused_start_leaves_a_pause_alone() {
    let mut engine = engine();
    engine.apply_command(EngineCommand::StartRecording, 10 * SECOND, 60);
    engine.outputs.recording_started(Ok(()), 10 * SECOND);
    engine.apply_command(EngineCommand::PauseRecording(true), 14 * SECOND, 60);
    let step = engine.apply_command(EngineCommand::StartRecording, 16 * SECOND, 60);
    assert!(step.outputs.is_empty());
    let published = &engine.outputs.published;
    assert_eq!(published.recording_error.as_deref(), Some(ALREADY_RECORDING));
    assert_eq!(published.recording_since, Some(10 * SECOND));
    assert_eq!(published.recording_paused_at, Some(14 * SECOND));
    assert_eq!(published.recording(20 * SECOND), Some(4 * SECOND));
    engine.apply_command(EngineCommand::PauseRecording(false), 20 * SECOND, 60);
    assert_eq!(engine.outputs.published.recording(21 * SECOND), Some(5 * SECOND));
}

#[test]
fn a_recording_that_does_not_start_says_why() {
    let mut engine = engine();
    engine.apply_command(EngineCommand::StartRecording, SECOND, 60);
    engine.outputs.recording_started(Err("no encoder".to_owned()), SECOND);
    assert_eq!(engine.outputs.published.recording(2 * SECOND), None);
    assert_eq!(engine.outputs.published.recording_error.as_deref(), Some("no encoder"));
}

/// What is paused is not in the file, nor in how long it is said to be.
#[test]
fn a_pause_is_left_out_of_the_length() {
    let mut engine = engine();
    engine.apply_command(EngineCommand::StartRecording, 10 * SECOND, 60);
    engine.outputs.recording_started(Ok(()), 10 * SECOND);
    engine.apply_command(EngineCommand::PauseRecording(true), 14 * SECOND, 60);
    assert_eq!(engine.outputs.published.recording(20 * SECOND), Some(4 * SECOND));
    engine.apply_command(EngineCommand::PauseRecording(false), 20 * SECOND, 60);
    assert_eq!(engine.outputs.published.recording(21 * SECOND), Some(5 * SECOND));
    let step = engine.apply_command(EngineCommand::StopRecording, 22 * SECOND, 60);
    assert_eq!(step.outputs, [OutputAction::StopRecording]);
    assert_eq!(engine.outputs.published.recording(23 * SECOND), None);
}

/// Two reports of one drop are one drop, and the wait is the settings' own.
#[test]
fn a_dropped_broadcast_is_tried_again_after_its_interval() {
    let mut engine = engine();
    let step = engine.apply_command(EngineCommand::StartStreaming, SECOND, 60);
    assert_eq!(step.outputs, [OutputAction::Connect(60)]);
    let again = engine.apply_command(EngineCommand::StartStreaming, SECOND, 60);
    assert!(again.outputs.is_empty(), "it is connecting already");
    engine.apply_command(EngineCommand::BroadcastOpened(Ok(())), SECOND, 60);
    assert_eq!(engine.outputs.published.streaming(4 * SECOND), Some(3 * SECOND));

    let troubles = vec![
        Trouble::Broadcast("gone".to_owned()),
        Trouble::Broadcast("gone".to_owned()),
    ];
    let tick = engine.idle(&troubles, 10 * SECOND, 60);
    assert_eq!(tick.outputs, [OutputAction::StopBroadcast]);
    assert_eq!(
        engine.outputs.state.broadcast,
        Broadcast::Waiting { retry_at: 15 * SECOND }
    );
    assert!(engine.outputs.published.streaming_reconnecting);
    assert_eq!(engine.outputs.published.streaming_error.as_deref(), Some("gone"));
    assert!(engine.idle(&vec![], 15 * SECOND - 1, 60).outputs.is_empty());
    assert_eq!(engine.idle(&vec![], 15 * SECOND, 60).outputs, [OutputAction::Connect(60)]);
}

#[test]
fn a_broadcast_that_connects_after_stop_is_ended() {
    let mut engine = engine();
    engine.apply_command(EngineCommand::StartStreaming, SECOND, 60);
    engine.apply_command(EngineCommand::StopStreaming, SECOND, 60);
    let step = engine.apply_command(EngineCommand::BroadcastOpened(Ok(())), SECOND, 60);
    assert_eq!(step.outputs, [OutputAction::DiscardBroadcast]);
    assert_eq!(engine.outputs.published.streaming(SECOND), None);
}

#[test]
fn a_failed_recording_is_ended_and_told() {
    let mut engine = engine();
    engine.apply_command(EngineCommand::StartRecording, SECOND, 60);
    engine.outputs.recording_started(Ok(()), SECOND);
    let tick = engine.idle(&vec![Trouble::Recording("disk full".to_owned())], 2 * SECOND, 60);
    assert_eq!(tick.outputs, [OutputAction::StopRecording]);
    assert_eq!(engine.outputs.published.recording_error.as_deref(), Some("disk full"));
    assert_eq!(engine.outputs.published.recording(3 * SECOND), None);
}

/// The rate follows the settings, but not under a file that is being written.
#[test]
fn a_running_recording_keeps_its_rate() {
    let mut engine = engine();
    let slower = || {
        EngineCommand::RecordingSettings(RecordingSettings {
            fps: 30,
            ..output_settings().recording
        })
    };
    let step = engine.apply_command(slower(), SECOND, 60);
    assert_eq!(
        step.outputs,
        [OutputAction::SetFrameRate(30), OutputAction::ProbeAudioCodecs]
    );
    engine.apply_command(EngineCommand::StartRecording, SECOND, 60);
    engine.outputs.recording_started(Ok(()), SECOND);
    let step = engine.apply_command(slower(), SECOND, 60);
    assert_eq!(step.outputs, [OutputAction::ProbeAudioCodecs]);
}

#[test]
fn looking_round_is_done_once_an_interval() {
    let mut engine = engine();
    assert!(!engine.idle(&vec![], SECOND + MISSING_RETRY - 1, 60).look_round);
    assert!(engine.idle(&vec![], SECOND + MISSING_RETRY, 60).look_round);
    assert!(!engine.idle(&vec![], SECOND + MISSING_RETRY + 1, 60).look_round);
}

/// What the application asks for reaches the engine in the order it was asked.
#[test]
fn what_is_asked_for_is_taken_in_order() {
    let (mut manager, _) = EngineManager::spawn(output_settings(), false, SECOND);
    manager.start_recording();
    manager.set_recording_paused(true);
    manager.stop_recording();
    manager.start_streaming();
    manager.stop_streaming();
    manager.reopen_source(SceneItemId(9));
    manager.set_preview_visible(false);
    manager.seek_media_file(SceneItemId(9), 5);
    manager.apply(scene(vec![]));
    let commands = manager.take();
    assert!(matches!(
        commands[..],
        [
            EngineCommand::StartRecording,
            EngineCommand::PauseRecording(true),
            EngineCommand::StopRecording,
            EngineCommand::StartStreaming,
            EngineCommand::StopStreaming,
            EngineCommand::ReopenSource(SceneItemId(9)),
            EngineCommand::PreviewVisible(false),
            EngineCommand::MediaSeek(SceneItemId(9), 5),
            EngineCommand::Scene(_),
        ]
    ));
    assert!(manager.take().is_empty());
}

#[test]
fn nothing_is_shown_before_the_engine_has_shown_it() {
    let (manager, engine) = EngineManager::spawn(output_settings(), false, SECOND);
    assert_eq!(manager.frame(), None);
    assert_eq!(manager.active_fps(), None);
    assert_eq!(manager.recording(SECOND), None);
    assert_eq!(manager.streaming(SECOND), None);
    assert!(!manager.recording_paused());
    assert!(!manager.streaming_reconnecting());
    assert!(manager.recording_error().is_none());
    assert!(manager.streaming_error().is_none());
    assert!(manager.stats().is_none());
    assert!(manager.encoders().is_none());
    assert!(manager.audio_codecs().is_none());
    assert!(manager.source_status().is_none());
    assert_eq!(manager.output_load().part, 0);
    assert_eq!(manager.media_peak_db(SceneItemId(1)), None);
    assert!(engine.leave().is_empty());
}

#[test]
fn a_files_meters_are_read_while_it_plays() {
    let (mut manager, _) = EngineManager::spawn(output_settings(), false, SECOND);
    let mut meters: Table<MediaMeters> = Table::new();
    meters.insert(1, MediaMeters { peak: 7, position: 1_500 });
    meters.insert(2, MediaMeters { peak: 0, position: -1 });
    manager.shown.media_meters = Some(meters);
    manager.shown.frame = Some(CompositeFrame { texture_id: 3 });
    assert_eq!(manager.media_peak_db(SceneItemId(1)), Some(7));
    assert_eq!(manager.media_position(SceneItemId(1)), Some(1_500));
    assert_eq!(manager.media_peak_db(SceneItemId(2)), None);
    assert_eq!(manager.media_position(SceneItemId(2)), None);
    assert_eq!(manager.media_position(SceneItemId(3)), None);
    assert_eq!(manager.frame(), Some(CompositeFrame { texture_id: 3 }));
    let settings = RecordingSettings { fps: 0, ..output_settings().recording };
    assert_eq!(manager.target_fps(&settings), 1);
}

#[test]
fn the_preview_is_never_faster_than_the_compositor() {
    assert_eq!(start_rates(60), (60, 30));
    assert_eq!(start_rates(24), (24, 24));
    assert_eq!(start_rates(0), (1, 1));
}

/// Every frame is counted, and only one the preview drew wakes anyone.
#[test]
fn a_rate_is_measured_over_a_full_window() {
    let mut rate = FrameRate::new(0);
    let first = publish_frame(&mut rate, None, RATE_WINDOW - 1);
    assert_eq!((first.rate, first.wake), (None, false));
    let second = publish_frame(&mut rate, Some(4), RATE_WINDOW + 5);
    assert_eq!(second.rate, Some(MeasuredRate { frames: 2, nanos: RATE_WINDOW + 5 }));
    assert!(second.wake);
    assert_eq!(second.texture, Some(4));
    assert_eq!(rate, FrameRate { window_start: RATE_WINDOW + 5, frames: 0 });
}

#[test]
fn the_loop_shows_its_sources_only_where_they_may_have_moved() {
    assert_eq!(next_turn(Turn::Applied { reconciled: true }, false), NextTurn::PublishSources);
    assert_eq!(next_turn(Turn::Applied { reconciled: false }, false), NextTurn::Wait);
    assert_eq!(next_turn(Turn::Idle { looked_round: true }, false), NextTurn::PublishSources);
    assert_eq!(next_turn(Turn::Idle { looked_round: false }, false), NextTurn::Wait);
    assert_eq!(next_turn(Turn::Idle { looked_round: false }, true), NextTurn::Leave);
    assert_eq!(next_turn(Turn::Applied { reconciled: false }, true), NextTurn::Leave);
    assert_eq!(next_turn(Turn::Disconnected, false), NextTurn::Leave);
}

#[test]
fn what_a_last_turn_moved_is_shown_before_the_loop_is_left() {
    assert_eq!(next_turn(Turn::Applied { reconciled: true }, true), NextTurn::PublishSources);
    assert_eq!(next_turn(Turn::Idle { looked_round: true }, true), NextTurn::PublishSources);
    assert_eq!(next_turn(Turn::Disconnected, true), NextTurn::Leave);
}

#[test]
fn an_input_is_named_after_its_item() {
    assert_eq!(input_name(&window_item(42, named_window())), "scene-item-42");
}
