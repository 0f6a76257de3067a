//! The audio graph: what is opened, what is closed, and what one pass does.
use obs_rs::audio::device::{AudioDeviceTarget, AudioSourceKind};
use obs_rs::audio::graph::{
    monitor_registration, monitors, registration, AudioEngine, AudioSnapshot, AudioSourceSnapshot,
    MixFormat, Plan,
};
use obs_rs::audio::level::AudioSourceId;
use obs_rs::audio::manager::AudioManager;
use obs_rs::audio::wiring::{
    attach_monitor_output, open_source, start_mixer, AudioBranch, SourceWiring,
};
use obs_rs::audio::worker::{AudioAction, AudioCommand, AudioWorker, Batch};
use obs_rs::backend::encode::{Rational, StageKind};

const FORMAT: MixFormat = MixFormat { sample_rate: 48_000, channels: 2 };

fn source(id: i64) -> AudioSourceSnapshot {
    AudioSourceSnapshot {
        id: AudioSourceId(id),
        name: "test".to_owned(),
        kind: AudioSourceKind::Input,
        device: None,
        gain: 0,
        muted: false,
        monitored: false,
    }
}

fn microphone() -> Vec<AudioDeviceTarget> {
    vec![AudioDeviceTarget {
        id: "mic".to_owned(),
        name: "mic".to_owned(),
        kind: AudioSourceKind::Input,
        is_default: true,
    }]
}

/// An engine with these sources open.
fn engine(ids: &[i64]) -> AudioEngine<u32> {
    let mut engine = AudioEngine::new(false, false);
    for id in ids {
        engine.opened(&source(*id), false, Some(0));
    }
    engine
}

#[test]
fn a_capture_that_stopped_on_its_own_loses_its_channel() {
    let dead = AudioSourceId(1);
    let mut engine = engine(&[1]);

    assert!(
        !engine.close_ended(&vec![dead]).is_empty(),
        "the stopped capture must be noticed"
    );
    assert!(
        !engine.sources.contains(dead.0),
        "and closed, so the dock stops drawing a channel nothing feeds"
    );
    assert!(
        !engine.levels.is_running(dead),
        "its meter must be forgotten rather than frozen at the last peak"
    );
}

#[test]
fn a_running_capture_is_left_where_it_is() {
    let live = AudioSourceId(2);
    let mut engine = engine(&[2]);

    assert!(
        engine.close_ended(&vec![]).is_empty(),
        "nothing has stopped, so nothing is closed"
    );
    assert!(engine.sources.contains(live.0));
    assert!(engine.levels.is_running(live), "and its meter keeps being reported");
}

#[test]
fn one_dead_capture_does_not_take_the_others_with_it() {
    let dead = AudioSourceId(3);
    let live = AudioSourceId(4);
    let mut engine = engine(&[3, 4]);

    assert!(!engine.close_ended(&vec![dead]).is_empty());
    assert!(!engine.sources.contains(dead.0));
    assert!(
        engine.sources.contains(live.0),
        "the surviving capture keeps its channel"
    );
}

#[test]
fn nothing_is_monitored_where_there_is_nowhere_to_play() {
    assert!(monitors(true, true));
    assert!(!monitors(true, false));
    assert!(!monitors(false, true));
    assert!(!monitors(false, false));
}

#[test]
fn registrations_are_named_after_their_source() {
    assert_eq!(registration(AudioSourceId(7)), "audio-7");
    assert_eq!(registration(AudioSourceId(-1)), "audio--1");
    assert_eq!(monitor_registration("audio-7"), "audio-7-monitor");
}

#[test]
fn a_source_is_opened_once_and_tuned_after() {
    let mut engine: AudioEngine<u32> = AudioEngine::new(true, true);
    let wanted = source(1);
    let (plan, closed) = engine.apply(&wanted, &microphone());
    assert_eq!(plan, Plan::Reopen { monitored: false });
    assert!(!closed);
    engine.opened(&wanted, false, Some(3));
    let (plan, closed) = engine.apply(&wanted, &microphone());
    assert_eq!(plan, Plan::Tune);
    assert!(!closed);
    // With nothing to open it on it is closed.
    let (plan, closed) = engine.apply(&wanted, &vec![]);
    assert_eq!(plan, Plan::Close);
    assert!(closed);
    assert!(!engine.sources.contains(1));
}

#[test]
fn what_the_project_dropped_is_closed() {
    let mut engine: AudioEngine<u32> = AudioEngine::new(true, false);
    engine.opened(&source(1), false, Some(0));
    engine.opened(&source(2), false, Some(0));
    let closed = engine.close_dropped(&AudioSnapshot { items: vec![source(2)] });
    assert_eq!(closed, vec![AudioSourceId(1)]);
    assert!(engine.sources.contains(2));
}

#[test]
fn monitoring_is_reached_once_its_endpoint_opened() {
    let mut engine: AudioEngine<u32> = AudioEngine::new(true, true);
    assert!(!engine.monitor_access());
    let step = engine.set_monitor_device(Some("speakers"), FORMAT);
    assert!(step.attach && !step.detach);
    engine.monitor_attached("speakers", FORMAT);
    assert!(engine.monitor_access());
    // The same endpoint at the same format asks for nothing.
    let step = engine.set_monitor_device(Some("speakers"), FORMAT);
    assert!(!step.attach && !step.detach);
    let step = engine.set_monitor_device(None, FORMAT);
    assert!(step.detach && !step.attach);
    assert!(!engine.monitor_access());
}

#[test]
fn a_mix_that_runs_at_a_format_is_not_told_again() {
    let engine: AudioEngine<u32> = AudioEngine::new(true, true);
    let step = engine.set_mix_format(FORMAT, Some(FORMAT), None);
    assert!(!step.mixer && step.monitor && !step.rebuild);
}

/// Only the newest position of a fader reaches its source, and a tick that
/// found everything running does nothing.
#[test]
fn a_drag_is_one_gain_for_each_source() {
    let mut worker = AudioWorker::new(FORMAT);
    let mut batch = Batch::new();
    for (id, gain) in [(1, 10), (2, 20), (1, 30)] {
        assert!(worker.take(&mut batch, AudioCommand::Gain(AudioSourceId(id), gain)).is_none());
    }
    let taken: Vec<(i64, i64)> =
        batch.gains.iter().map(|gain| (gain.id.0, gain.gain)).collect();
    assert_eq!(taken, [(2, 20), (1, 30)]);
    let pass = worker.decide(&batch, false, false);
    assert!(!pass.end && !pass.refresh_devices && !pass.apply && pass.publish);

    let quiet = worker.decide(&Batch::new(), true, false);
    assert!(!quiet.end && !quiet.refresh_devices && !quiet.apply && !quiet.publish);
}

#[test]
fn a_capture_that_ended_has_the_machine_asked_again() {
    let mut worker = AudioWorker::new(FORMAT);
    let mut batch = Batch::new();
    worker.take(&mut batch, AudioCommand::Project(AudioSnapshot { items: vec![] }));
    let _ = worker.decide(&batch, false, false);
    let pass = worker.decide(&Batch::new(), true, true);
    assert!(pass.refresh_devices && pass.apply && pass.publish);
}

#[test]
fn a_change_of_format_is_acted_on_at_once() {
    let mut worker = AudioWorker::new(FORMAT);
    let mut batch = Batch::new();
    let other = MixFormat { sample_rate: 44_100, channels: 2 };
    match worker.take(&mut batch, AudioCommand::MixFormat(other)) {
        Some(AudioAction::SetMixFormat(format)) => assert_eq!(format, other),
        _ => panic!("the mixer is to be told"),
    }
    match worker.take(&mut batch, AudioCommand::MonitorDevice(Some("speakers".to_owned()))) {
        Some(AudioAction::SetMonitorDevice(device, format)) => {
            assert_eq!(device, Some("speakers".to_owned()));
            assert_eq!(format, other);
        }
        _ => panic!("the endpoint is to be opened"),
    }
    assert!(batch.project_changed);
}

/// Dropping the manager tells the worker to end, and nothing after.
#[test]
fn the_end_is_the_last_thing_the_worker_is_told() {
    let (mut manager, mut worker) = AudioManager::<u32>::spawn(FORMAT, Some(7));
    assert_eq!(*manager.mixer(), Some(7));
    assert_eq!(*manager.monitor_publisher(), None);
    assert!(manager.devices().is_none());
    assert_eq!(manager.peak_db(AudioSourceId(1)), None);
    assert_eq!(manager.is_running(AudioSourceId(1)), None);
    manager.set_gain_db(AudioSourceId(1), -3_000_000);
    manager.apply(AudioSnapshot { items: vec![source(1)] });
    manager.set_monitor_device(None);
    manager.shutdown();
    manager.set_mix_format(FORMAT);
    let commands = manager.take();
    assert_eq!(commands.len(), 4);
    let mut batch = Batch::new();
    for command in commands {
        worker.take(&mut batch, command);
    }
    assert!(batch.ending);
    assert!(worker.decide(&batch, false, false).end);
}

#[test]
fn a_published_level_is_read_back() {
    let (mut manager, _) = AudioManager::<u32>::spawn(FORMAT, None);
    let mut engine: AudioEngine<u32> = AudioEngine::new(true, false);
    let bits = (-6.0f32).to_bits();
    engine.opened(&source(1), false, Some(bits));
    engine.opened(&source(2), false, Some(0));
    manager.levels = Some(engine.levels);
    assert_eq!(manager.peak_db(AudioSourceId(1)), Some(bits));
    assert_eq!(manager.peak_db(AudioSourceId(2)), None);
    assert_eq!(manager.is_running(AudioSourceId(2)), Some(true));
    assert_eq!(manager.is_running(AudioSourceId(3)), Some(false));
}

/// Both mixes and the meter take what the fader lets through, and monitoring
/// only adds a branch.
#[test]
fn a_monitored_source_has_one_branch_more() {
    let names = |wiring: &SourceWiring| -> Vec<(AudioBranch, String)> {
        wiring.branches.iter().map(|branch| (branch.to, branch.name.clone())).collect()
    };
    let recorded = [
        (AudioBranch::Meter, "audio-3-meter".to_owned()),
        (AudioBranch::Mix, "audio-3".to_owned()),
    ];
    let plain = open_source(AudioSourceId(3), false, true);
    assert_eq!((&*plain.capture, &*plain.volume), ("audio-3", "audio-3-volume"));
    assert_eq!(plain.tee, "audio-3-tee");
    assert_eq!(names(&plain), recorded);
    assert_eq!(names(&open_source(AudioSourceId(3), true, false)), recorded);
    let monitored = open_source(AudioSourceId(3), true, true);
    assert_eq!(names(&monitored)[..2], recorded);
    assert_eq!(
        names(&monitored)[2],
        (AudioBranch::Monitor, "audio-3-monitor".to_owned())
    );
}

#[test]
fn the_mixes_are_told_apart() {
    let mix = start_mixer(false);
    assert_eq!(
        (&*mix.pipeline, &*mix.mixer, &*mix.tee),
        ("audio-mix", "audio-mix-mixer", "mix-tee")
    );
    let monitor = start_mixer(true);
    assert_eq!(
        (&*monitor.pipeline, &*monitor.mixer, &*monitor.tee),
        ("audio-monitor", "audio-monitor-mixer", "monitor-tee")
    );
    let played = attach_monitor_output(MixFormat { sample_rate: 48_000, channels: 2 });
    let stages: Vec<(StageKind, &str)> =
        played.stages.iter().map(|stage| (stage.kind, stage.name.as_str())).collect();
    assert_eq!(
        stages,
        [
            (StageKind::DroppingQueue, "monitor-queue"),
            (StageKind::Resample, "monitor-resampler"),
            (StageKind::Render, "monitor-renderer"),
        ]
    );
    assert_eq!(played.time_base, Rational { numerator: 1, denominator: 48_000 });
}
