//! Recordings, broadcasts, screenshots and clips.
use obs_rs::audio::graph::MixFormat;
use obs_rs::backend::encode::Rational;
use obs_rs::output::disk::{available, nearest_existing};
use obs_rs::output::muxer::{
    hls_init_filename, hls_segment_pattern, open_muxer, segment_name, MuxerPlan, SegmentPolicy,
};
use obs_rs::output::replay::{save_failure, ReplayFailure, Saves};
use obs_rs::output::screenshot::{
    encode, expected_rgb24, write_png, FirstFrame, NameSearch, ScreenshotError, MAX_SUFFIX,
};
use obs_rs::output::session::{available_audio_codecs, describe, usable_settings};
use obs_rs::output::streaming::{
    connect, is_white, redacted, NO_ADDRESS, NO_AUDIO_CODEC, NO_ENCODER,
};
use obs_rs::output::tracks::{
    audio_plan, mix_format, stopped, video_track, Gate, Output, StartAction, StartEvent,
    StartStage, Starting, StopAction, Tracks,
};
use obs_rs::output::OutputKind;
use obs_rs::settings::{
    OutputEncoding, RecordingAudioCodec, RecordingEncoder, RecordingFormat, RecordingSettings,
    RecordingSplit, StreamingSettings,
};
use std::io::Cursor;

fn chain(messages: &[&str]) -> Vec<String> {
    messages.iter().map(|message| (*message).to_owned()).collect()
}

#[test]
fn a_failure_is_described_by_its_whole_chain() {
    let error = chain(&[
        "could not open the encoder",
        "avcodec_open2 failed",
        "no NVENC capable devices found",
    ]);

    assert_eq!(
        describe(&error),
        "could not open the encoder: avcodec_open2 failed: no NVENC capable devices found"
    );
}

#[test]
fn a_cause_its_parent_already_quotes_is_not_repeated() {
    let error = chain(&["opening the file failed: access is denied", "access is denied"]);

    assert_eq!(describe(&error), "opening the file failed: access is denied");
}

#[test]
fn a_server_address_is_logged_without_its_last_segment() {
    assert_eq!(
        redacted("rtmp://live.twitch.tv/app/live_123456_secret"),
        "rtmp://live.twitch.tv/app/…"
    );
    // A bare server, which is what the field is meant to hold, is not
    // shortened — there is nothing after the application path to hide.
    assert_eq!(redacted("rtmp://live.twitch.tv/app"), "rtmp://live.twitch.tv/app");
    assert_eq!(redacted("rtmp://live.twitch.tv/app/"), "rtmp://live.twitch.tv/app");
    // A host on its own keeps its host: cutting at the scheme's own slashes
    // would leave `rtmp:/…`, which names nothing.
    assert_eq!(redacted("rtmp://live.twitch.tv"), "rtmp://live.twitch.tv");
}

#[test]
fn an_address_is_trimmed_before_it_is_shown() {
    assert_eq!(redacted("  rtmp://host/app/key \n"), "rtmp://host/app/…");
    assert_eq!(redacted("\u{3000}rtmp://host/app//"), "rtmp://host/app");
    assert_eq!(redacted("//host/app/key"), "//host/app/…");
    assert_eq!(redacted("file:///x/y"), "file:///x/…");
    assert_eq!(redacted(""), "");
    assert_eq!(redacted("rtmp://"), "rtmp:");
}

/// An address that was pasted without its scheme hides its key all the same.
#[test]
fn an_address_without_a_scheme_is_cut_after_its_application() {
    assert_eq!(redacted("live.twitch.tv/app/live_123456_secret"), "live.twitch.tv/app/…");
    assert_eq!(redacted("host/app"), "host/app");
    assert_eq!(redacted("host/app/"), "host/app");
    assert_eq!(redacted("host"), "host");
    // Slashes further on begin no host of their own.
    assert_eq!(redacted("host/app//key"), "host/app/…");
    assert_eq!(redacted("host/app/a//b/key"), "host/app/…");
    assert_eq!(redacted("host:1935//app/key"), "host:1935//…");
    assert_eq!(redacted("live.twitch.tv//app/key"), "live.twitch.tv//…");
}

/// A scheme that lost its colon is a scheme still: what follows its slashes is
/// the host.
#[test]
fn a_scheme_without_its_colon_keeps_its_host_and_its_application() {
    assert_eq!(redacted("rtmp//h/a/k"), "rtmp//h/a/…");
    assert_eq!(redacted("rtmp//live.twitch.tv/app"), "rtmp//live.twitch.tv/app");
    assert_eq!(redacted("rtmp//live.twitch.tv/app/key//"), "rtmp//live.twitch.tv/app/…");
    assert_eq!(redacted("rtmp//live.twitch.tv"), "rtmp//live.twitch.tv");
    assert_eq!(redacted("a.b:c://h/a/k1/k2"), "a.b:c://h/a/…");
}

/// White space is what a text is trimmed of, for every character there is.
#[test]
fn white_space_is_what_trimming_takes_off() {
    for point in 0..=0x10_ffff_u32 {
        if let Some(c) = char::from_u32(point) {
            assert_eq!(is_white(c), c.is_whitespace(), "{point:x}");
        }
    }
}

/// A small frame whose every pixel says where it is, with its rows padded past
/// their width.
fn frame(width: u32, height: u32, stride: usize) -> Vec<u8> {
    let mut data = vec![0xee; stride * height as usize];
    for y in 0..height as usize {
        for x in 0..width as usize {
            let at = y * stride + x * 3;
            data[at..at + 3].copy_from_slice(&[x as u8 * 40, y as u8 * 90, 7]);
        }
    }
    data
}

fn decode(file: Vec<u8>) -> (u32, u32, Vec<u8>) {
    let decoder = png::Decoder::new(Cursor::new(file));
    let mut reader = decoder.read_info().expect("a PNG header");
    let mut pixels = vec![0; reader.output_buffer_size().expect("a sized image")];
    let info = reader.next_frame(&mut pixels).expect("the image data");
    pixels.truncate(info.buffer_size());
    (info.width, info.height, pixels)
}

#[test]
fn a_frame_is_written_pixel_for_pixel_without_its_padding() {
    let written = write_png(true, &frame(3, 2, 32), 32, 3, 2).expect("written");

    let (width, height, pixels) = decode(written);
    assert_eq!((width, height), (3, 2));
    assert_eq!(
        pixels,
        [
            0, 0, 7, 40, 0, 7, 80, 0, 7, //
            0, 90, 7, 40, 90, 7, 80, 90, 7,
        ]
    );
}

#[test]
fn a_name_already_taken_gets_a_suffix_instead_of_being_overwritten() {
    let mut taken: Vec<String> = vec![];
    let mut write = || {
        let mut search = NameSearch::new(
            "obs-rs-2026-09-13-143005.png",
            "obs-rs-2026-09-13-143005",
            "png",
        );
        loop {
            let name = search.next().expect("a free name");
            if !taken.contains(&name) {
                taken.push(name.clone());
                return name;
            }
        }
    };

    let first = write();
    let second = write();

    assert_eq!(first, "obs-rs-2026-09-13-143005.png");
    assert_eq!(second, "obs-rs-2026-09-13-143005-2.png");
}

#[test]
fn the_sink_writes_the_first_frame_and_reports_it_once() {
    let mut sink = FirstFrame::new();
    let mut reported = 0;
    for _ in 0..2 {
        if sink.takes(true) {
            reported += 1;
        }
    }
    assert_eq!(reported, 1, "reported once");
}

#[test]
fn what_is_no_picture_is_let_go_by() {
    let mut sink = FirstFrame::new();
    assert!(!sink.takes(false));
    assert!(sink.takes(true));
    assert!(!sink.takes(true));
}

#[test]
fn names_run_out_in_the_end() {
    let mut search = NameSearch::new("shot.png", "shot", "png");
    let mut names = vec![];
    while let Some(name) = search.next() {
        names.push(name);
    }
    assert_eq!(names.len(), MAX_SUFFIX as usize + 1, "the first and as many after it");
    assert_eq!(names[999], "shot-1000.png");
    assert_eq!(names[1000], "shot-1001.png");
    names.sort();
    names.dedup();
    assert_eq!(names.len(), MAX_SUFFIX as usize + 1, "no name is tried twice");
    assert_eq!(
        NameSearch::all_taken("/tmp/shot.png"),
        "/tmp/shot.png and 1000 names after it are taken"
    );
}

#[test]
fn a_picture_with_no_pixels_is_refused() {
    assert_eq!(encode(&vec![], 0, 0, 4), Err(ScreenshotError::Empty));
    assert_eq!(encode(&vec![], 12, 4, 0), Err(ScreenshotError::Empty));
    assert_eq!(write_png(false, &vec![], 0, 0, 0), Err(ScreenshotError::NotRgb24));
    assert_eq!(expected_rgb24("BGRA"), "expected an RGB24 frame, got BGRA");
}

fn recording_settings() -> RecordingSettings {
    RecordingSettings {
        fps: 60,
        encoder: RecordingEncoder::Nvenc,
        audio_codec: RecordingAudioCodec::Opus,
        format: RecordingFormat::Mp4,
        split: RecordingSplit::Off,
        split_minutes: 15,
        split_bytes: 4_000_000,
        bit_rate_bits: 6_000_000,
        keyframe_seconds: 2,
        audio_bit_rate_kbps: 160,
    }
}

#[test]
fn a_choice_that_cannot_be_opened_falls_back_to_the_best() {
    let codecs = vec![RecordingAudioCodec::Aac];
    let encoders = vec![RecordingEncoder::X264, RecordingEncoder::OpenH264];
    let usable = usable_settings(
        recording_settings(),
        &codecs,
        Some(RecordingAudioCodec::Aac),
        &encoders,
        Some(RecordingEncoder::X264),
    );
    assert_eq!(usable.audio_codec, RecordingAudioCodec::Aac);
    assert_eq!(usable.encoder, RecordingEncoder::X264);
    assert_eq!(usable.fps, 60);
    // With nothing to fall back to, what was asked for stands.
    let usable = usable_settings(recording_settings(), &vec![], None, &vec![], None);
    assert_eq!(usable.audio_codec, RecordingAudioCodec::Opus);
    assert_eq!(usable.encoder, RecordingEncoder::Nvenc);
}

#[test]
fn only_codecs_that_open_are_offered() {
    let all = vec![RecordingAudioCodec::Aac, RecordingAudioCodec::Opus];
    assert_eq!(
        available_audio_codecs(&all, &vec![false, true]),
        [RecordingAudioCodec::Opus]
    );
}

fn streaming_settings() -> StreamingSettings {
    StreamingSettings {
        server: "rtmp://live.example/app".to_owned(),
        addressable: true,
        encoder: RecordingEncoder::Nvenc,
        audio_codec: RecordingAudioCodec::Opus,
        reconnect: None,
        bit_rate_bits: 6_000_000,
        keyframe_seconds: 2,
        audio_bit_rate_kbps: 160,
    }
}

fn refusal(result: Result<StreamingSettings, String>) -> String {
    match result {
        Ok(_) => panic!("it was to be refused"),
        Err(reason) => reason,
    }
}

#[test]
fn a_broadcast_is_made_with_what_opens_or_refused() {
    let codecs = vec![RecordingAudioCodec::Aac];
    let encoders = vec![RecordingEncoder::OpenH264, RecordingEncoder::X264];
    let usable = connect(streaming_settings(), &codecs, &encoders).ok().expect("usable");
    assert_eq!(usable.audio_codec, RecordingAudioCodec::Aac);
    assert_eq!(usable.encoder, RecordingEncoder::OpenH264);

    let unset = StreamingSettings { addressable: false, ..streaming_settings() };
    assert_eq!(refusal(connect(unset, &codecs, &encoders)), NO_ADDRESS);
    assert_eq!(refusal(connect(streaming_settings(), &vec![], &encoders)), NO_AUDIO_CODEC);
    assert_eq!(refusal(connect(streaming_settings(), &codecs, &vec![])), NO_ENCODER);
}

#[test]
fn the_container_and_the_split_choose_the_muxer() {
    let with = |format, split| RecordingSettings { format, split, ..recording_settings() };
    assert_eq!(
        open_muxer(&with(RecordingFormat::Mkv, RecordingSplit::Off)),
        MuxerPlan::Single
    );
    assert_eq!(
        open_muxer(&with(RecordingFormat::Mp4, RecordingSplit::Time)),
        MuxerPlan::Segmented(SegmentPolicy::Duration(900))
    );
    assert_eq!(
        open_muxer(&with(RecordingFormat::Mp4, RecordingSplit::Size)),
        MuxerPlan::Segmented(SegmentPolicy::Size(4_000_000))
    );
    // A playlist cuts itself, whatever else is asked for.
    assert_eq!(
        open_muxer(&with(RecordingFormat::Hls, RecordingSplit::Time)),
        MuxerPlan::Hls
    );
    assert_eq!(hls_segment_pattern(), "segment_%05d.m4s");
    assert_eq!(hls_init_filename(), "init.mp4");
}

#[test]
fn segments_are_numbered_in_three_digits() {
    assert_eq!(segment_name("take", 0, "mp4"), "take_000.mp4");
    assert_eq!(segment_name("take", 12, "mkv"), "take_012.mkv");
    assert_eq!(segment_name("take", 999, "mp4"), "take_999.mp4");
    assert_eq!(segment_name("take", 1_000, "mp4"), "take_1000.mp4");
}

/// Both encoders come before the file, and the picture is begun last.
#[test]
fn an_output_starts_its_picture_last() {
    let (mut starting, action) = Starting::begin(true);
    let mut asked = vec![action];
    for event in [
        StartEvent::Done,
        StartEvent::Done,
        StartEvent::Opened { audio: true },
        StartEvent::Done,
    ] {
        asked.push(starting.advance(event).expect("something is asked for"));
    }
    assert_eq!(
        asked,
        [
            StartAction::PrepareVideo,
            StartAction::OpenAudioEncoder,
            StartAction::OpenMuxer { audio: true },
            StartAction::AttachAudio,
            StartAction::AttachVideo,
        ]
    );
    assert_eq!(starting.advance(StartEvent::Done), None);
    assert_eq!(starting.stage, StartStage::Running { audio: true });
}

#[test]
fn an_output_that_fails_at_the_end_ends_its_sound() {
    let (mut starting, _) = Starting::begin(true);
    starting.advance(StartEvent::Done);
    starting.advance(StartEvent::Done);
    starting.advance(StartEvent::Opened { audio: true });
    starting.advance(StartEvent::Done);
    assert_eq!(starting.advance(StartEvent::Refused), Some(StartAction::FinishAudio));
    assert_eq!(starting.stage, StartStage::Failed);
}

#[test]
fn an_output_without_a_mixer_carries_no_sound() {
    let (mut starting, _) = Starting::begin(false);
    assert_eq!(
        starting.advance(StartEvent::Done),
        Some(StartAction::OpenMuxer { audio: false })
    );
    // A muxer that answers for sound that was never declared is refused.
    assert_eq!(starting.advance(StartEvent::Opened { audio: true }), None);
    assert_eq!(starting.stage, StartStage::Failed);
}

#[test]
fn every_track_is_ended_and_the_first_failure_kept() {
    let both = Output { video: true, audio: true };
    assert_eq!(both.stop(), [StopAction::FinishAudio, StopAction::DetachVideo]);
    assert_eq!(both.set_paused(), [Gate::Video, Gate::Audio]);
    let silent = Output { video: true, audio: false };
    assert_eq!(silent.stop(), [StopAction::DetachVideo]);
    assert_eq!(stopped(Some("sound"), Some("picture")), Err("sound"));
    assert_eq!(stopped(None, Some("picture")), Err("picture"));
    assert_eq!(stopped::<&str>(None, None), Ok(()));
}

#[test]
fn tracks_go_through_the_picture_first() {
    let doubled = Tracks { video: 2, audio: Some(3) }.map(|n: i32| n * 2);
    assert_eq!((doubled.video, doubled.audio), (4, Some(6)));
    let failed = Tracks { video: 2, audio: Some(3) }
        .try_map(|n: i32| if n == 2 { Err(format!("{n}")) } else { Ok(n) });
    assert_eq!(failed.err(), Some("2".to_owned()));
    let failed = Tracks { video: 2, audio: Some(3) }
        .try_map(|n: i32| if n == 3 { Err(format!("{n}")) } else { Ok(n) });
    assert_eq!(failed.err(), Some("3".to_owned()));
    let mut seen = vec![];
    let numbered = Tracks { video: "v", audio: Some("a") }.map(|name: &str| {
        seen.push(name.to_owned());
        seen.len()
    });
    assert_eq!((numbered.video, numbered.audio), (1, Some(2)), "the picture comes first");
    assert_eq!(seen, ["v", "a"]);
    let kept = Tracks { video: 2, audio: None }.try_map(|n: i32| Ok::<i32, ()>(n + 1));
    assert_eq!(kept.map(|tracks| (tracks.video, tracks.audio)), Ok((3, None)));
}

#[test]
fn everything_of_an_output_is_named_after_it() {
    let encoding = OutputEncoding {
        encoder: RecordingEncoder::Nvenc,
        size: [1920, 1080],
        bit_rate_bits: 6_000_000,
        keyframe_seconds: 2,
        audio_codec: RecordingAudioCodec::Aac,
        audio_bit_rate_kbps: 0,
    };
    let fallback = MixFormat { sample_rate: 48_000, channels: 2 };
    let mix = mix_format(None, fallback);
    let plan = audio_plan(OutputKind::Broadcast, &encoding, mix);
    assert_eq!(plan.track, "stream-audio");
    assert_eq!(plan.encode, "stream-audio-encode");
    assert_eq!(plan.queue, "stream-audio-queue");
    assert_eq!(plan.pause, "stream-audio-pause");
    assert_eq!(plan.origin, "stream-audio-origin");
    assert_eq!(plan.bit_rate, 1_000, "never nothing");
    assert_eq!((plan.sample_rate, plan.channels), (48_000, 2));
    assert_eq!(plan.time_base, Rational { numerator: 1, denominator: 48_000 });
    let running = MixFormat { sample_rate: 44_100, channels: 1 };
    assert_eq!(mix_format(Some(running), fallback), running);
    assert_eq!(video_track(OutputKind::Recording), "record-video");
}

#[test]
fn room_is_asked_for_where_something_exists() {
    assert_eq!(nearest_existing(&vec![false, false, true, true]), Some(2));
    assert_eq!(nearest_existing(&vec![false]), None);
    // From the nearest that exists, it is that one.
    assert_eq!(nearest_existing(&vec![false, true, true]), Some(1));
    assert_eq!(nearest_existing(&vec![true, true]), Some(0));
    assert_eq!(available(10, 4_096), Some(40_960));
    assert_eq!(available(u64::MAX, 2), None);
}

#[test]
fn saves_are_let_go_of_once_they_have_answered() {
    let mut saves = Saves::new();
    for save in 1..=4 {
        saves.add(save);
    }
    assert_eq!(saves.collect_finished(&vec![4, 2]), [2, 4]);
    assert_eq!(saves.wait(), [1, 3]);
    assert!(saves.wait().is_empty());
}

#[test]
fn a_window_that_emptied_is_not_a_failure_to_save() {
    assert!(matches!(save_failure(true, &vec![]), ReplayFailure::Empty));
    match save_failure(false, &chain(&["saving failed", "disk full"])) {
        ReplayFailure::Save(reason) => assert_eq!(reason, "saving failed: disk full"),
        ReplayFailure::Empty => panic!("it failed to save"),
    }
}
