//! The compositor's side: memory, encoders, captures and the preview.
use obs_rs::backend::captures::{CaptureAction, CaptureRegistry, RunningSource};
use obs_rs::backend::encode::{
    attach_output, attach_screenshot, available_encoders, frame_rate, open_encoder, open_source,
    refreshed_token, restore_token, software_codec, unsupported_kind, DisplayCaptureTarget,
    EncoderCodec, Platform, Rational, Stage, StageKind, VideoCodec,
};
use obs_rs::backend::memory::{
    allocate, check, import_failed, memory_type, AllocateStep, Allocating, ExportedMemory, GiveBack,
    ImportStep,
};
use obs_rs::backend::nv12::{
    draw, tail_is_unwritten, write_frame, FramePlanes, Nv12Layout, Place,
    PlaneCopy,
};
use obs_rs::backend::preview::{bgra_rows, submitted, PreviewSurface, Submitted};
use obs_rs::backend::start::{open_display_capture, start, CaptureRates, NOT_A_DISPLAY};
use obs_rs::output::OutputKind;
use obs_rs::scene::{
    Crop, Placement, SceneItem, SceneItemId, SourceKind, SourceSettings, VisibilityFades,
};
use obs_rs::settings::{OutputEncoding, RecordingAudioCodec, RecordingEncoder};

/// Rows are as far apart as a copy into a texture asks for.
#[test]
fn rows_are_padded_to_what_a_copy_asks_for() {
    let layout = Nv12Layout::new(64, 64);
    assert_eq!(layout.pitch, wgpu::COPY_BYTES_PER_ROW_ALIGNMENT);
    assert_eq!(layout.chroma_offset, 256 * 64);
    assert_eq!(layout.size, 256 * 64 + 256 * 32);
    assert_eq!(Nv12Layout::new(256, 2).pitch, 256);
    assert_eq!(Nv12Layout::new(257, 2).pitch, 512);
    assert_eq!(Nv12Layout::new(1920, 1080).pitch, 2048);
    assert_eq!(Nv12Layout::new(1920, 1080).size, 2048 * 1080 + 2048 * 540);
    assert!(layout.is_for(64, 64));
    assert!(!layout.is_for(64, 32));
}

#[test]
fn the_colour_is_half_as_wide_and_half_as_high() {
    let layout = Nv12Layout::new(64, 64);
    let (luma, chroma) = draw(&layout, 64, 64).expect("the right size");
    assert_eq!(luma, PlaneCopy { offset: 0, bytes_per_row: 256, width: 64, height: 64 });
    assert_eq!(
        chroma,
        PlaneCopy { offset: 256 * 64, bytes_per_row: 256, width: 32, height: 32 }
    );
    assert_eq!(draw(&layout, 64, 32), None);
}

fn planes(width: u32, height: u32) -> FramePlanes {
    FramePlanes { y: 10_000, y_pitch: 80, uv: 50_000, uv_pitch: 96, width, height }
}

#[test]
fn a_frame_is_copied_with_its_last_rows_brought_back() {
    let layout = Nv12Layout::new(64, 64);
    let copies = write_frame(&layout, 1_000, &planes(64, 64)).expect("the right size");
    assert_eq!(copies.len(), 4);
    assert_eq!(copies[0].to, Place::Device(1_000));
    assert_eq!((copies[0].source, copies[0].height, copies[0].to_pitch), (10_000, 64, 256));
    assert_eq!(copies[1].to, Place::Device(1_000 + 256 * 64));
    assert_eq!((copies[1].source, copies[1].height), (50_000, 32));
    assert_eq!(copies[2].to, Place::Host(0));
    assert_eq!((copies[2].source, copies[2].height), (10_000 + 62 * 80, 2));
    assert_eq!(copies[3].to, Place::Host(128));
    assert_eq!((copies[3].source, copies[3].height), (50_000 + 31 * 96, 1));
    assert!(write_frame(&layout, 1_000, &planes(64, 32)).is_none());
}

#[test]
fn a_tail_of_zeros_was_never_written() {
    assert!(tail_is_unwritten(4, 4, &vec![0; 12]));
    // Black is sixteen, with its colour in the middle.
    let black = vec![16, 16, 16, 16, 16, 16, 16, 16, 128, 128, 128, 128];
    assert!(!tail_is_unwritten(4, 4, &black));
    // One row that nothing wrote is enough.
    let torn = vec![16, 16, 16, 16, 0, 0, 0, 0, 0, 0, 0, 0];
    assert!(tail_is_unwritten(4, 4, &torn));
    assert!(!tail_is_unwritten(1, 4, &vec![0; 3]));
    assert!(!tail_is_unwritten(4, 1, &vec![0; 12]));
}

#[test]
fn the_first_memory_with_every_property_is_taken() {
    let types = vec![0b010, 0b111, 0b001, 0b001];
    assert_eq!(memory_type(&types, 0b1111, 0b001), Some(1));
    assert_eq!(memory_type(&types, 0b1100, 0b001), Some(2));
    assert_eq!(memory_type(&types, 0b0001, 0b001), None);
    assert_eq!(memory_type(&vec![], u32::MAX, 0), None);
}

#[test]
fn a_failed_allocation_gives_back_what_it_took() {
    let back = |step| match allocate(step, false) {
        Allocating::Failed(back) => back,
        _ => panic!("it failed"),
    };
    assert!(back(AllocateStep::CheckFeature).is_empty());
    assert!(back(AllocateStep::CreateBuffer).is_empty());
    assert_eq!(back(AllocateStep::AllocateMemory), [GiveBack::DestroyBuffer]);
    assert_eq!(back(AllocateStep::Export), [GiveBack::DestroyBuffer, GiveBack::FreeMemory]);
    assert!(matches!(
        allocate(AllocateStep::CreateBuffer, true),
        Allocating::Next(AllocateStep::ChooseMemory)
    ));
    assert!(matches!(allocate(AllocateStep::Export, true), Allocating::Done));
}

#[test]
fn what_is_handed_on_is_not_given_back() {
    let mut memory = ExportedMemory { fd: 7, released: false };
    assert_eq!(
        memory.let_go(),
        [GiveBack::CloseDescriptor, GiveBack::DestroyBuffer, GiveBack::FreeMemory]
    );
    assert_eq!(memory.take_fd(), 7);
    assert_eq!(memory.release_callback(), [GiveBack::DestroyBuffer, GiveBack::FreeMemory]);
    assert!(memory.let_go().is_empty());
}

#[test]
fn a_failed_import_closes_the_descriptor_unless_the_driver_has_it() {
    assert_eq!(import_failed(ImportStep::Start), [GiveBack::CloseDescriptor]);
    assert_eq!(
        import_failed(ImportStep::Import),
        [GiveBack::CloseDescriptor, GiveBack::ReleaseContext]
    );
    assert_eq!(
        import_failed(ImportStep::MapBuffer),
        [GiveBack::DestroyImport, GiveBack::ReleaseContext]
    );
}

#[test]
fn a_failed_call_names_itself_and_what_was_said() {
    assert_eq!(check("cuInit", 0, None), Ok(()));
    assert_eq!(
        check("cuInit", 100, Some("no CUDA-capable device is detected")),
        Err("cuInit failed: no CUDA-capable device is detected".to_owned())
    );
    assert_eq!(check("cuInit", -3, None), Err("cuInit failed: CUDA error -3".to_owned()));
}

/// What arrives while nobody is looking is drawn on return, the last of it.
#[test]
fn a_window_comes_back_to_the_newest_picture() {
    let mut surface: PreviewSurface<u32> = PreviewSurface::new();
    assert_eq!(surface.submit(1), Some(1));
    surface.present(true);
    assert!(surface.take_drawn());
    assert!(!surface.take_drawn());
    assert_eq!(surface.set_visible(false), None);
    assert_eq!(surface.submit(2), None);
    assert_eq!(surface.submit(3), None);
    assert_eq!(surface.set_visible(true), Some(3));
    assert_eq!(surface.set_visible(true), None);
    surface.present(false);
    assert!(!surface.take_drawn());
}

/// A texture that was drawn into is reported once, with the next picture.
#[test]
fn every_picture_is_counted_and_a_drawn_one_is_shown() {
    let mut surface: PreviewSurface<u32> = PreviewSurface::new();
    assert_eq!(surface.count(true, 9), Some(None));
    surface.present(true);
    assert_eq!(surface.count(false, 9), None);
    assert_eq!(surface.count(true, 9), Some(Some(9)));
    assert_eq!(surface.count(true, 9), Some(None));
}

#[test]
fn a_partly_written_frame_is_taken_and_not_shown() {
    assert_eq!(submitted(false, false, true), Submitted::InvalidFrame);
    assert_eq!(submitted(true, true, false), Submitted::Taken);
    assert_eq!(submitted(true, false, false), Submitted::InvalidFrame);
    assert_eq!(submitted(true, false, true), Submitted::Taken);
}

#[test]
fn a_picture_that_does_not_fit_is_not_painted() {
    assert_eq!(bgra_rows([4, 2], 4, 2, 32, 64), Some(64));
    assert_eq!(bgra_rows([4, 2], 4, 3, 32, 96), None);
    assert_eq!(bgra_rows([4, 2], 4, 2, 32, 63), None);
    assert_eq!(bgra_rows([4, 2], 4, 2, 15, 64), None);
}

/// Two items on one display share its capture, which pauses once neither is
/// shown and goes once neither draws from it.
#[test]
fn a_display_is_captured_once() {
    let mut captures = CaptureRegistry::new();
    assert!(captures.needs_opening("left"));
    captures.opened("left");
    captures.attach("left");
    assert!(!captures.needs_opening("left"));
    captures.attach("left");
    assert_eq!(captures.set_showing("left", false), None);
    assert_eq!(captures.set_showing("left", false), Some(CaptureAction::Pause));
    assert_eq!(captures.set_showing("left", true), Some(CaptureAction::Resume));
    assert_eq!(captures.set_showing("right", true), None);
    captures.opened("right");
    assert_eq!(
        captures.set_frame_rate(30),
        [
            ("left".to_owned(), Rational { numerator: 30, denominator: 1 }),
            ("right".to_owned(), Rational { numerator: 30, denominator: 1 }),
        ]
    );
    assert_eq!(captures.detach("left", 1), None);
    assert_eq!(captures.detach("left", 0), Some(CaptureAction::Stop));
    assert_eq!(captures.detach("left", 0), None);
    assert_eq!(captures.set_frame_rate(60).len(), 1);
}

/// An item of its own has a pipeline of its own, and one of a display shares
/// it.
#[test]
fn a_shared_capture_outlives_one_of_its_items() {
    let mut captures = CaptureRegistry::new();
    captures.opened("left");
    captures.attach("left");
    captures.attach("left");
    let shared = RunningSource::Shared { monitor: "left".to_owned() };
    let owned = RunningSource::Owned;
    assert_eq!(owned.pause(&mut captures), Some(CaptureAction::Pause));
    assert_eq!(owned.resume(&mut captures), Some(CaptureAction::Resume));
    assert_eq!(shared.pause(&mut captures), None);
    assert_eq!(shared.pause(&mut captures), Some(CaptureAction::Pause));
    assert_eq!(shared.resume(&mut captures), Some(CaptureAction::Resume));
    assert_eq!(shared.stop(&mut captures, 1), None);
    assert_eq!(shared.stop(&mut captures, 0), Some(CaptureAction::Stop));
    assert_eq!(owned.stop(&mut captures, 3), Some(CaptureAction::Stop));
    assert!(owned.ended(true) && !owned.ended(false) && !shared.ended(true));
}

#[test]
fn what_draws_the_preview_is_behind_a_queue_that_drops() {
    let plan = match start(Platform::Cuda, 60, 30) {
        Ok(plan) => plan,
        Err(error) => panic!("it starts: {error}"),
    };
    assert_eq!(plan.compositor, "preview-compositor");
    assert_eq!(plan.frame_rate, Rational { numerator: 60, denominator: 1 });
    assert_eq!(plan.refresh, Rational { numerator: 1, denominator: 30 });
    assert_eq!(names(&plan.counting), ["preview-rate"]);
    assert_eq!(names(&plan.drawing), ["preview-queue", "preview-changes", "preview-out"]);
    assert_eq!(plan.drawing[0].kind, StageKind::DroppingQueue);
    assert_eq!(plan.tee, "output-tee");
    assert_eq!(
        start(Platform::Unsupported, 60, 30).err(),
        Some("no compositor backend is written for this platform yet".to_owned())
    );
}

fn display_item(id: i64) -> SceneItem {
    SceneItem {
        id: SceneItemId(id),
        name: "Display Capture".to_owned(),
        kind: SourceKind::DisplayCapture,
        settings: SourceSettings::Plain { size_hint: None },
        source_width: 1920 * 256,
        source_height: 1080 * 256,
        placement: Placement {
            x: 0,
            y: 0,
            width: 1920 * 256,
            height: 1080 * 256,
            crop: Crop::default(),
        },
        visible: true,
        fades: VisibilityFades { show_ms: 0, hide_ms: 0 },
        paused: false,
        follows_clock: false,
        filters: vec![],
    }
}

#[test]
fn a_display_is_opened_with_the_token_it_was_given() {
    let item = display_item(7);
    let portal = DisplayCaptureTarget::Portal { restore_token: Some("kept".to_owned()) };
    let plan = match open_display_capture(&item, Some(&portal)) {
        Ok(plan) => plan,
        Err(error) => panic!("it is a display: {error}"),
    };
    assert_eq!(plan.name, "scene-item-7");
    assert_eq!(plan.convert, "scene-item-7-convert");
    assert_eq!(plan.restore_token, Some("kept".to_owned()));
    let named = DisplayCaptureTarget::MonitorName("HDMI-1".to_owned());
    assert_eq!(
        open_display_capture(&item, Some(&named)).ok().and_then(|plan| plan.restore_token),
        None,
        "a name means nothing to the portal"
    );
    assert_eq!(open_display_capture(&item, None).err(), Some(NOT_A_DISPLAY.to_owned()));
}

#[test]
fn every_open_capture_is_told_the_rate() {
    let mut rates = CaptureRates::new();
    rates.opened(SceneItemId(4), 60);
    rates.opened(SceneItemId(2), 60);
    rates.opened(SceneItemId(9), 60);
    rates.remove_source(SceneItemId(2));
    assert_eq!(rates.set_frame_rate(30), [4, 9]);
    rates.remove_source(SceneItemId(4));
    assert_eq!(rates.set_frame_rate(60), [9]);
}

fn encoding(encoder: RecordingEncoder) -> OutputEncoding {
    OutputEncoding {
        encoder,
        size: [1280, 720],
        bit_rate_bits: 4_000_000,
        keyframe_seconds: 0,
        audio_codec: RecordingAudioCodec::Aac,
        audio_bit_rate_kbps: 160,
    }
}

#[test]
fn an_encoder_is_opened_at_the_composited_rate() {
    let plan = open_encoder(
        Platform::D3d11,
        OutputKind::Recording,
        60,
        &encoding(RecordingEncoder::MediaFoundation),
    );
    assert_eq!(plan.name, "record-encode");
    assert!(plan.hardware);
    assert_eq!(plan.codec, EncoderCodec::MediaFoundation);
    assert_eq!((plan.width, plan.height), (1280, 720));
    assert_eq!(plan.time_base, Rational { numerator: 1, denominator: 60 });
    assert_eq!(plan.frame_rate, Rational { numerator: 60, denominator: 1 });
    assert_eq!(plan.gop_size, 60, "a keyframe at least once a second");
    assert_eq!(plan.bit_rate, 4_000_000);
    let plan = open_encoder(
        Platform::Cuda,
        OutputKind::Broadcast,
        30,
        &encoding(RecordingEncoder::MediaFoundation),
    );
    assert_eq!(plan.name, "stream-encode");
    assert!(!plan.hardware);
    assert_eq!(plan.codec, EncoderCodec::Software(VideoCodec::OpenH264));
}

#[test]
fn a_software_choice_has_its_codec() {
    assert_eq!(software_codec(RecordingEncoder::X264), VideoCodec::H264);
    assert_eq!(software_codec(RecordingEncoder::OpenH264), VideoCodec::OpenH264);
    assert_eq!(software_codec(RecordingEncoder::Nvenc), VideoCodec::OpenH264);
}

#[test]
fn a_rate_is_whole_and_never_nothing() {
    let rate = |numerator, denominator| Some(Rational { numerator, denominator });
    assert_eq!(frame_rate(rate(60, 1), 30), 60);
    assert_eq!(frame_rate(rate(60_000, 1_001), 30), 59);
    assert_eq!(frame_rate(rate(0, 0), 30), 1);
    assert_eq!(frame_rate(rate(1, 2), 30), 1);
    assert_eq!(frame_rate(None, 30), 30);
    assert_eq!(frame_rate(None, 0), 1);
}

fn names(stages: &[Stage]) -> Vec<&str> {
    stages.iter().map(|stage| stage.name.as_str()).collect()
}

#[test]
fn a_branch_holds_only_what_its_encoder_needs() {
    let direct = attach_output(OutputKind::Recording, true, [1920, 1080], [1920, 1080]);
    assert_eq!(
        names(&direct),
        ["record-queue", "record-pause", "record-encode", "record-origin"]
    );
    let converted = attach_output(OutputKind::Broadcast, false, [1280, 720], [1920, 1080]);
    assert_eq!(
        names(&converted),
        [
            "stream-queue",
            "stream-pause",
            "stream-scale",
            "stream-download",
            "stream-convert",
            "stream-encode",
            "stream-origin",
        ]
    );
    assert_eq!(
        names(&attach_screenshot()),
        ["screenshot-queue", "screenshot-download", "screenshot-convert"]
    );
}

#[test]
fn only_encoders_that_open_are_offered() {
    let all = vec![RecordingEncoder::Nvenc, RecordingEncoder::X264, RecordingEncoder::OpenH264];
    assert_eq!(
        available_encoders(&all, &vec![false, true, true]),
        [RecordingEncoder::X264, RecordingEncoder::OpenH264]
    );
}

#[test]
fn a_kind_that_is_not_connected_says_so() {
    assert_eq!(
        unsupported_kind(SourceKind::Rtsp),
        "Rtsp is not connected to the compositor yet"
    );
    assert_eq!(open_source(Platform::Cuda, SourceKind::Drawing), Ok(()));
    assert_eq!(
        open_source(Platform::Cuda, SourceKind::Image),
        Err("Image is not connected to the compositor yet".to_owned())
    );
    assert_eq!(open_source(Platform::D3d11, SourceKind::Image), Ok(()));
    assert!(open_source(Platform::Unsupported, SourceKind::Color).is_err());
}

/// A token that was not renewed is kept, and one that was replaces it.
#[test]
fn a_token_is_replaced_only_by_another() {
    let stored = "one".to_owned();
    assert_eq!(refreshed_token(Some(&stored), None), None);
    assert_eq!(refreshed_token(Some(&stored), Some("one".to_owned())), None);
    assert_eq!(
        refreshed_token(Some(&stored), Some("two".to_owned())),
        Some("two".to_owned())
    );
    assert_eq!(refreshed_token(None, Some("two".to_owned())), Some("two".to_owned()));
    let portal = DisplayCaptureTarget::Portal { restore_token: Some(stored.clone()) };
    assert_eq!(restore_token(&portal), Some(&stored));
    assert_eq!(restore_token(&DisplayCaptureTarget::MonitorName("DP-1".to_owned())), None);
}
