//! What is put in a channel's rack, and what is only retuned.
use obs_rs::audio::filters::{
    bridge, compressor_options, gate_options, limiter_options, shape, AudioCompressorOptions,
    AudioFilter, AudioFilterId, AudioFilterKind, AudioFilterRack, AudioFilterSettings, AudioFormat,
    AudioGateOptions, AudioLimiterOptions, CompressorSettings, ElementOptions, LimiterSettings,
    NoiseGateSettings, RackStep, SampleFormat, Shaped,
};

fn filter(id: i64, enabled: bool, settings: AudioFilterSettings) -> AudioFilter {
    AudioFilter { id: AudioFilterId(id), enabled, settings }
}

fn format(sample_format: SampleFormat, rate: u32) -> AudioFormat {
    AudioFormat { sample_format, sample_rate: rate, channels: 2 }
}

fn gate(open: i64) -> AudioFilterSettings {
    AudioFilterSettings::NoiseGate(NoiseGateSettings {
        open_threshold: open,
        close_threshold: open - 6_000_000,
        attack_ms: 25,
        hold_ms: 200,
        release_ms: 150,
    })
}

const F32: SampleFormat = SampleFormat::F32;
const I16: SampleFormat = SampleFormat::I16;

#[test]
fn a_capture_every_filter_takes_is_not_converted() {
    let suppress = filter(1, true, AudioFilterSettings::NoiseSuppression);
    assert_eq!(bridge(format(F32, 48_000), &vec![suppress]), None);
    let gate = filter(2, true, gate(-26_000_000));
    assert_eq!(bridge(format(F32, 44_100), &vec![gate]), None, "a gate takes any rate");
    assert_eq!(bridge(format(I16, 44_100), &vec![]), None, "nothing to convert for");
}

#[test]
fn a_capture_a_filter_cannot_take_is_converted_to_what_it_can() {
    let suppress = filter(1, true, AudioFilterSettings::NoiseSuppression);
    assert_eq!(
        bridge(format(F32, 44_100), &vec![suppress]),
        Some(format(F32, 48_000))
    );
    let gate = filter(2, true, gate(-26_000_000));
    assert_eq!(
        bridge(format(I16, 44_100), &vec![gate]),
        Some(format(F32, 44_100)),
        "the rate is left alone when nothing needs it changed"
    );
}

#[test]
fn only_what_is_on_and_its_order_decide_a_refill() {
    let before = vec![
        filter(1, true, AudioFilterSettings::NoiseSuppression),
        filter(2, true, gate(-26_000_000)),
    ];
    let retuned = vec![
        filter(1, true, AudioFilterSettings::NoiseSuppression),
        filter(2, true, gate(-40_000_000)),
    ];
    let off = vec![
        filter(1, false, AudioFilterSettings::NoiseSuppression),
        filter(2, true, gate(-26_000_000)),
    ];
    assert_eq!(shape(&before), shape(&retuned));
    assert_ne!(shape(&before), shape(&off));
    assert_eq!(
        shape(&off),
        [Shaped { id: AudioFilterId(2), kind: AudioFilterKind::NoiseGate }]
    );
}

#[test]
fn options_carry_the_settings_with_their_times_in_nanoseconds() {
    assert_eq!(
        gate_options(NoiseGateSettings {
            open_threshold: -26_000_000,
            close_threshold: -32_000_000,
            attack_ms: 25,
            hold_ms: 200,
            release_ms: 150,
        }),
        AudioGateOptions {
            open_threshold: -26_000_000,
            close_threshold: -32_000_000,
            attack: 25_000_000,
            hold: 200_000_000,
            release: 150_000_000,
        }
    );
    assert_eq!(
        compressor_options(CompressorSettings {
            threshold: -18_000_000,
            ratio: 10_000_000,
            attack_ms: 6,
            release_ms: 60,
            output_gain: 0,
        }),
        AudioCompressorOptions {
            threshold: -18_000_000,
            ratio: 10_000_000,
            attack: 6_000_000,
            release: 60_000_000,
            output_gain: 0,
        }
    );
    assert_eq!(
        limiter_options(LimiterSettings { threshold: -6_000_000, release_ms: 60 }),
        AudioLimiterOptions { threshold: -6_000_000, release: 60_000_000 }
    );
}

/// A chain is built once and retuned after: the second time the same filters
/// arrive, only their options are handed over.
#[test]
fn a_rack_is_replaced_once_and_retuned_after() {
    let mut rack = AudioFilterRack::new("audio-1", format(I16, 44_100));
    let filters = vec![
        filter(1, true, AudioFilterSettings::NoiseSuppression),
        filter(2, true, gate(-26_000_000)),
    ];
    match rack.apply(&filters) {
        RackStep::Replace(elements) => {
            let names: Vec<&str> = elements.iter().map(|element| element.name.as_str()).collect();
            assert_eq!(names.len(), 3);
            assert_eq!(names[0], "audio-1-filter-format");
            assert_eq!(
                elements[0].options,
                ElementOptions::Resampler(format(F32, 48_000), 44_100)
            );
            assert_eq!(elements[1].options, ElementOptions::NoiseSuppressor);
        }
        RackStep::Retune(_) => panic!("an empty rack has nothing to retune"),
    }
    rack.replaced(&filters);
    match rack.apply(&filters) {
        RackStep::Retune(tunings) => {
            assert_eq!(tunings.len(), 1, "noise suppression has nothing to tune");
            assert_eq!(tunings[0].id, AudioFilterId(2));
        }
        RackStep::Replace(_) => panic!("nothing about the chain has changed"),
    }
}

#[test]
fn a_filter_is_retuned_only_where_it_runs() {
    let mut rack = AudioFilterRack::new("audio-1", format(F32, 48_000));
    rack.replaced(&vec![filter(2, true, gate(-26_000_000))]);
    assert!(rack.retune(AudioFilterId(2), gate(-40_000_000)).is_some());
    assert_eq!(rack.retune(AudioFilterId(3), gate(-40_000_000)), None);
    let limiter =
        AudioFilterSettings::Limiter(LimiterSettings { threshold: 0, release_ms: 60 });
    assert_eq!(rack.retune(AudioFilterId(2), limiter), None);
}

/// What is stored is what the element takes, whatever the sliders were left
/// at: a gate closes no higher than it opens, and a compressor's ratio is at
/// least one. Every level of a limiter's is taken.
#[test]
fn stored_gate_settings_are_always_ones_the_gate_takes() {
    let settings = NoiseGateSettings {
        open_threshold: -40_000_000,
        close_threshold: -10_000_000,
        attack_ms: 25,
        hold_ms: 200,
        release_ms: 150,
    };
    let gate = gate_options(settings);
    assert!(gate.close_threshold <= gate.open_threshold);
    assert_eq!(
        gate,
        AudioGateOptions {
            open_threshold: -40_000_000,
            close_threshold: -40_000_000,
            attack: 25_000_000,
            hold: 200_000_000,
            release: 150_000_000,
        }
    );
    let compressor = compressor_options(CompressorSettings {
        threshold: i64::MIN,
        ratio: 0,
        attack_ms: 6,
        release_ms: 60,
        output_gain: 0,
    });
    assert!(compressor.ratio >= 1_000_000);
    assert_eq!(compressor.ratio, 1_000_000);
    assert_eq!(compressor.threshold, i64::MIN);
    let limiter = limiter_options(LimiterSettings { threshold: i64::MIN, release_ms: 60 });
    assert_eq!(limiter, AudioLimiterOptions { threshold: i64::MIN, release: 60_000_000 });
}

/// Nothing a chain is built of, and nothing it is retuned to, is out of range.
#[test]
fn a_rack_is_never_handed_what_an_element_refuses() {
    let upside_down = AudioFilterSettings::NoiseGate(NoiseGateSettings {
        open_threshold: -40_000_000,
        close_threshold: -10_000_000,
        attack_ms: 1,
        hold_ms: 2,
        release_ms: 3,
    });
    let filters = vec![filter(1, true, upside_down)];
    let mut rack = AudioFilterRack::new("audio-1", format(F32, 48_000));
    let level = AudioGateOptions {
        open_threshold: -40_000_000,
        close_threshold: -40_000_000,
        attack: 1_000_000,
        hold: 2_000_000,
        release: 3_000_000,
    };
    match rack.apply(&filters) {
        RackStep::Replace(elements) => {
            assert_eq!(elements.len(), 1);
            assert_eq!(elements[0].options, ElementOptions::Gate(level));
        }
        RackStep::Retune(_) => panic!("an empty rack has nothing to retune"),
    }
    rack.replaced(&filters);
    assert_eq!(rack.retune(AudioFilterId(1), upside_down), Some(ElementOptions::Gate(level)));
}
