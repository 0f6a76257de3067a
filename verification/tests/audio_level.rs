//! What a meter shows, and how often anyone is asked to draw it.
use obs_rs::audio::level::{
    level_bits, loudest, reading, AudioSourceId, Levels, Meter, MeterWake, DECAY_PER_SECOND,
    METER_FLOOR, METER_INTERVAL,
};
use std::time::Instant;

/// The level of a sample, in millionths of a decibel.
fn peak(sample: f64) -> i64 {
    if sample <= 0.0 {
        return METER_FLOOR;
    }
    ((20.0 * sample.log10() * 1_000_000.0).round() as i64).max(METER_FLOOR)
}

/// A meter, and everything it is drawn by.
struct Watched {
    meter: Meter,
    wake: MeterWake,
    started: Instant,
    woken: usize,
}

fn meter() -> Watched {
    Watched { meter: Meter::new(), wake: MeterWake::new(), started: Instant::now(), woken: 0 }
}

impl Watched {
    /// `seconds` of mono audio at 48 kHz, every sample at `loudest`.
    fn measure(&mut self, loudest: f64, seconds: f64) {
        let now = MeterWake::now(self.started.elapsed().as_nanos());
        let samples = (48_000.0 * seconds) as u64;
        if self.meter.measure(peak(loudest), samples, 48_000, &mut self.wake, now) {
            self.woken += 1;
        }
    }

    fn shown(&self) -> f64 {
        self.meter.shown() as f64 / 1_000_000.0
    }
}

#[test]
fn a_meter_rises_at_once_and_falls_by_the_length_of_what_follows() {
    let mut watched = meter();

    // Half of full scale is about -6 dB.
    watched.measure(0.5, 0.01);
    let loud = watched.shown();
    assert!((loud + 6.02).abs() < 0.01, "rose straight to {loud}");

    // Half a second of silence takes half the decay rate off it.
    watched.measure(0.0, 0.5);
    let expected = loud - DECAY_PER_SECOND as f64 / 1_000_000.0 * 0.5;
    assert!(
        (watched.shown() - expected).abs() < 0.01,
        "fell to {} where {expected} was due",
        watched.shown()
    );

    // Something louder than where it has fallen to wins outright.
    watched.measure(1.0, 0.01);
    assert_eq!(watched.shown(), 0.0);
}

#[test]
fn a_loud_buffer_is_still_showing_after_a_quiet_one() {
    let mut watched = meter();
    watched.measure(1.0, 0.01);
    watched.measure(0.001, 0.01);
    assert!(
        watched.shown() > -1.0,
        "ten milliseconds later the loud one is still most of it, got {}",
        watched.shown()
    );
}

#[test]
fn full_scale_is_stored_as_a_measurement() {
    let stored = level_bits(0.0f32.to_bits());
    assert_ne!(stored, 0, "zero bits would read as no reading");
    assert_eq!(f32::from_bits(stored), 0.0);
    assert!(
        f32::from_bits(stored) >= 0.0,
        "and it still counts as reaching full scale for the clip lamp"
    );

    let mut watched = meter();
    watched.measure(1.0, 0.01);
    let level = watched.shown() as f32;
    assert_ne!(level_bits(level.to_bits()), 0);
}

#[test]
fn a_silent_meter_never_wakes_the_ui() {
    let mut watched = meter();
    for _ in 0..100 {
        watched.measure(0.0, 0.01);
    }
    assert_eq!(watched.woken, 0);
    assert_eq!(watched.meter.shown(), METER_FLOOR);
}

#[test]
fn a_moving_meter_wakes_the_ui_no_more_often_than_the_interval() {
    let mut watched = meter();
    let started = watched.started;
    for _ in 0..100 {
        watched.measure(0.5, 0.01);
    }
    let allowed = started.elapsed().as_nanos() / u128::from(METER_INTERVAL) + 1;
    let woken = watched.woken as u128;
    assert!(woken >= 1, "a meter that moved must be drawn");
    assert!(woken <= allowed, "{woken} wakes where the interval allows {allowed}");
}

#[test]
fn coming_to_rest_always_wakes_the_ui() {
    let mut watched = meter();
    watched.measure(1.0, 0.01);
    let before = watched.woken;

    // Four seconds of silence is more than the whole scale's fall, and it
    // arrives well inside the interval the wake above started.
    watched.measure(0.0, 4.0);
    assert_eq!(watched.meter.shown(), METER_FLOOR);
    assert_eq!(watched.woken, before + 1);
}

/// A level past full scale is shown as one.
#[test]
fn a_meter_shows_what_is_past_full_scale() {
    let mut watched = meter();
    watched.measure(2.0, 0.01);
    assert!((watched.shown() - 6.0206).abs() < 0.01);
}

/// Half a second at twenty decibels a second is ten.
#[test]
fn a_meter_falls_by_twenty_decibels_a_second() {
    let mut wake = MeterWake::new();
    let mut meter = Meter::new();
    assert!(meter.measure(0, 480, 48_000, &mut wake, 1));
    meter.measure(METER_FLOOR, 24_000, 48_000, &mut wake, 2);
    assert_eq!(meter.shown(), -10_000_000);
    // A rate of nothing counts as one.
    meter.measure(METER_FLOOR, 1, 0, &mut wake, 3);
    assert_eq!(meter.shown(), -30_000_000);
}

#[test]
fn a_wake_inside_the_interval_is_dropped() {
    let mut wake = MeterWake::new();
    assert!(wake.wake(1));
    assert!(!wake.wake(METER_INTERVAL));
    assert!(wake.wake(METER_INTERVAL + 1));
    wake.wake_regardless(METER_INTERVAL + 2);
    assert!(!wake.wake(2 * METER_INTERVAL + 1));
}

#[test]
fn no_moment_is_zero() {
    assert_eq!(MeterWake::now(0), 1);
    assert_eq!(MeterWake::now(u128::from(u64::MAX)), u64::MAX);
}

#[test]
fn nothing_reads_as_no_reading() {
    assert_eq!(reading(0), None);
    assert_eq!(reading(level_bits(0)), Some(0x8000_0000));
    assert_eq!(reading((-6.0f32).to_bits()), Some((-6.0f32).to_bits()));
}

#[test]
fn the_loudest_sample_counts_whatever_its_sign() {
    assert_eq!(loudest(&vec![]), 0);
    assert_eq!(loudest(&vec![3, -7, 5]), 7);
    assert_eq!(loudest(&vec![i16::MIN, i16::MAX]), 32_768);
}

#[test]
fn a_counter_is_read_while_its_source_runs() {
    let mut levels: Levels<u32> = Levels::new();
    levels.track(AudioSourceId(4), 9);
    assert_eq!(levels.counter(AudioSourceId(4)), Some(&9));
    assert!(levels.is_running(AudioSourceId(4)));
    levels.forget(AudioSourceId(4));
    assert!(!levels.is_running(AudioSourceId(4)));
    assert_eq!(levels.counter(AudioSourceId(4)), None);
}

/// Reporting one source touches no other, and full scale reads back as a level.
#[test]
fn one_sources_level_is_its_own() {
    let (a, b) = (AudioSourceId(4), AudioSourceId(5));
    let mut levels: Levels<u32> = Levels::new();
    assert!(!levels.is_running(a));
    assert_eq!(levels.peak_db(a), None);
    levels.track(b, 9);
    levels.track(a, 0);
    assert!(levels.is_running(a));
    assert_eq!(levels.peak_db(a), None, "nothing was measured yet");
    levels.track(a, level_bits(0.0f32.to_bits()));
    assert_eq!(levels.peak_db(a).map(f32::from_bits), Some(0.0));
    levels.forget(a);
    assert_eq!((levels.is_running(a), levels.peak_db(a)), (false, None));
    assert_eq!((levels.is_running(b), levels.peak_db(b)), (true, Some(9)));
}

/// The first wake is let through however soon it comes, and the interval runs
/// from the last wake, whichever way that came.
#[test]
fn a_wake_waits_for_the_interval_since_the_last() {
    let mut wake = MeterWake::new();
    let asks = [(1, true), (2, false), (METER_INTERVAL, false), (METER_INTERVAL + 1, true)];
    for (now, woken) in asks {
        assert_eq!(wake.wake(now), woken, "at {now}");
    }
    wake.wake_regardless(METER_INTERVAL + 5);
    assert!(!wake.wake(2 * METER_INTERVAL + 4));
    assert!(wake.wake(2 * METER_INTERVAL + 5));
}

/// A meter at rest asks for nothing, and asks once more when it comes to rest.
#[test]
fn a_meter_asks_only_while_it_moves() {
    let mut wake = MeterWake::new();
    let mut meter = Meter::new();
    assert!(!meter.measure(METER_FLOOR, 480, 48_000, &mut wake, 1));
    assert!(meter.measure(-1, 480, 48_000, &mut wake, 2));
    assert!(!meter.measure(-1, 480, 48_000, &mut wake, 3), "inside the interval");
    assert!(meter.measure(METER_FLOOR, 480_000, 48_000, &mut wake, 4), "coming to rest");
    assert_eq!(meter.shown(), METER_FLOOR);
    assert!(!meter.measure(METER_FLOOR, 480, 48_000, &mut wake, 5 + METER_INTERVAL));
}
