//! Items that come up and go over a time of their own.
use obs_rs::fades::{Fade, ItemFades, Shown, FULL};
use obs_rs::scene::{
    ColorSourceSettings, Crop, Placement, SceneItem, SceneItemId, Size, SourceKind, SourceSettings,
    VisibilityFades,
};

const MILLIS: u64 = 1_000_000;

fn item(visible: bool, show_ms: u32, hide_ms: u32) -> SceneItem {
    SceneItem {
        id: SceneItemId(1),
        name: "Overlay".to_owned(),
        kind: SourceKind::Color,
        settings: SourceSettings::Color(ColorSourceSettings {
            size: Size { width: 100, height: 100 },
            rgba: [0, 0, 0, 255],
        }),
        source_width: 100 * 256,
        source_height: 100 * 256,
        placement: Placement {
            x: 0,
            y: 0,
            width: 100 * 256,
            height: 100 * 256,
            crop: Crop::default(),
        },
        visible,
        fades: VisibilityFades { show_ms, hide_ms },
        paused: false,
        follows_clock: false,
        filters: vec![],
    }
}

/// One pass over one item.
fn pass(fades: &mut ItemFades, item: &SceneItem, now: u64) -> Shown {
    fades.begin_pass();
    let shown = fades.observe(item, now);
    fades.end_pass();
    shown
}

fn factor(shown: Shown) -> f64 {
    f64::from(shown.factor) / f64::from(FULL)
}

#[test]
fn showing_comes_up_over_its_own_time_and_then_stops() {
    let mut fades = ItemFades::new();
    let start = 5_000 * MILLIS;
    pass(&mut fades, &item(false, 400, 0), start);

    let shown = pass(&mut fades, &item(true, 400, 0), start);
    assert!(shown.visible);
    assert_eq!(factor(shown), 0.0, "it starts from nothing");
    let half = pass(&mut fades, &item(true, 400, 0), start + 200 * MILLIS);
    assert!((factor(half) - 0.5).abs() < 1e-3);
    assert!(fades.active());

    let done = pass(&mut fades, &item(true, 400, 0), start + 400 * MILLIS);
    assert_eq!(done, Shown { visible: true, factor: FULL });
    assert!(!fades.active(), "and once it is up, nothing is left running");
}

#[test]
fn hiding_is_drawn_until_it_has_gone() {
    let mut fades = ItemFades::new();
    let start = 5_000 * MILLIS;
    pass(&mut fades, &item(true, 0, 300), start);

    let going = pass(&mut fades, &item(false, 0, 300), start + 150 * MILLIS);
    // Started this pass, so it is at its beginning here.
    assert_eq!(going, Shown { visible: true, factor: FULL });
    let item_now = item(false, 0, 300);
    assert!(fades.drawn(&item_now), "still drawn while it goes");

    let gone = pass(&mut fades, &item_now, start + 500 * MILLIS);
    assert!(!gone.visible, "and hidden once it has gone");
    assert!(!fades.drawn(&item_now));
}

#[test]
fn no_fade_is_at_once() {
    let mut fades = ItemFades::new();
    let start = 5_000 * MILLIS;
    pass(&mut fades, &item(true, 0, 0), start);
    let hidden = pass(&mut fades, &item(false, 0, 0), start);
    assert!(!hidden.visible);
    assert!(!fades.active());
}

#[test]
fn a_fade_reversed_half_way_goes_back_from_where_it_was() {
    let mut fades = ItemFades::new();
    let start = 5_000 * MILLIS;
    pass(&mut fades, &item(false, 400, 400), start);
    pass(&mut fades, &item(true, 400, 400), start);
    let reversed = pass(&mut fades, &item(false, 400, 400), start + 200 * MILLIS);
    assert!(reversed.visible);
    assert!((factor(reversed) - 0.5).abs() < 1e-3, "{}", factor(reversed));
}

#[test]
fn arriving_is_not_a_change() {
    let mut fades = ItemFades::new();
    let start = 5_000 * MILLIS;
    let first = pass(&mut fades, &item(true, 400, 400), start);
    assert_eq!(first, Shown { visible: true, factor: FULL });

    // A pass that drew something else — its scene was switched away from.
    fades.begin_pass();
    fades.end_pass();
    let back = pass(&mut fades, &item(false, 400, 400), start);
    assert!(!back.visible, "hidden while away, and drawn hidden on return");
    assert!(!fades.active());
}

/// A quarter of the way there is a quarter of the level.
#[test]
fn a_fade_moves_in_proportion_to_its_time() {
    let fade = Fade { from: 0, to: FULL, started: 1_000, duration: 400 };
    assert_eq!(fade.at(500), 0);
    assert_eq!(fade.at(1_100), FULL / 4);
    assert_eq!(fade.at(1_400), FULL);
    assert!(!fade.done(1_399));
    assert!(fade.done(1_400));
    let down = Fade { from: FULL, to: 0, started: 0, duration: 4 };
    assert_eq!(down.at(1), FULL / 4 * 3);
}

/// What was observed last is what is drawn: one going is drawn until it has
/// gone, and keeps the picture moving while it is half there.
#[test]
fn what_was_observed_is_what_is_drawn() {
    let mut fades = ItemFades::new();
    let start = 5_000 * MILLIS;
    for (visible, at) in [(true, 0), (false, 0), (false, 150), (false, 300), (true, 300)] {
        let item = item(visible, 0, 300);
        let shown = pass(&mut fades, &item, start + at * MILLIS);
        assert_eq!(fades.drawn(&item), shown.visible);
        assert!(shown.factor <= FULL);
        assert!(shown.visible || !visible);
        assert!(shown.visible || shown.factor == FULL);
        assert!(shown.factor == FULL || fades.active());
    }
    let hidden = item(false, 0, 300);
    pass(&mut fades, &hidden, start + 400 * MILLIS);
    let half = pass(&mut fades, &hidden, start + 550 * MILLIS);
    assert_eq!(half, Shown { visible: true, factor: FULL / 2 });
}
