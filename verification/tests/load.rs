//! What the outputs cost, and what every named part of the graph is doing.
use obs_rs::engine::run::{scene_reads, SourceGraph};
use obs_rs::engine::sources::{OpenSource, SourceState};
use obs_rs::load::{
    fullness, is_an_outputs, output_load, Element, ElementStats, Load, PadStats, QueueStats,
    TickStats,
};
use obs_rs::output::OutputKind;
use obs_rs::scene::{
    Crop, Placement, SceneItem, SceneItemId, SourceKind, SourceSettings, VisibilityFades,
};
use obs_rs::share::Share;
use obs_rs::stats::{
    is_an_output, name_element, share, Naming, Read, Reading, Role, SourceName, StatsRow,
    StatsSnapshot, Subject,
};
use obs_rs::table::Table;

const MILLIS: u64 = 1_000_000;
const SECOND: u64 = 1_000_000_000;

fn value(share: Share) -> f64 {
    if share.whole == 0 {
        return 0.0;
    }
    share.part as f64 / share.whole as f64
}

#[test]
fn only_an_outputs_queues_are_counted() {
    assert!(is_an_outputs("record-queue"));
    assert!(is_an_outputs("record-audio-queue"));
    assert!(is_an_outputs("stream-queue"));
    assert!(is_an_outputs("stream-audio-queue"));

    assert!(!is_an_outputs("preview-queue"));
    assert!(!is_an_outputs("monitor-queue"));
    assert!(!is_an_outputs("camera"));
}

#[test]
fn a_cumulative_reading_is_the_difference_between_two() {
    let earlier =
        Load { blocked: 120 * MILLIS, dropped: 2, fullest: Share { part: 9, whole: 10 } };
    let now = Load { blocked: 200 * MILLIS, dropped: 5, fullest: Share { part: 25, whole: 100 } };
    let over = now.since(earlier);
    assert_eq!(over.blocked, 80 * MILLIS);
    assert_eq!(over.dropped, 3);
    // The gauge is not a total and is carried through as it stands.
    assert_eq!(value(over.fullest), 0.25);
}

#[test]
fn pressure_rises_while_a_queue_fills_rather_than_waiting_for_it_to_block() {
    let filling = Load { blocked: 0, dropped: 0, fullest: Share { part: 4, whole: 8 } };
    assert_eq!(value(filling.pressure()), 0.5);
}

#[test]
fn any_blocking_reads_as_full_however_empty_the_queue_looks_now() {
    let blocked = Load { blocked: 1_000, dropped: 0, fullest: Share { part: 0, whole: 8 } };
    assert_eq!(value(blocked.pressure()), 1.0);
}

#[test]
fn a_total_that_went_backwards_reads_as_nothing_rather_than_wrapping() {
    let earlier = Load { blocked: 9 * SECOND, dropped: 9, fullest: Share { part: 1, whole: 1 } };
    let over = Load::zero().since(earlier);
    assert_eq!(over.blocked, 0);
    assert_eq!(over.dropped, 0);
    assert_eq!(value(over.pressure()), 0.0);
}

fn queue(len: u64, capacity: u64) -> QueueStats {
    QueueStats { len, capacity, dropped: 0, blocked: 0 }
}

fn element(name: &str) -> Element {
    Element {
        name: name.to_owned(),
        taken: 0,
        pushed: None,
        busy: 0,
        idle_for: None,
        errors: 0,
        queue: None,
        id: None,
        attached: false,
        bytes: 0,
        ticks: None,
    }
}

type Named = Option<(Subject, Role)>;

fn reads(pipelines: Vec<(&str, Vec<Element>)>, named: impl Fn(&Element) -> Named) -> Vec<Read> {
    let mut reads = vec![];
    for (pipeline, elements) in pipelines {
        for element in elements {
            let named = named(&element).map(|(subject, role)| Naming { subject, role });
            reads.push(Read { pipeline: pipeline.to_owned(), element, named });
        }
    }
    reads
}

/// Two readings a second apart, answering with the second.
fn read_twice<'a>(
    pipelines: impl Fn(u64) -> Vec<(&'a str, Vec<Element>)>,
    named: impl Fn(&Element) -> Named,
) -> StatsSnapshot {
    let mut reading = Reading::new(0);
    reading.take(&reads(pipelines(0), &named), 5 * SECOND);
    reading.take(&reads(pipelines(1), &named), 6 * SECOND)
}

fn twice<'a>(
    pipelines: impl Fn(u64) -> Vec<(&'a str, Vec<Element>)>,
    named: impl Fn(&Element) -> Named,
) -> Vec<StatsRow> {
    read_twice(pipelines, named).rows
}

/// A recording as the summary reads it: the video queue at its head on the
/// compositor's pipeline, its video encoder beside it, and its audio encoder
/// on the mixer's. `second` scales every total.
fn a_recording<'a>(second: u64) -> Vec<(&'a str, Vec<Element>)> {
    vec![
        (
            "preview",
            vec![
                Element {
                    taken: 60 * second,
                    errors: second,
                    queue: Some(QueueStats { dropped: 2 * second, ..queue(0, 8) }),
                    attached: true,
                    ..element("record-queue")
                },
                Element {
                    bytes: 750_000 * second,
                    attached: true,
                    ..element("record-encode")
                },
            ],
        ),
        (
            "mix",
            vec![Element {
                bytes: 20_000 * second,
                attached: true,
                ..element("record-audio-encode")
            }],
        ),
    ]
}

#[test]
fn an_outputs_totals_come_from_its_queue_and_both_of_its_encoders() {
    let snapshot = read_twice(a_recording, |_| None);
    let recording = snapshot.recording.expect("a recording is running");
    assert_eq!(recording.frames, 60);
    assert_eq!(
        recording.lost, 3,
        "thrown away, and given up on after waiting — both never reached the file"
    );
    assert_eq!(recording.bytes, 770_000);
    let rate = recording.bitrate.expect("a second reading has a rate");
    let bitrate = rate.bits as f64 / (rate.nanos as f64 / SECOND as f64);
    assert!(
        (bitrate - 6_160_000.0).abs() < 100_000.0,
        "770 kB in about a second is about 6.2 Mb/s: {bitrate}"
    );
    assert_eq!(snapshot.broadcast, None, "and nothing is being broadcast");
}

#[test]
fn a_finished_outputs_draining_branch_is_not_a_running_output() {
    let snapshot = read_twice(
        |second| {
            let mut pipelines = a_recording(second);
            for (_, elements) in &mut pipelines {
                for element in elements {
                    element.attached = false;
                }
            }
            pipelines
        },
        |_| None,
    );
    assert_eq!(snapshot.recording, None);
}

#[test]
fn an_outputs_first_reading_has_no_bitrate() {
    let mut reading = Reading::new(0);
    let snapshot = reading.take(&reads(a_recording(10), |_| None), SECOND);
    assert_eq!(snapshot.recording.map(|r| r.bitrate), Some(None));
}

#[test]
fn the_time_a_frame_takes_to_draw_is_measured_between_two_readings() {
    let snapshot = read_twice(
        |second| {
            vec![(
                "preview",
                vec![Element {
                    ticks: Some(TickStats {
                        made: 60 * second,
                        missed: second,
                        work: 18 * second * MILLIS,
                    }),
                    ..element("preview-compositor")
                }],
            )]
        },
        |_| None,
    );
    let rendering = snapshot.rendering.expect("the compositor reports its ticks");
    assert_eq!((rendering.made, rendering.missed), (60, 1));
    assert_eq!(rendering.frame_time, Some(300_000));
}

fn of_a_recording(element: &Element) -> Named {
    Some((
        Subject::Recording,
        if element.queue.is_some() { Role::Cost } else { Role::Throughput },
    ))
}

#[test]
fn an_outputs_elements_fold_into_one_row() {
    let rows = twice(
        |second| {
            vec![(
                "preview",
                vec![
                    Element {
                        taken: 60 * second,
                        busy: 300 * second * MILLIS,
                        queue: Some(queue(2, 8)),
                        ..element("record-queue")
                    },
                    Element { taken: 60 * second, ..element("record-video") },
                ],
            )]
        },
        of_a_recording,
    );
    assert_eq!(rows.len(), 1);
    assert_eq!(rows[0].buffers, Some(60));
    assert!(
        (value(rows[0].busy.unwrap()) - 0.3).abs() < 0.01,
        "{:?}",
        rows[0].busy
    );
    assert_eq!(rows[0].queue.map(value), Some(0.25));
}

#[test]
fn elements_of_two_pipelines_sharing_a_name_do_not_measure_each_other() {
    let rows = twice(
        |second| {
            vec![
                ("preview", vec![Element { taken: 1_000 * second, ..element("shared") }]),
                ("scene-item-1", vec![Element { taken: 30 * second, ..element("shared") }]),
            ]
        },
        |element| Some((Subject::Source(element.name.to_owned()), Role::Throughput)),
    );
    // Both pipelines name the same subject, so the row is the busier of them —
    // and crucially 1000, not 1000 plus the difference between the two totals.
    assert_eq!(rows.len(), 1);
    assert_eq!(rows[0].buffers, Some(1_000));
}

#[test]
fn an_element_asked_only_for_throughput_contributes_no_cost() {
    let rows = twice(
        |second| {
            vec![(
                "scene-item-1",
                vec![Element {
                    taken: 30 * second,
                    busy: second * SECOND,
                    queue: Some(queue(8, 8)),
                    ..element("scene-item-1")
                }],
            )]
        },
        |_| Some((Subject::Source("Clip".to_owned()), Role::Throughput)),
    );
    assert_eq!(rows[0].buffers, Some(30));
    assert!(rows[0].busy.is_none());
    assert!(rows[0].queue.is_none());
}

#[test]
fn what_a_source_element_made_counts_as_what_it_handled() {
    let rows = twice(
        |second| {
            vec![(
                "preview",
                vec![Element {
                    taken: 0,
                    pushed: Some(60 * second),
                    ..element("preview-compositor")
                }],
            )]
        },
        |_| Some((Subject::Compositor, Role::Throughput)),
    );
    assert_eq!(rows[0].buffers, Some(60));
}

#[test]
fn an_element_nobody_named_is_left_out() {
    let rows = twice(|_| vec![("preview", vec![element("preview-rate")])], |_| None);
    assert!(rows.is_empty());
}

#[test]
fn the_first_reading_of_something_shows_no_rate_rather_than_all_of_it() {
    let mut reading = Reading::new(0);
    let pipelines =
        vec![("preview", vec![Element { taken: 100_000, ..element("record-video") }])];
    let reads = reads(pipelines, |_| Some((Subject::Recording, Role::Throughput)));
    let snapshot = reading.take(&reads, SECOND);
    assert_eq!(snapshot.rows[0].buffers, Some(0));
}

#[test]
fn a_rows_idle_time_is_that_of_its_busiest_part() {
    let rows = twice(
        |_| {
            vec![(
                "preview",
                vec![
                    Element {
                        idle_for: Some(4 * MILLIS),
                        queue: Some(queue(0, 8)),
                        ..element("record-queue")
                    },
                    Element { idle_for: Some(9 * SECOND), ..element("record-video") },
                ],
            )]
        },
        of_a_recording,
    );
    assert_eq!(rows[0].idle_for, Some(4 * MILLIS));
}

fn called(subject: &Subject) -> String {
    match subject {
        Subject::Compositor => "compositor".to_owned(),
        Subject::Recording => "recording".to_owned(),
        Subject::Broadcast => "broadcast".to_owned(),
        Subject::Source(name) => format!("source {name}"),
    }
}

#[test]
fn rows_are_ordered_by_what_they_are_rather_than_by_when_they_were_read() {
    let rows = twice(
        |_| {
            vec![(
                "preview",
                vec![
                    element("zebra"),
                    element("stream"),
                    element("apple"),
                    element("compositor"),
                ],
            )]
        },
        |element| {
            let subject = match element.name.as_str() {
                "compositor" => Subject::Compositor,
                "stream" => Subject::Broadcast,
                name => Subject::Source(name.to_owned()),
            };
            Some((subject, Role::Throughput))
        },
    );
    let order: Vec<String> = rows.iter().map(|row| called(&row.subject)).collect();
    assert_eq!(order, ["compositor", "broadcast", "source apple", "source zebra"]);
}

#[test]
fn a_queue_with_no_room_at_all_is_not_full() {
    assert_eq!(value(fullness(queue(0, 0))), 0.0);
    assert_eq!(value(fullness(queue(6, 8))), 0.75);
}

#[test]
fn a_share_of_no_time_is_nothing() {
    assert_eq!(value(share(5, 0)), 0.0);
    assert_eq!(value(share(250, 1_000)), 0.25);
}

#[test]
fn both_graphs_outputs_are_added_together() {
    let preview = vec![
        Element {
            queue: Some(QueueStats { blocked: 7, ..queue(2, 8) }),
            ..element("record-queue")
        },
        Element {
            queue: Some(QueueStats { blocked: 99, ..queue(8, 8) }),
            ..element("preview-queue")
        },
    ];
    let audio = Load { blocked: 5, dropped: 1, fullest: Share { part: 3, whole: 4 } };
    let (pressure, total) = output_load(&preview, Some(audio), Load::zero());
    assert_eq!(total.blocked, 12);
    assert_eq!(total.dropped, 1);
    assert_eq!(value(pressure), 1.0);
    // Nothing more was held up since.
    let (pressure, _) = output_load(&preview, Some(audio), total);
    assert_eq!(value(pressure), 0.75);
}

#[test]
fn every_element_is_named_for_the_row_it_is_part_of() {
    let sources =
        vec![SourceName { element: "scene-item-4".to_owned(), name: "Camera".to_owned() }];
    let named = |element: &Element| {
        name_element(element, &sources).map(|naming| (called(&naming.subject), naming.role))
    };
    assert_eq!(
        named(&element("preview-compositor")),
        Some(("compositor".to_owned(), Role::Throughput))
    );
    assert_eq!(
        named(&Element { queue: Some(queue(0, 8)), ..element("record-queue") }),
        Some(("recording".to_owned(), Role::Cost))
    );
    assert_eq!(
        named(&element("stream-video")),
        Some(("broadcast".to_owned(), Role::Throughput))
    );
    assert_eq!(
        named(&element("scene-item-4")),
        Some(("source Camera".to_owned(), Role::Throughput))
    );
    // The head of a source feeds something, and is not what reached the canvas.
    assert_eq!(named(&Element { pushed: Some(1), ..element("scene-item-4") }), None);
    assert_eq!(named(&element("preview-rate")), None);
    assert!(is_an_output("stream-queue"));
    assert!(is_an_output(OutputKind::Recording.prefix()));
}

fn stats_of(name: &str, pads: Vec<PadStats>) -> ElementStats {
    ElementStats {
        name: name.to_owned(),
        id: 3,
        attached: true,
        buffers_in: 5,
        pads,
        busy: 0,
        idle_for: None,
        errors: 0,
        queue: None,
        ticks: None,
    }
}

/// The busiest port counts, and a branch that ends has none.
#[test]
fn an_element_is_read_by_its_busiest_port() {
    let pads = vec![
        PadStats { buffers: 4, bytes: 10 },
        PadStats { buffers: 9, bytes: 7 },
    ];
    let read = Element::of(&stats_of("tee", pads));
    assert_eq!(read.pushed, Some(9));
    assert_eq!(read.bytes, 10);
    assert_eq!(read.taken, 5);
    assert_eq!(Element::of(&stats_of("sink", vec![])).pushed, None);
}

fn scene_item(id: i64, name: &str) -> SceneItem {
    SceneItem {
        id: SceneItemId(id),
        name: name.to_owned(),
        kind: SourceKind::Image,
        settings: SourceSettings::Plain { size_hint: None },
        source_width: 256,
        source_height: 256,
        placement: Placement { x: 0, y: 0, width: 256, height: 256, crop: Crop::default() },
        visible: true,
        fades: VisibilityFades { show_ms: 0, hide_ms: 0 },
        paused: false,
        follows_clock: false,
        filters: vec![],
    }
}

/// The compositor is read first, and then each source of the scene that runs.
#[test]
fn a_reading_covers_the_compositor_and_every_running_source() {
    let mut open: Table<SourceState> = Table::new();
    open.insert(
        1,
        SourceState::Open(OpenSource {
            running: true,
            showing: true,
            has_rack: false,
            media_file: false,
            filters: vec![],
        }),
    );
    open.insert(2, SourceState::Opening);
    let items = vec![scene_item(2, "Waiting"), scene_item(1, "Camera")];
    let graphs = vec![
        SourceGraph { id: SceneItemId(1), stats: vec![stats_of("scene-item-1", vec![])] },
        SourceGraph { id: SceneItemId(2), stats: vec![stats_of("scene-item-2", vec![])] },
    ];
    let compositor =
        vec![stats_of("preview-compositor", vec![PadStats { buffers: 60, bytes: 0 }])];
    let (names, reads) = scene_reads(&open, &items, &compositor, &graphs);
    assert_eq!(names.len(), 1);
    assert_eq!(names[0].element, "scene-item-1");
    assert_eq!(names[0].name, "Camera");
    let seen: Vec<(&str, &str)> = reads
        .iter()
        .map(|read| (read.pipeline.as_str(), read.element.name.as_str()))
        .collect();
    assert_eq!(seen, [("preview", "preview-compositor"), ("scene-item-1", "scene-item-1")]);
    assert!(reads.iter().all(|read| read.named.is_some()));
}

/// A row is the most, the least and the sum of what its elements say, each
/// asked only for what it is named for.
#[test]
fn a_row_is_what_its_elements_come_to() {
    let rows = twice(
        |second| {
            vec![
                (
                    "preview",
                    vec![
                        Element {
                            busy: 100 * second * MILLIS,
                            queue: Some(queue(6, 8)),
                            errors: 2,
                            ..element("record-queue")
                        },
                        Element {
                            busy: 400 * second * MILLIS,
                            queue: Some(queue(1, 2)),
                            idle_for: Some(7),
                            errors: 3,
                            ..element("record-audio-queue")
                        },
                    ],
                ),
                (
                    "sink",
                    vec![
                        Element { taken: 20 * second, idle_for: Some(3), ..element("a") },
                        Element { pushed: Some(50 * second), errors: 1, ..element("b") },
                    ],
                ),
            ]
        },
        of_a_recording,
    );
    assert_eq!(rows.len(), 1);
    assert_eq!(rows[0].buffers, Some(50));
    assert_eq!(rows[0].busy, Some(Share { part: 400 * MILLIS, whole: SECOND }));
    assert_eq!(rows[0].queue, Some(Share { part: 6, whole: 8 }));
    assert_eq!(rows[0].idle_for, Some(3));
    assert_eq!(rows[0].errors, 6);
}

/// A rate needs two readings of one run: one that was built again, or that
/// comes back after it was gone, starts without one.
#[test]
fn a_rate_needs_two_readings_of_one_run() {
    fn run(id: u64, bytes: u64) -> Vec<(&'static str, Vec<Element>)> {
        vec![(
            "preview",
            vec![
                Element {
                    id: Some(id),
                    attached: true,
                    queue: Some(queue(0, 8)),
                    ..element("record-queue")
                },
                Element { attached: true, bytes, ..element("record-encode") },
            ],
        )]
    }
    let mut reading = Reading::new(0);
    let mut take = |graph: Vec<(&str, Vec<Element>)>, now: u64| {
        reading.take(&reads(graph, |_| None), now).recording.map(|shown| {
            shown.bitrate.map(|rate| (rate.bits, rate.nanos))
        })
    };
    assert_eq!(take(run(1, 500), SECOND), Some(None), "the first has none");
    assert_eq!(take(run(1, 1_500), 2 * SECOND), Some(Some((8_000, SECOND))));
    assert_eq!(take(run(1, 1_500), 2 * SECOND), Some(None), "no time has passed");
    assert_eq!(take(run(2, 100), 3 * SECOND), Some(None), "built again");
    assert_eq!(take(run(2, 200), 4 * SECOND), Some(Some((800, SECOND))));
    assert_eq!(take(vec![], 5 * SECOND), None, "gone");
    assert_eq!(take(run(2, 300), 6 * SECOND), Some(None), "and back");
}

/// Reading two graphs together is merging what each reads, in either order, and
/// what is no output's queue adds nothing.
#[test]
fn reading_together_is_merging() {
    let outputs_queue = |name: &str, blocked: u64, dropped: u64, len: u64| Element {
        queue: Some(QueueStats { len, capacity: 8, dropped, blocked }),
        ..element(name)
    };
    let a = || {
        vec![outputs_queue("record-queue", 5, 1, 2), outputs_queue("preview-queue", 9, 9, 8)]
    };
    let b = || vec![element("stream-video"), outputs_queue("stream-audio-queue", 7, 2, 6)];
    let together = Load::read(&a().into_iter().chain(b()).collect());
    let turned = Load::read(&b().into_iter().chain(a()).collect());
    assert_eq!(together, Load::read(&a()).merge(Load::read(&b())));
    assert_eq!(together, turned);
    let expected = Load { blocked: 12, dropped: 3, fullest: Share { part: 6, whole: 8 } };
    assert_eq!(together, expected);
    assert_eq!(Load::read(&vec![]), Load::zero());
    assert_eq!(Load::read(&a()), Load::read(&vec![outputs_queue("record-queue", 5, 1, 2)]));
}
