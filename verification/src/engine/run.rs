//! The engine's loop: what it begins with, what one turn of it comes to, and
//! what it leaves behind.
use vstd::prelude::*;
use vstd::string::*;

use crate::engine::commands::Engine;
use crate::engine::outputs::{Broadcast, OutputState, Outputs, Published};
use crate::engine::sources::{self, SourceAction, SourceState};
use crate::load::{Element, ElementStats};
use crate::scene::{Scene, SceneItem, SceneItemId};
use crate::settings::OutputSettings;
use crate::stats::{self, name_element, Read, SourceName};
use crate::table::Table;
use crate::text::{self, decimal_of_i64, joined};

verus! {

/// How often the preview is redrawn at most, in frames a second.
pub const PREVIEW_FPS: u32 = 30;

/// How long the loop waits to be asked for something, in nanoseconds.
pub const COMMAND_WAIT: u64 = 100_000_000;

/// How long the compositor's rate is measured over, in nanoseconds.
pub const RATE_WINDOW: u64 = 1_000_000_000;

/// A rate that can be composited at: never nothing.
pub open spec fn usable_rate(fps: u32) -> u32 {
    if fps == 0 {
        1
    } else {
        fps
    }
}

/// The rates the compositor and the preview run at. The preview's is never
/// above what is composited.
pub fn start_rates(fps: u32) -> (r: (u32, u32))
    ensures
        r.0 == usable_rate(fps),
        fps == 0 ==> r.0 == 1 && r.1 == 1,
        0 < fps <= 30 ==> r.0 == fps && r.1 == fps,
        fps > 30 ==> r.0 == fps && r.1 == 30,
        r.1 == (if usable_rate(fps) < PREVIEW_FPS {
            usable_rate(fps)
        } else {
            PREVIEW_FPS
        }),
{
    let composited: u32 = if fps == 0 {
        1
    } else {
        fps
    };
    let previewed: u32 = if composited < PREVIEW_FPS {
        composited
    } else {
        PREVIEW_FPS
    };
    (composited, previewed)
}

/// Frames over a time.
#[derive(Clone, Copy, Debug, PartialEq, Eq, Structural)]
pub struct MeasuredRate {
    pub frames: u32,
    pub nanos: u64,
}

/// Counts composited frames over a rolling window.
#[derive(Clone, Copy, Debug, PartialEq, Eq, Structural)]
pub struct FrameRate {
    pub window_start: u64,
    pub frames: u32,
}

impl FrameRate {
    /// A window that begins now.
    pub fn new(now: u64) -> (r: Self)
        ensures
            r.window_start == now,
            r.frames == 0,
    {
        FrameRate { window_start: now, frames: 0 }
    }

    /// Counts one frame. Answers what was measured where the window is full,
    /// and begins the next.
    pub fn tick(&mut self, now: u64) -> (r: Option<MeasuredRate>)
        requires
            old(self).frames < u32::MAX,
        ensures
            r is Some <==> now - old(self).window_start >= 1_000_000_000,
            r matches Some(measured) ==> measured.nanos == now - old(self).window_start,
            match r {
                Some(measured) => {
                    &&& sources::waited(old(self).window_start, now) >= RATE_WINDOW
                    &&& measured.frames == old(self).frames + 1
                    &&& measured.nanos == sources::waited(old(self).window_start, now)
                    &&& final(self).window_start == now
                    &&& final(self).frames == 0
                },
                None => {
                    &&& sources::waited(old(self).window_start, now) < RATE_WINDOW
                    &&& final(self).window_start == old(self).window_start
                    &&& final(self).frames == old(self).frames + 1
                },
            },
    {
        self.frames = self.frames + 1;
        let elapsed: u64 = now.saturating_sub(self.window_start);
        if elapsed < RATE_WINDOW {
            return None;
        }
        let measured = MeasuredRate { frames: self.frames, nanos: elapsed };
        self.window_start = now;
        self.frames = 0;
        Some(measured)
    }
}

/// What one composited frame comes to.
#[derive(Clone, Copy, Debug, PartialEq, Eq, Structural)]
pub struct FramePublished {
    /// The texture to show, where the preview drew into one.
    pub texture: Option<u64>,
    /// The rate to show, where one has been measured.
    pub rate: Option<MeasuredRate>,
    /// Whether anyone has to be woken.
    pub wake: bool,
}

/// Takes one composited frame. Every frame counts towards the rate, and only
/// one the preview drew is worth waking anyone for.
pub fn publish_frame(rate: &mut FrameRate, texture: Option<u64>, now: u64) -> (r: FramePublished)
    requires
        old(rate).frames < u32::MAX,
    ensures
        r.texture == texture,
        r.wake == texture is Some,
        r.rate is Some <==> now - old(rate).window_start >= 1_000_000_000,
        r.rate matches Some(measured) ==> measured.nanos == now - old(rate).window_start,
        match r.rate {
            Some(measured) => {
                &&& sources::waited(old(rate).window_start, now) >= RATE_WINDOW
                &&& measured.frames == old(rate).frames + 1
                &&& measured.nanos == sources::waited(old(rate).window_start, now)
                &&& *final(rate) == (FrameRate { window_start: now, frames: 0 })
            },
            None => {
                &&& sources::waited(old(rate).window_start, now) < RATE_WINDOW
                &&& final(rate).window_start == old(rate).window_start
                &&& final(rate).frames == old(rate).frames + 1
            },
        },
{
    let measured = rate.tick(now);
    FramePublished { texture, rate: measured, wake: texture.is_some() }
}

/// What woke the loop, and what came of it.
#[derive(Clone, Copy, Debug, PartialEq, Eq, Structural)]
pub enum Turn {
    /// Commands were applied; whether any moved the running sources on.
    Applied { reconciled: bool },
    /// Nothing was asked; whether it was time to look round.
    Idle { looked_round: bool },
    /// Nobody can ask for anything any more.
    Disconnected,
}

/// What the loop does once a turn is over.
#[derive(Clone, Copy, Debug, PartialEq, Eq, Structural)]
pub enum NextTurn {
    /// Show which sources are dark and what the files measure; then ask
    /// whether to stop, and wait if not.
    PublishSources,
    /// Wait.
    Wait,
    /// Leave.
    Leave,
}

/// What the loop does after a turn: what is shown of the sources is looked at
/// only where something may have opened or closed, and it is looked at before
/// the loop is left.
pub fn next_turn(turn: Turn, stop: bool) -> (r: NextTurn)
    ensures
        r == (match turn {
            Turn::Disconnected => NextTurn::Leave,
            Turn::Applied { reconciled: true } => NextTurn::PublishSources,
            Turn::Idle { looked_round: true } => NextTurn::PublishSources,
            _ => if stop {
                NextTurn::Leave
            } else {
                NextTurn::Wait
            },
        }),
{
    match turn {
        Turn::Disconnected => NextTurn::Leave,
        Turn::Applied { reconciled: true } => NextTurn::PublishSources,
        Turn::Idle { looked_round: true } => NextTurn::PublishSources,
        _ => {
            if stop {
                NextTurn::Leave
            } else {
                NextTurn::Wait
            }
        },
    }
}

/// The sources that are running among the first `n` ids.
pub open spec fn stops(open: Map<i64, SourceState>, keys: Seq<i64>, n: int) -> Seq<SourceAction>
    decreases n,
{
    if n <= 0 {
        Seq::empty()
    } else {
        let before = stops(open, keys, n - 1);
        match open[keys[n - 1]] {
            SourceState::Open(_) => before.push(SourceAction::Stop(SceneItemId(keys[n - 1]))),
            _ => before,
        }
    }
}

impl Engine {
    /// What the engine begins with: nothing open, nothing running, and the
    /// outputs as they were saved.
    pub fn new(outputs: OutputSettings, project: bool, now: u64) -> (r: Self)
        ensures
            r.wf(now),
            r.open@ == Map::<i64, SourceState>::empty(),
            r.scene.items@ == Seq::<SceneItem>::empty(),
            r.scene.live_items@ == Seq::<i64>::empty(),
            r.outputs.state.settings == outputs.recording,
            r.outputs.state.streaming == outputs.streaming,
            r.outputs.state.audio_codecs@.len() == 0,
            !r.outputs.state.running,
            r.outputs.state.broadcast == Broadcast::Off,
            r.outputs.published.recording_since is None,
            r.outputs.published.recording_paused_at is None,
            r.outputs.published.recording_error is None,
            r.outputs.published.streaming_since is None,
            r.outputs.published.streaming_error is None,
            !r.outputs.published.streaming_reconnecting,
            r.project == project,
            r.looked_for_missing == now,
    {
        Engine {
            open: Table::new(),
            scene: Scene { items: Vec::new(), live_items: Vec::new() },
            outputs: Outputs {
                state: OutputState {
                    settings: outputs.recording,
                    streaming: outputs.streaming,
                    audio_codecs: Vec::new(),
                    running: false,
                    broadcast: Broadcast::Off,
                },
                published: Published::new(),
            },
            project,
            looked_for_missing: now,
        }
    }

    /// What is stopped on the way out: every source that is running.
    pub fn leave(&self) -> (r: Vec<SourceAction>)
        requires
            self.open.wf(),
        ensures
            r@ == stops(self.open@, self.open.keys(), self.open.keys().len() as int),
    {
        let mut r: Vec<SourceAction> = Vec::new();
        let mut i: usize = 0;
        while i < self.open.len()
            invariant
                self.open.wf(),
                i <= self.open.keys().len(),
                r@ == stops(self.open@, self.open.keys(), i as int),
            decreases self.open.keys().len() - i,
        {
            let id: i64 = self.open.key_at(i);
            match self.open.value_at(i) {
                SourceState::Open(_) => {
                    r.push(SourceAction::Stop(SceneItemId(id)));
                },
                _ => {},
            }
            i = i + 1;
        }
        r
    }
}

/// Nothing is left running: every source that runs is stopped on the way out.
pub proof fn law_nothing_is_left_running(
    open: Map<i64, SourceState>,
    keys: Seq<i64>,
    n: int,
    i: int,
)
    requires
        0 <= i < n <= keys.len(),
        open[keys[i]] is Open,
    ensures
        stops(open, keys, n).contains(SourceAction::Stop(SceneItemId(keys[i]))),
    decreases n,
{
    let before = stops(open, keys, n - 1);
    let all = stops(open, keys, n);
    let stop = SourceAction::Stop(SceneItemId(keys[i]));
    if i == n - 1 {
        assert(all[all.len() - 1] == stop);
    } else {
        law_nothing_is_left_running(open, keys, n - 1, i);
        let at = choose|at: int| 0 <= at < before.len() && before[at] == stop;
        assert(all[at] == stop);
    }
}

/// What a source's input on the compositor is called.
pub open spec fn input_called(id: SceneItemId) -> Seq<char> {
    "scene-item-"@ + text::decimal_int(id.0 as int)
}

/// What a source's input on the compositor is called.
pub fn input_name(item: &SceneItem) -> (r: String)
    ensures
        r@ == input_called(item.id),
        r@ == "scene-item-"@ + text::decimal_int(item.id.0 as int),
{
    let number = decimal_of_i64(item.id.0);
    joined("scene-item-", number.as_str())
}

/// What the elements of one item's source say of themselves.
pub struct SourceGraph {
    pub id: SceneItemId,
    pub stats: Vec<ElementStats>,
}

/// The account of one item's source, where there is one and it is running.
pub open spec fn graph_of(
    open: Map<i64, SourceState>,
    graphs: Seq<SourceGraph>,
    id: SceneItemId,
    n: int,
) -> Option<Seq<ElementStats>>
    decreases n,
{
    if n <= 0 || !(sources::held(open, id.0) matches Some(SourceState::Open(_))) {
        None
    } else if graphs[n - 1].id == id {
        Some(graphs[n - 1].stats@)
    } else {
        graph_of(open, graphs, id, n - 1)
    }
}

/// Elements with the graph they are in.
pub open spec fn parts_of(pipeline: Seq<char>, elements: Seq<ElementStats>) -> Seq<
    (Seq<char>, ElementStats),
> {
    Seq::new(elements.len(), |i: int| (pipeline, elements[i]))
}

/// The elements of the sources of the first `n` items, in the scene's order.
pub open spec fn source_parts(
    open: Map<i64, SourceState>,
    items: Seq<SceneItem>,
    graphs: Seq<SourceGraph>,
    n: int,
) -> Seq<(Seq<char>, ElementStats)>
    decreases n,
{
    if n <= 0 {
        Seq::empty()
    } else {
        let before = source_parts(open, items, graphs, n - 1);
        match graph_of(open, graphs, items[n - 1].id, graphs.len() as int) {
            Some(elements) => before + parts_of(input_called(items[n - 1].id), elements),
            None => before,
        }
    }
}

/// The names of the sources of the first `n` items that run and give an
/// account.
pub open spec fn named_sources(
    open: Map<i64, SourceState>,
    items: Seq<SceneItem>,
    graphs: Seq<SourceGraph>,
    n: int,
) -> Seq<(Seq<char>, Seq<char>)>
    decreases n,
{
    if n <= 0 {
        Seq::empty()
    } else {
        let before = named_sources(open, items, graphs, n - 1);
        match graph_of(open, graphs, items[n - 1].id, graphs.len() as int) {
            Some(_) => before.push((input_called(items[n - 1].id), items[n - 1].name@)),
            None => before,
        }
    }
}

/// Whether a list of names is these.
pub open spec fn names_are(names: Seq<SourceName>, expected: Seq<(Seq<char>, Seq<char>)>) -> bool {
    &&& names.len() == expected.len()
    &&& forall|i: int|
        0 <= i < names.len() ==> (#[trigger] names[i]).element@ == expected[i].0 && names[i].name@
            == expected[i].1
}

/// Whether a read is what an element's account comes to, named for these
/// sources.
pub open spec fn is_read(
    read: Read,
    part: (Seq<char>, ElementStats),
    names: Seq<SourceName>,
) -> bool {
    &&& read.pipeline@ == part.0
    &&& read.element.reads(part.1)
    &&& match read.named {
        Some(naming) => stats::naming_of(read.element, names) == Some(
            (naming.subject@, naming.role),
        ),
        None => stats::naming_of(read.element, names) is None,
    }
}

/// Whether reads are what these elements' accounts come to.
pub open spec fn are_reads(
    reads: Seq<Read>,
    parts: Seq<(Seq<char>, ElementStats)>,
    names: Seq<SourceName>,
) -> bool {
    &&& reads.len() == parts.len()
    &&& forall|i: int| 0 <= i < reads.len() ==> is_read(#[trigger] reads[i], parts[i], names)
}

fn find_graph(open: &Table<SourceState>, graphs: &Vec<SourceGraph>, id: SceneItemId) -> (r: Option<
    usize,
>)
    requires
        open.wf(),
    ensures
        match r {
            Some(i) => i < graphs@.len() && graph_of(open@, graphs@, id, graphs@.len() as int)
                == Some(graphs@[i as int].stats@),
            None => graph_of(open@, graphs@, id, graphs@.len() as int) is None,
        },
{
    match open.get(id.0) {
        Some(SourceState::Open(_)) => {},
        _ => {
            return None;
        },
    }
    let mut i: usize = graphs.len();
    while i > 0
        invariant
            i <= graphs@.len(),
            sources::held(open@, id.0) matches Some(SourceState::Open(_)),
            graph_of(open@, graphs@, id, graphs@.len() as int) == graph_of(
                open@,
                graphs@,
                id,
                i as int,
            ),
        decreases i,
    {
        i = i - 1;
        if graphs[i].id == id {
            return Some(i);
        }
    }
    None
}

fn add_reads(
    reads: &mut Vec<Read>,
    pipeline: &str,
    elements: &Vec<ElementStats>,
    names: &Vec<SourceName>,
)
    ensures
        final(reads)@.len() == old(reads)@.len() + elements@.len(),
        forall|parts: Seq<(Seq<char>, ElementStats)>| #[trigger]
            are_reads(old(reads)@, parts, names@) ==> are_reads(
                final(reads)@,
                parts + parts_of(pipeline@, elements@),
                names@,
            ),
{
    let mut i: usize = 0;
    while i < elements.len()
        invariant
            i <= elements@.len(),
            reads@.len() == old(reads)@.len() + i,
            forall|j: int| 0 <= j < old(reads)@.len() ==> reads@[j] == old(reads)@[j],
            forall|j: int|
                0 <= j < i ==> is_read(
                    #[trigger] reads@[old(reads)@.len() + j],
                    (pipeline@, elements@[j]),
                    names@,
                ),
        decreases elements@.len() - i,
    {
        let element = Element::of(&elements[i]);
        let named = name_element(&element, names);
        reads.push(Read { pipeline: pipeline.to_owned(), element, named });
        i = i + 1;
    }
    proof {
        assert forall|parts: Seq<(Seq<char>, ElementStats)>| #[trigger]
            are_reads(old(reads)@, parts, names@) implies are_reads(
            reads@,
            parts + parts_of(pipeline@, elements@),
            names@,
        ) by {
            let all = parts + parts_of(pipeline@, elements@);
            assert forall|j: int| 0 <= j < reads@.len() implies is_read(
                #[trigger] reads@[j],
                all[j],
                names@,
            ) by {
                if j >= old(reads)@.len() {
                    let k = j - old(reads)@.len();
                    assert(reads@[old(reads)@.len() + k] == reads@[j]);
                    assert(all[j] == (pipeline@, elements@[k]));
                } else {
                    assert(is_read(old(reads)@[j], parts[j], names@));
                }
            }
        }
    }
}

/// Every element of every graph as it is read: the compositor's own first, and
/// then those of each source of the scene that is running.
pub fn scene_reads(
    open: &Table<SourceState>,
    items: &Vec<SceneItem>,
    compositor: &Vec<ElementStats>,
    graphs: &Vec<SourceGraph>,
) -> (r: (Vec<SourceName>, Vec<Read>))
    requires
        open.wf(),
    ensures
        names_are(r.0@, named_sources(open@, items@, graphs@, items@.len() as int)),
        are_reads(
            r.1@,
            parts_of("preview"@, compositor@) + source_parts(
                open@,
                items@,
                graphs@,
                items@.len() as int,
            ),
            r.0@,
        ),
{
    let mut names: Vec<SourceName> = Vec::new();
    let mut i: usize = 0;
    while i < items.len()
        invariant
            open.wf(),
            i <= items@.len(),
            names_are(names@, named_sources(open@, items@, graphs@, i as int)),
        decreases items@.len() - i,
    {
        match find_graph(open, graphs, items[i].id) {
            Some(_) => {
                names.push(
                    SourceName { element: input_name(&items[i]), name: items[i].name.clone() },
                );
            },
            None => {},
        }
        i = i + 1;
    }
    let mut reads: Vec<Read> = Vec::new();
    let ghost none = Seq::<(Seq<char>, ElementStats)>::empty();
    proof {
        assert(are_reads(reads@, none, names@));
    }
    add_reads(&mut reads, "preview", compositor, &names);
    let ghost first = parts_of("preview"@, compositor@);
    proof {
        assert(none + first =~= first);
        assert(first + source_parts(open@, items@, graphs@, 0) =~= first);
    }
    let mut i: usize = 0;
    while i < items.len()
        invariant
            open.wf(),
            i <= items@.len(),
            are_reads(reads@, first + source_parts(open@, items@, graphs@, i as int), names@),
        decreases items@.len() - i,
    {
        match find_graph(open, graphs, items[i].id) {
            Some(at) => {
                let pipeline = input_name(&items[i]);
                add_reads(&mut reads, pipeline.as_str(), &graphs[at].stats, &names);
                proof {
                    let before = source_parts(open@, items@, graphs@, i as int);
                    let name = input_called(items@[i as int].id);
                    let more = parts_of(name, graphs@[at as int].stats@);
                    assert(first + before + more =~= first + (before + more));
                }
            },
            None => {},
        }
        i = i + 1;
    }
    (names, reads)
}

/// Leaving stops every source that runs, in order, and no other.
pub proof fn law_leaving_stops_what_runs(
    open: Map<i64, SourceState>,
    keys: Seq<i64>,
    key: i64,
    n: int,
)
    requires
        n == keys.len(),
    ensures
        stops(open, keys, 0).len() == 0,
        open[key] is Open ==> stops(open, keys.push(key), n + 1) == stops(open, keys, n).push(
            SourceAction::Stop(SceneItemId(key)),
        ),
        !(open[key] is Open) ==> stops(open, keys.push(key), n + 1) == stops(open, keys, n),
{
    lemma_stops_on(open, keys, key, n);
}

proof fn lemma_stops_on(open: Map<i64, SourceState>, keys: Seq<i64>, key: i64, n: int)
    requires
        0 <= n <= keys.len(),
    ensures
        stops(open, keys.push(key), n) == stops(open, keys, n),
    decreases n,
{
    if n > 0 {
        lemma_stops_on(open, keys, key, n - 1);
        assert(keys.push(key)[n - 1] == keys[n - 1]);
    }
}

/// A source's elements are read exactly while it runs.
pub proof fn law_only_what_runs_is_read(
    open: Map<i64, SourceState>,
    graphs: Seq<SourceGraph>,
    id: SceneItemId,
    i: int,
)
    requires
        0 <= i < graphs.len(),
        graphs[i].id == id,
        forall|j: int| 0 <= j < graphs.len() && j != i ==> (#[trigger] graphs[j]).id != id,
    ensures
        open.dom().contains(id.0) && open[id.0] is Open ==> graph_of(
            open,
            graphs,
            id,
            graphs.len() as int,
        ) == Some(graphs[i].stats@),
        !open.dom().contains(id.0) || !(open[id.0] is Open) ==> graph_of(
            open,
            graphs,
            id,
            graphs.len() as int,
        ) is None,
{
    lemma_graph(open, graphs, id, i, graphs.len() as int);
}

proof fn lemma_graph(
    open: Map<i64, SourceState>,
    graphs: Seq<SourceGraph>,
    id: SceneItemId,
    i: int,
    n: int,
)
    requires
        0 <= i < graphs.len(),
        0 <= n <= graphs.len(),
        graphs[i].id == id,
        forall|j: int| 0 <= j < graphs.len() && j != i ==> (#[trigger] graphs[j]).id != id,
    ensures
        graph_of(open, graphs, id, n) == (if i < n && open.dom().contains(id.0) && open[id.0]
            is Open {
            Some(graphs[i].stats@)
        } else {
            None
        }),
    decreases n,
{
    if n > 0 {
        lemma_graph(open, graphs, id, i, n - 1);
        if n - 1 != i {
            assert(graphs[n - 1].id != id);
        }
    }
}

/// Everything is read item by item, in order: what an item's graph has, under
/// the item's input, and its name beside it; and nothing of an item that has no
/// graph.
pub proof fn law_a_scene_is_read_item_by_item(
    open: Map<i64, SourceState>,
    items: Seq<SceneItem>,
    graphs: Seq<SourceGraph>,
    n: int,
    elements: Seq<ElementStats>,
)
    requires
        0 < n <= items.len(),
    ensures
        source_parts(open, items, graphs, 0).len() == 0,
        named_sources(open, items, graphs, 0).len() == 0,
        ({
            let item = items[n - 1];
            let found = graph_of(open, graphs, item.id, graphs.len() as int);
            let input = "scene-item-"@ + text::decimal_int(item.id.0 as int);
            let parts = source_parts(open, items, graphs, n);
            let before = source_parts(open, items, graphs, n - 1);
            &&& found == Some(elements) ==> {
                &&& parts.len() == before.len() + elements.len()
                &&& parts.take(before.len() as int) == before
                &&& forall|i: int|
                    0 <= i < elements.len() ==> #[trigger] parts[before.len() + i] == (
                        input,
                        elements[i],
                    )
                &&& named_sources(open, items, graphs, n) == named_sources(
                    open,
                    items,
                    graphs,
                    n - 1,
                ).push((input, item.name@))
            }
            &&& found is None ==> parts == before && named_sources(open, items, graphs, n)
                == named_sources(open, items, graphs, n - 1)
        }),
{
    let item = items[n - 1];
    let parts = source_parts(open, items, graphs, n);
    let before = source_parts(open, items, graphs, n - 1);
    if graph_of(open, graphs, item.id, graphs.len() as int) == Some(elements) {
        assert(parts =~= before + parts_of(input_called(item.id), elements));
        assert(parts.take(before.len() as int) =~= before);
    }
}

/// A rate is what was asked for, and one frame a second where none was.
pub proof fn law_a_rate_is_never_nothing(fps: u32)
    ensures
        fps > 0 ==> usable_rate(fps) == fps,
        usable_rate(0) == 1,
{
}

/// What is read is read whole, in order: every part under its own graph, as it
/// is, and named as it should be; and so is every source's name.
pub proof fn law_what_is_read_is_read_whole(
    reads: Seq<Read>,
    parts: Seq<(Seq<char>, ElementStats)>,
    names: Seq<SourceName>,
    expected: Seq<(Seq<char>, Seq<char>)>,
    i: int,
)
    requires
        are_reads(reads, parts, names),
        names_are(names, expected),
    ensures
        reads.len() == parts.len() && names.len() == expected.len(),
        0 <= i < reads.len() ==> {
            &&& reads[i].pipeline@ == parts[i].0
            &&& reads[i].element.reads(parts[i].1)
            &&& reads[i].named is Some <==> stats::naming_of(reads[i].element, names) is Some
            &&& reads[i].named matches Some(naming) ==> stats::naming_of(reads[i].element, names)
                == Some((naming.subject@, naming.role))
        },
        0 <= i < names.len() ==> names[i].element@ == expected[i].0 && names[i].name@
            == expected[i].1,
{
    if 0 <= i < reads.len() {
        assert(is_read(reads[i], parts[i], names));
    }
}

/// The preview is drawn thirty times a second, a request is waited for a tenth
/// of one, and a rate is measured over a whole one.
pub proof fn law_how_long_the_engine_waits()
    ensures
        PREVIEW_FPS == 30,
        COMMAND_WAIT == 100_000_000,
        RATE_WINDOW == 1_000_000_000,
{
}

} // verus!
