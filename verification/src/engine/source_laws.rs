//! What holds of the sources whatever is done to them.
use vstd::prelude::*;

use crate::engine::sources::{
    self, Arrival, OpenResult, OpenSource, Opened, SourceAction, SourceState,
};
use crate::scene::{self, Scene, SceneItem, SceneItemId, SourceSettings, VideoLayer};

verus! {

/// Whether a state is one that looking at the scene leaves alone.
pub open spec fn left_alone(state: SourceState) -> bool {
    state is Failed || state is Disconnected || state is Ended || state is Opening
}

/// Looking at items changes nothing of what is held but what is missing.
proof fn lemma_looked_keeps(open: Map<i64, SourceState>, items: Seq<SceneItem>, n: int, id: i64)
    requires
        0 <= n <= items.len(),
        open.dom().contains(id),
        !(open[id] is Missing),
    ensures
        sources::looked(open, items, n).dom().contains(id),
        sources::looked(open, items, n)[id] == open[id],
    decreases n,
{
    if n > 0 {
        lemma_looked_keeps(open, items, n - 1, id);
    }
}

/// Every item that has been looked at is held, and none of them is missing.
proof fn lemma_looked_holds(
    open: Map<i64, SourceState>,
    items: Seq<SceneItem>,
    n: int,
    j: int,
)
    requires
        0 <= j < n <= items.len(),
    ensures
        sources::looked(open, items, n).dom().contains(items[j].id.0),
        !(sources::looked(open, items, n)[items[j].id.0] is Missing),
    decreases n,
{
    if j < n - 1 {
        lemma_looked_holds(open, items, n - 1, j);
    }
}

/// Looking at what is all held asks for nothing to be opened.
proof fn lemma_no_open(
    open: Map<i64, SourceState>,
    items: Seq<SceneItem>,
    fps: u32,
    n: int,
    k: int,
)
    requires
        0 <= n <= items.len(),
        forall|j: int|
            0 <= j < items.len() ==> open.dom().contains((#[trigger] items[j]).id.0) && !(
            open[items[j].id.0] is Missing),
        0 <= k < sources::look_actions(open, items, fps, n).len(),
    ensures
        !(sources::look_actions(open, items, fps, n)[k] is Open),
    decreases n,
{
    if n > 0 {
        let before = sources::look_actions(open, items, fps, n - 1);
        let id = items[n - 1].id.0;
        lemma_looked_keeps(open, items, n - 1, id);
        if k < before.len() {
            lemma_no_open(open, items, fps, n - 1, k);
        }
    }
}

/// No source is asked for twice: once a scene has been looked at, looking at
/// it again asks for nothing to be opened.
pub proof fn law_a_scene_is_asked_for_once(
    open: Map<i64, SourceState>,
    items: Seq<SceneItem>,
    fps: u32,
    k: int,
)
    requires
        0 <= k < sources::look_actions(
            sources::looked(open, items, items.len() as int),
            items,
            fps,
            items.len() as int,
        ).len(),
    ensures
        !(sources::look_actions(
            sources::looked(open, items, items.len() as int),
            items,
            fps,
            items.len() as int,
        )[k] is Open),
{
    let after = sources::looked(open, items, items.len() as int);
    assert forall|j: int| 0 <= j < items.len() implies after.dom().contains(
        (#[trigger] items[j]).id.0,
    ) && !(after[items[j].id.0] is Missing) by {
        lemma_looked_holds(open, items, items.len() as int, j);
    }
    lemma_no_open(after, items, fps, items.len() as int, k);
}

/// A source that failed, was cut off, played out or is on its way is not
/// touched by a scene change: only asking for it again moves it.
pub proof fn law_what_is_left_alone_stays(
    open: Map<i64, SourceState>,
    scene: Scene,
    rebuild: Seq<i64>,
    now: u64,
    id: i64,
)
    requires
        open.dom().contains(id),
        left_alone(open[id]),
        scene.live_items@.contains(id),
        !rebuild.contains(id),
    ensures
        ({
            let after = sources::reconciled(
                sources::looked(open, scene.items@, scene.items@.len() as int),
                scene,
                rebuild,
                now,
            );
            after.dom().contains(id) && after[id] == open[id]
        }),
{
    lemma_looked_keeps(open, scene.items@, scene.items@.len() as int, id);
}

/// A source that failed, was cut off, played out or is on its way is not
/// tried again by the passing of time.
pub proof fn law_what_is_left_alone_is_not_retried(
    open: Map<i64, SourceState>,
    items: Seq<SceneItem>,
    now: u64,
    n: int,
    id: i64,
)
    requires
        0 <= n <= items.len(),
        open.dom().contains(id),
        left_alone(open[id]),
    ensures
        sources::retried(open, items, now, n).dom().contains(id),
        sources::retried(open, items, now, n)[id] == open[id],
    decreases n,
{
    if n > 0 {
        law_what_is_left_alone_is_not_retried(open, items, now, n - 1, id);
    }
}

/// A running source whose item left the scene is kept, paused and hidden, for
/// as long as the project holds the item anywhere.
pub proof fn law_leaving_the_scene_pauses(
    open: Map<i64, SourceState>,
    scene: Scene,
    rebuild: Seq<i64>,
    now: u64,
    id: i64,
    source: OpenSource,
)
    requires
        open.dom().contains(id),
        open[id] == SourceState::Open(source),
        scene.live_items@.contains(id),
        !rebuild.contains(id),
        !sources::shown(scene.items@, id),
    ensures
        sources::reconciled(open, scene, rebuild, now).dom().contains(id),
        sources::reconciled(open, scene, rebuild, now)[id] == SourceState::Open(
            OpenSource { running: false, showing: false, ..source },
        ),
        source.running ==> sources::settle_one(open[id], scene.items@, id).contains(
            SourceAction::Pause(SceneItemId(id)),
        ),
{
    let asked = sources::settle_one(open[id], scene.items@, id);
    if source.running {
        assert(asked[0] == SourceAction::Pause(SceneItemId(id)));
    }
}

/// Coming back to the scene is a resume and nothing else: a source that was
/// paused because its item left runs again when the item returns.
pub proof fn law_coming_back_resumes(
    state: SourceState,
    away: Seq<SceneItem>,
    back: Seq<SceneItem>,
    id: i64,
)
    requires
        state is Open,
        !sources::shown(away, id),
        sources::wanted(back, id),
    ensures
        sources::settled(sources::settled(state, away, id), back, id) == sources::settled(
            state,
            back,
            id,
        ),
        sources::settle_one(sources::settled(state, away, id), back, id) == seq![
            SourceAction::Resume(SceneItemId(id)),
        ],
{
    assert(sources::settle_one(sources::settled(state, away, id), back, id) =~= seq![
        SourceAction::Resume(SceneItemId(id)),
    ]);
}

/// Settling twice asks for nothing the second time.
pub proof fn law_settling_settles(state: SourceState, items: Seq<SceneItem>, id: i64)
    ensures
        sources::settled(sources::settled(state, items, id), items, id) == sources::settled(
            state,
            items,
            id,
        ),
        sources::settle_one(sources::settled(state, items, id), items, id) == Seq::<
            SourceAction,
        >::empty(),
{
    let settled = sources::settled(state, items, id);
    assert(sources::settle_one(settled, items, id) =~= Seq::<SourceAction>::empty());
}

/// Nothing the project no longer holds is still held after a reconcile pass.
pub proof fn law_only_what_is_live_is_held(
    open: Map<i64, SourceState>,
    scene: Scene,
    rebuild: Seq<i64>,
    now: u64,
    id: i64,
)
    requires
        sources::reconciled(open, scene, rebuild, now).dom().contains(id),
    ensures
        scene.live_items@.contains(id),
        open.dom().contains(id),
{
}

/// A source asked for again is due at once, wherever the clock reaches back as
/// far as its wait.
pub proof fn law_reopening_is_due_at_once(item: SceneItem, now: u64)
    requires
        now >= sources::wait_of(item),
    ensures
        sources::due(Some(SourceState::Missing(sources::overdue(item, now))), item, now),
{
}

/// A source that has to be asked for is never put where it would be tried
/// again unasked when it is refused, and one that has not is never offered.
pub proof fn law_a_refusal_is_final_or_offered(item: SceneItem, now: u64)
    ensures
        sources::answered(item, OpenResult::Refused, now) is Disconnected <==> sources::must_ask(
            item,
        ),
        sources::answered(item, OpenResult::Refused, now) is Failed <==> !sources::must_ask(item),
{
}

/// The scene is ordered front-most first: an item that stands before another
/// is drawn in front of it.
pub proof fn law_earlier_is_in_front(items: Seq<SceneItem>, i: int, j: int)
    requires
        0 <= i < j < items.len() <= i32::MAX,
    ensures
        sources::layer_at(items, i).z_index > sources::layer_at(items, j).z_index,
        sources::layer_at(items, j).z_index > 0,
{
}

/// A stream is left alone for as long as its own settings say, and everything
/// else for a second; a source that is missing is due exactly once that long
/// has passed.
pub proof fn law_a_missing_source_waits_its_own_time(item: SceneItem, since: u64, now: u64)
    requires
        since <= now,
    ensures
        item.settings matches SourceSettings::Rtsp(settings) ==> (settings.reconnect matches Some(
            interval,
        ) ==> (sources::due(Some(SourceState::Missing(since)), item, now) <==> now - since
            >= interval)),
        !(item.settings is Rtsp) ==> (sources::due(Some(SourceState::Missing(since)), item, now)
            <==> now - since >= 1_000_000_000),
        !sources::due(None, item, now),
        !sources::due(Some(SourceState::Failed), item, now),
        !sources::due(Some(SourceState::Disconnected), item, now),
        !sources::due(Some(SourceState::Ended), item, now),
        !sources::due(Some(SourceState::Opening), item, now),
{
}

/// Only a window that the portal alone can find, and a stream that may not be
/// tried again unasked, have to be asked for.
pub proof fn law_only_a_portals_window_and_a_final_stream_are_asked_for(item: SceneItem)
    ensures
        item.settings matches SourceSettings::WindowCapture(settings) ==> (sources::must_ask(item)
            <==> settings.target is Portal),
        item.settings matches SourceSettings::Rtsp(settings) ==> (sources::must_ask(item)
            <==> settings.reconnect is None),
        item.settings is Color || item.settings is Plain ==> !sources::must_ask(item),
{
}

/// An item is found where it stands first, and nowhere where it does not stand.
pub proof fn law_an_item_is_found_where_it_stands(items: Seq<SceneItem>, id: i64, i: int)
    requires
        0 <= i < items.len(),
        items[i].id.0 == id,
        forall|j: int| 0 <= j < i ==> (#[trigger] items[j]).id.0 != id,
    ensures
        sources::find(items, id) == Some(i),
{
    assert(sources::stands_first(items, id, i));
    let k = choose|k: int| sources::stands_first(items, id, k);
    assert(sources::stands_first(items, id, k));
    assert(!(k < i) && !(i < k)) by {
        assert(items[k].id.0 == id);
    }
}

/// What the scene does not hold is not found.
pub proof fn law_what_is_not_there_is_not_found(items: Seq<SceneItem>, id: i64)
    requires
        forall|j: int| 0 <= j < items.len() ==> (#[trigger] items[j]).id.0 != id,
    ensures
        sources::find(items, id) is None,
        !sources::shown(items, id),
        !sources::wanted(items, id),
{
    assert forall|k: int| !sources::stands_first(items, id, k) by {
        if sources::stands_first(items, id, k) {
            assert(items[k].id.0 == id);
        }
    }
}

/// An item's layer is where the item stands, and its place in the order counts
/// from the back: the last is one, and the first as many as there are.
pub proof fn law_a_layers_order_counts_from_the_back(items: Seq<SceneItem>, i: int)
    requires
        0 <= i < items.len() <= 0x7fff_ffff,
    ensures
        sources::layer_at(items, i).z_index == items.len() - i,
        sources::layer_at(items, i) == scene::placed(
            items[i],
            items[i].placement,
            sources::layer_at(items, i).z_index,
        ),
{
}

/// Looking at an item: what runs is placed, redrawn and brought up to date, its
/// filters handed their settings where they are the stored ones and replaced
/// where they are not and can be; what is missing or not held is opened; and
/// everything else is left as it is.
pub proof fn law_looking_at_an_item(
    source: OpenSource,
    since: u64,
    item: SceneItem,
    layer: VideoLayer,
    fps: u32,
)
    ensures
        ({
            let asked = sources::look_at(Some(SourceState::Open(source)), item, layer, fps);
            let same = source.filters@ == item.filters@;
            &&& asked.len() >= 3
            &&& asked[0] == SourceAction::SetLayer(item.id, layer)
            &&& asked[1] == SourceAction::RefreshPushed(item.id)
            &&& asked[2] == SourceAction::RefreshMediaFile(item.id)
            &&& same ==> asked.len() == 4 && asked[3] == SourceAction::ApplyFilters(item.id)
            &&& !same && source.has_rack ==> asked.len() == 4 && asked[3]
                == SourceAction::RefillFilters(item.id)
            &&& !same && !source.has_rack ==> asked.len() == 3
            &&& sources::must_rebuild(Some(SourceState::Open(source)), item) <==> !same
                && !source.has_rack
        }),
        sources::look_at(None, item, layer, fps) == seq![SourceAction::Open(item.id, layer, fps)],
        sources::look_at(Some(SourceState::Missing(since)), item, layer, fps) == seq![
            SourceAction::Open(item.id, layer, fps),
        ],
        sources::look_at(Some(SourceState::Failed), item, layer, fps).len() == 0,
        sources::look_at(Some(SourceState::Disconnected), item, layer, fps).len() == 0,
        sources::look_at(Some(SourceState::Ended), item, layer, fps).len() == 0,
        sources::look_at(Some(SourceState::Opening), item, layer, fps).len() == 0,
        !sources::must_rebuild(None, item),
        !sources::must_rebuild(Some(SourceState::Missing(since)), item),
        !sources::must_rebuild(Some(SourceState::Failed), item),
        !sources::must_rebuild(Some(SourceState::Opening), item),
{
}

/// Looking at a scene puts on its way every item of it that was missing or was
/// not held, leaves every other as it was, and touches nothing that is not in
/// the scene.
pub proof fn law_a_scene_is_opened_whole(
    open: Map<i64, SourceState>,
    items: Seq<SceneItem>,
    j: int,
    other: i64,
)
    requires
        0 <= j < items.len(),
        forall|i: int| 0 <= i < items.len() ==> (#[trigger] items[i]).id.0 != other,
    ensures
        ({
            let after = sources::looked(open, items, items.len() as int);
            let id = items[j].id.0;
            &&& after.dom().contains(id)
            &&& !open.dom().contains(id) || open[id] is Missing ==> after[id] is Opening
            &&& open.dom().contains(id) && !(open[id] is Missing) ==> after[id] == open[id]
            &&& after.dom().contains(other) <==> open.dom().contains(other)
            &&& open.dom().contains(other) ==> after[other] == open[other]
        }),
{
    let n = items.len() as int;
    let id = items[j].id.0;
    lemma_looked_holds(open, items, n, j);
    if open.dom().contains(id) && !(open[id] is Missing) {
        lemma_looked_keeps(open, items, n, id);
    } else {
        lemma_looked_opens(open, items, n, j);
    }
    lemma_looked_elsewhere(open, items, n, other);
}

proof fn lemma_looked_opens(open: Map<i64, SourceState>, items: Seq<SceneItem>, n: int, j: int)
    requires
        0 <= j < items.len(),
        0 <= n <= items.len(),
        !open.dom().contains(items[j].id.0) || open[items[j].id.0] is Missing,
    ensures
        ({
            let after = sources::looked(open, items, n);
            let id = items[j].id.0;
            &&& j < n ==> after.dom().contains(id) && after[id] is Opening
            &&& after.dom().contains(id) ==> after[id] is Opening || (open.dom().contains(id)
                && after[id] == open[id])
        }),
    decreases n,
{
    if n > 0 {
        lemma_looked_opens(open, items, n - 1, j);
    }
}

proof fn lemma_looked_elsewhere(
    open: Map<i64, SourceState>,
    items: Seq<SceneItem>,
    n: int,
    other: i64,
)
    requires
        0 <= n <= items.len(),
        forall|i: int| 0 <= i < n ==> (#[trigger] items[i]).id.0 != other,
    ensures
        sources::looked(open, items, n).dom().contains(other) <==> open.dom().contains(other),
        open.dom().contains(other) ==> sources::looked(open, items, n)[other] == open[other],
    decreases n,
{
    if n > 0 {
        lemma_looked_elsewhere(open, items, n - 1, other);
        assert(items[n - 1].id.0 != other);
    }
}

/// Looking at a scene asks, for every item, what looking at that item alone
/// asks; and for nothing else.
pub proof fn law_a_scene_is_its_items(
    open: Map<i64, SourceState>,
    items: Seq<SceneItem>,
    fps: u32,
    j: int,
    a: int,
    k: int,
)
    requires
        forall|p: int, q: int|
            0 <= p < q < items.len() ==> (#[trigger] items[p]).id.0 != (#[trigger] items[q]).id.0,
        0 <= j < items.len(),
        0 <= a < sources::look_at(
            sources::held(open, items[j].id.0),
            items[j],
            sources::layer_at(items, j),
            fps,
        ).len(),
        0 <= k < sources::look_actions(open, items, fps, items.len() as int).len(),
    ensures
        sources::look_actions(open, items, fps, items.len() as int).contains(
            sources::look_at(
                sources::held(open, items[j].id.0),
                items[j],
                sources::layer_at(items, j),
                fps,
            )[a],
        ),
        exists|i: int|
            0 <= i < items.len() && sources::look_at(
                sources::held(open, (#[trigger] items[i]).id.0),
                items[i],
                sources::layer_at(items, i),
                fps,
            ).contains(sources::look_actions(open, items, fps, items.len() as int)[k]),
        sources::rebuilds(open, items, items.len() as int).contains(items[j].id.0)
            <==> sources::must_rebuild(sources::held(open, items[j].id.0), items[j]),
{
    let n = items.len() as int;
    lemma_look_has(open, items, fps, n, j, a);
    let i = lemma_look_from(open, items, fps, n, k);
    assert(items[i] == items[i]);
    lemma_rebuilds(open, items, n, j);
}

proof fn lemma_look_has(
    open: Map<i64, SourceState>,
    items: Seq<SceneItem>,
    fps: u32,
    n: int,
    j: int,
    a: int,
)
    requires
        forall|p: int, q: int|
            0 <= p < q < items.len() ==> (#[trigger] items[p]).id.0 != (#[trigger] items[q]).id.0,
        0 <= j < n <= items.len(),
        0 <= a < sources::look_at(
            sources::held(open, items[j].id.0),
            items[j],
            sources::layer_at(items, j),
            fps,
        ).len(),
    ensures
        sources::look_actions(open, items, fps, n).contains(
            sources::look_at(
                sources::held(open, items[j].id.0),
                items[j],
                sources::layer_at(items, j),
                fps,
            )[a],
        ),
    decreases n,
{
    let before = sources::look_actions(open, items, fps, n - 1);
    let all = sources::look_actions(open, items, fps, n);
    let asked = sources::look_at(
        sources::held(open, items[j].id.0),
        items[j],
        sources::layer_at(items, j),
        fps,
    );
    if j < n - 1 {
        lemma_look_has(open, items, fps, n - 1, j, a);
        let at = before.index_of(asked[a]);
        assert(all[at] == asked[a]);
    } else {
        lemma_looked_elsewhere(open, items, n - 1, items[j].id.0);
        assert(all[before.len() + a] == asked[a]);
    }
}

proof fn lemma_look_from(
    open: Map<i64, SourceState>,
    items: Seq<SceneItem>,
    fps: u32,
    n: int,
    k: int,
) -> (i: int)
    requires
        forall|p: int, q: int|
            0 <= p < q < items.len() ==> (#[trigger] items[p]).id.0 != (#[trigger] items[q]).id.0,
        0 <= n <= items.len(),
        0 <= k < sources::look_actions(open, items, fps, n).len(),
    ensures
        0 <= i < n,
        sources::look_at(
            sources::held(open, items[i].id.0),
            items[i],
            sources::layer_at(items, i),
            fps,
        ).contains(sources::look_actions(open, items, fps, n)[k]),
    decreases n,
{
    let before = sources::look_actions(open, items, fps, n - 1);
    let all = sources::look_actions(open, items, fps, n);
    if k < before.len() {
        assert(all[k] == before[k]);
        lemma_look_from(open, items, fps, n - 1, k)
    } else {
        lemma_looked_elsewhere(open, items, n - 1, items[n - 1].id.0);
        let asked = sources::look_at(
            sources::held(open, items[n - 1].id.0),
            items[n - 1],
            sources::layer_at(items, n - 1),
            fps,
        );
        assert(all[k] == asked[k - before.len()]);
        n - 1
    }
}

proof fn lemma_rebuilds(open: Map<i64, SourceState>, items: Seq<SceneItem>, n: int, j: int)
    requires
        forall|p: int, q: int|
            0 <= p < q < items.len() ==> (#[trigger] items[p]).id.0 != (#[trigger] items[q]).id.0,
        0 <= j < items.len(),
        0 <= n <= items.len(),
    ensures
        sources::rebuilds(open, items, n).contains(items[j].id.0) <==> j < n
            && sources::must_rebuild(sources::held(open, items[j].id.0), items[j]),
    decreases n,
{
    if n > 0 {
        lemma_rebuilds(open, items, n - 1, j);
        let before = sources::rebuilds(open, items, n - 1);
        let id = items[n - 1].id.0;
        lemma_looked_elsewhere(open, items, n - 1, id);
        let all = sources::rebuilds(open, items, n);
        if sources::must_rebuild(sources::held(open, id), items[n - 1]) {
            assert(all =~= before.push(id));
            assert(all[before.len() as int] == id);
            if before.contains(items[j].id.0) {
                let at = before.index_of(items[j].id.0);
                assert(all[at] == items[j].id.0);
            }
            if all.contains(items[j].id.0) {
                let at = all.index_of(items[j].id.0);
                if at < before.len() {
                    assert(before[at] == items[j].id.0);
                }
            }
        }
    }
}

/// A running source produces exactly while its item is in the scene and is not
/// paused, and shows exactly while it is in the scene; it is resumed, paused or
/// hidden where that is a change, and only there.
pub proof fn law_a_source_runs_as_its_item_asks(
    source: OpenSource,
    items: Seq<SceneItem>,
    id: i64,
    i: int,
)
    requires
        0 <= i < items.len(),
        items[i].id.0 == id,
        forall|j: int| 0 <= j < i ==> (#[trigger] items[j]).id.0 != id,
    ensures
        ({
            let running = !items[i].paused;
            let after = sources::settled(SourceState::Open(source), items, id);
            let asked = sources::settle_one(SourceState::Open(source), items, id);
            &&& after == SourceState::Open(OpenSource { running, showing: true, ..source })
            &&& running == source.running ==> asked.len() == 0
            &&& running && !source.running ==> asked == seq![
                SourceAction::Resume(SceneItemId(id)),
            ]
            &&& !running && source.running ==> asked == seq![SourceAction::Pause(SceneItemId(id))]
        }),
{
    law_an_item_is_found_where_it_stands(items, id, i);
    let asked = sources::settle_one(SourceState::Open(source), items, id);
    if !items[i].paused && !source.running {
        assert(asked =~= seq![SourceAction::Resume(SceneItemId(id))]);
    }
    if items[i].paused && source.running {
        assert(asked =~= seq![SourceAction::Pause(SceneItemId(id))]);
    }
}

/// A running source whose item is not in the scene is paused where it ran and
/// hidden where it showed.
pub proof fn law_a_source_out_of_the_scene_rests(
    source: OpenSource,
    items: Seq<SceneItem>,
    id: i64,
)
    requires
        forall|j: int| 0 <= j < items.len() ==> (#[trigger] items[j]).id.0 != id,
    ensures
        sources::settled(SourceState::Open(source), items, id) == SourceState::Open(
            OpenSource { running: false, showing: false, ..source },
        ),
        ({
            let asked = sources::settle_one(SourceState::Open(source), items, id);
            &&& source.running && source.showing ==> asked == seq![
                SourceAction::Pause(SceneItemId(id)),
                SourceAction::Hide(SceneItemId(id)),
            ]
            &&& source.running && !source.showing ==> asked == seq![
                SourceAction::Pause(SceneItemId(id)),
            ]
            &&& !source.running && source.showing ==> asked == seq![
                SourceAction::Hide(SceneItemId(id)),
            ]
            &&& !source.running && !source.showing ==> asked.len() == 0
        }),
{
    law_what_is_not_there_is_not_found(items, id);
    let asked = sources::settle_one(SourceState::Open(source), items, id);
    if source.running && source.showing {
        assert(asked =~= seq![
            SourceAction::Pause(SceneItemId(id)),
            SourceAction::Hide(SceneItemId(id)),
        ]);
    } else if source.running {
        assert(asked =~= seq![SourceAction::Pause(SceneItemId(id))]);
    } else if source.showing {
        assert(asked =~= seq![SourceAction::Hide(SceneItemId(id))]);
    }
}

/// What does not run is neither resumed, paused nor hidden, and stays as it is.
pub proof fn law_what_does_not_run_is_not_settled(
    state: SourceState,
    items: Seq<SceneItem>,
    id: i64,
)
    requires
        !(state is Open),
    ensures
        sources::settled(state, items, id) == state,
        sources::settle_one(state, items, id).len() == 0,
{
}

/// What a reconcile pass leaves held: exactly what the project holds of what
/// was held, with whatever has to be opened anew missing from now on.
pub proof fn law_what_a_pass_leaves(
    open: Map<i64, SourceState>,
    scene: Scene,
    rebuild: Seq<i64>,
    now: u64,
    id: i64,
)
    ensures
        ({
            let after = sources::reconciled(open, scene, rebuild, now);
            &&& after.dom().contains(id) <==> open.dom().contains(id)
                && scene.live_items@.contains(id)
            &&& after.dom().contains(id) && rebuild.contains(id) ==> after[id]
                == SourceState::Missing(now)
            &&& after.dom().contains(id) && !rebuild.contains(id) && !(open[id] is Open)
                ==> after[id] == open[id]
            &&& after.dom().contains(id) && !rebuild.contains(id) && open[id] is Open
                ==> after[id] is Open
        }),
{
}

/// What a reconcile pass closes: exactly the running sources that the project
/// no longer holds are stopped, and exactly those that have to be opened anew
/// are let go of.
pub proof fn law_only_what_the_project_let_go_of_is_stopped(
    open: Map<i64, SourceState>,
    keys: Seq<i64>,
    live: Seq<i64>,
    rebuild: Seq<i64>,
    now: u64,
    id: i64,
)
    requires
        forall|key: i64| #[trigger] rebuild.contains(key) ==> open.dom().contains(key),
    ensures
        sources::close_actions(open, keys, live, keys.len() as int).contains(
            SourceAction::Stop(SceneItemId(id)),
        ) <==> keys.contains(id) && open[id] is Open && !live.contains(id),
        sources::let_go_actions(open, rebuild, now, rebuild.len() as int).contains(
            SourceAction::LetGo(SceneItemId(id)),
        ) <==> rebuild.contains(id) && open[id] is Open,
{
    lemma_closed(open, keys, live, keys.len() as int, id);
    assert(keys.take(keys.len() as int) =~= keys);
    lemma_let_go(open, rebuild, now, rebuild.len() as int, id);
    assert(rebuild.take(rebuild.len() as int) =~= rebuild);
}

proof fn lemma_closed(
    open: Map<i64, SourceState>,
    keys: Seq<i64>,
    live: Seq<i64>,
    n: int,
    id: i64,
)
    requires
        0 <= n <= keys.len(),
    ensures
        sources::close_actions(open, keys, live, n).contains(SourceAction::Stop(SceneItemId(id)))
            <==> keys.take(n).contains(id) && open[id] is Open && !live.contains(id),
    decreases n,
{
    if n > 0 {
        lemma_closed(open, keys, live, n - 1, id);
        let before = sources::close_actions(open, keys, live, n - 1);
        let all = sources::close_actions(open, keys, live, n);
        let stop = SourceAction::Stop(SceneItemId(id));
        assert(keys.take(n) =~= keys.take(n - 1).push(keys[n - 1]));
        lemma_contains_push(keys.take(n - 1), keys[n - 1], id);
        if open[keys[n - 1]] is Open && !live.contains(keys[n - 1]) {
            lemma_contains_push(before, SourceAction::Stop(SceneItemId(keys[n - 1])), stop);
        }
    }
}

proof fn lemma_let_go(
    open: Map<i64, SourceState>,
    rebuild: Seq<i64>,
    now: u64,
    n: int,
    id: i64,
)
    requires
        0 <= n <= rebuild.len(),
        forall|key: i64| #[trigger] rebuild.contains(key) ==> open.dom().contains(key),
    ensures
        sources::let_go_actions(open, rebuild, now, n).contains(
            SourceAction::LetGo(SceneItemId(id)),
        ) <==> rebuild.take(n).contains(id) && open[id] is Open,
    decreases n,
{
    if n > 0 {
        lemma_let_go(open, rebuild, now, n - 1, id);
        let before = sources::let_go_actions(open, rebuild, now, n - 1);
        let last = rebuild[n - 1];
        let act = SourceAction::LetGo(SceneItemId(id));
        assert(rebuild.contains(last));
        assert(rebuild.take(n) =~= rebuild.take(n - 1).push(last));
        lemma_contains_push(rebuild.take(n - 1), last, id);
        lemma_contains_push(before, SourceAction::LetGo(SceneItemId(last)), act);
    }
}

proof fn lemma_contains_push<T>(s: Seq<T>, last: T, value: T)
    ensures
        s.push(last).contains(value) <==> s.contains(value) || last == value,
{
    let all = s.push(last);
    if s.contains(value) {
        let i = s.index_of(value);
        assert(all[i] == value);
    }
    assert(all[s.len() as int] == last);
}

/// What opened runs; what was not there yet waits from now; and what was
/// refused is offered again where it has to be asked for, and given up where
/// not.
pub proof fn law_an_answer_says_where_a_source_stands(
    item: SceneItem,
    arrival: Arrival,
    now: u64,
)
    ensures
        sources::answered(item, OpenResult::Running(arrival), now) == SourceState::Open(
            arrival.source,
        ),
        sources::answered(item, OpenResult::Nothing, now) == SourceState::Missing(now),
        sources::must_ask(item) ==> sources::answered(item, OpenResult::Refused, now)
            == SourceState::Disconnected,
        !sources::must_ask(item) ==> sources::answered(item, OpenResult::Refused, now)
            == SourceState::Failed,
{
}

/// The project is told the size a source turned out to have where that is not
/// the one it was known by, and the portal's token where there is another; and
/// nothing where there is no project to tell.
pub proof fn law_the_project_hears_what_is_new(item: SceneItem, arrival: Arrival)
    ensures
        sources::news(false, item, arrival).len() == 0,
        arrival.negotiated_size matches Some(size) ==> (sources::news(true, item, arrival).contains(
            SourceAction::SetSourceSize(item.id, item.kind, size),
        ) <==> item.settings.hint() != Some(size)),
        arrival.refreshed_token matches Some(token) ==> sources::news(true, item, arrival).contains(
            SourceAction::SetRestoreToken(item.id, token),
        ),
        arrival.negotiated_size is None && arrival.refreshed_token is None ==> sources::news(
            true,
            item,
            arrival,
        ).len() == 0,
{
    let told = sources::news(true, item, arrival);
    if let Some(size) = arrival.negotiated_size {
        if item.settings.hint() != Some(size) {
            assert(told[0] == SourceAction::SetSourceSize(item.id, item.kind, size));
        }
    }
    if let Some(token) = arrival.refreshed_token {
        assert(told.last() == SourceAction::SetRestoreToken(item.id, token));
    }
}

/// A source that arrives for an item nobody waits for any more is stopped, and
/// that is all; one that is waited for is placed where its item stands now,
/// after the project has heard of it.
pub proof fn law_what_arrives_is_placed_or_stopped(
    open: Map<i64, SourceState>,
    items: Seq<SceneItem>,
    project: bool,
    opened: Opened,
    arrival: Arrival,
    i: int,
)
    requires
        opened.result == OpenResult::Running(arrival),
        0 <= i < items.len(),
        items[i].id.0 == opened.item.id.0,
        forall|j: int| 0 <= j < i ==> (#[trigger] items[j]).id.0 != opened.item.id.0,
    ensures
        ({
            let id = opened.item.id;
            let asked = sources::finish_actions(open, items, project, opened);
            let told = sources::news(project, opened.item, arrival).len() as int;
            let waited_for = open.dom().contains(id.0) && open[id.0] is Opening;
            &&& !waited_for ==> asked == seq![SourceAction::Discard(id)]
            &&& waited_for ==> {
                &&& asked.len() == told + 3
                &&& asked.take(told) == sources::news(project, opened.item, arrival)
                &&& asked[told] == SourceAction::SetLayer(id, sources::layer_at(items, i))
                &&& asked[told + 1] == SourceAction::RefreshPushed(id)
                &&& asked[told + 2] == SourceAction::RefreshMediaFile(id)
            }
        }),
{
    law_an_item_is_found_where_it_stands(items, opened.item.id.0, i);
    let told = sources::news(project, opened.item, arrival);
    let asked = sources::finish_actions(open, items, project, opened);
    if open.dom().contains(opened.item.id.0) && open[opened.item.id.0] is Opening {
        assert(asked.take(told.len() as int) =~= told);
    }
}

/// Looking again opens every item that is missing and due, once, and touches no
/// other.
pub proof fn law_what_is_due_is_tried_again(
    open: Map<i64, SourceState>,
    items: Seq<SceneItem>,
    fps: u32,
    now: u64,
    j: int,
    since: u64,
)
    requires
        forall|p: int, q: int|
            0 <= p < q < items.len() ==> (#[trigger] items[p]).id.0 != (#[trigger] items[q]).id.0,
        0 <= j < items.len(),
        open.dom().contains(items[j].id.0),
        open[items[j].id.0] == SourceState::Missing(since),
        since <= now,
        !(items[j].settings is Rtsp),
    ensures
        ({
            let n = items.len() as int;
            let id = items[j].id;
            let after = sources::retried(open, items, now, n);
            let asked = sources::retry_actions(open, items, fps, now, n);
            let opens = SourceAction::Open(id, sources::layer_at(items, j), fps);
            &&& now - since >= 1_000_000_000 ==> after[id.0] is Opening && asked.contains(opens)
            &&& now - since < 1_000_000_000 ==> after[id.0] == open[id.0]
                && !asked.contains(opens)
        }),
{
    lemma_retry(open, items, fps, now, items.len() as int, j);
}

proof fn lemma_retry(
    open: Map<i64, SourceState>,
    items: Seq<SceneItem>,
    fps: u32,
    now: u64,
    n: int,
    j: int,
)
    requires
        forall|p: int, q: int|
            0 <= p < q < items.len() ==> (#[trigger] items[p]).id.0 != (#[trigger] items[q]).id.0,
        0 <= j < items.len(),
        0 <= n <= items.len(),
        open.dom().contains(items[j].id.0),
    ensures
        ({
            let id = items[j].id;
            let after = sources::retried(open, items, now, n);
            let asked = sources::retry_actions(open, items, fps, now, n);
            let ready = j < n && sources::due(Some(open[id.0]), items[j], now);
            &&& after.dom().contains(id.0)
            &&& ready ==> after[id.0] is Opening
            &&& !ready ==> after[id.0] == open[id.0]
            &&& asked.contains(SourceAction::Open(id, sources::layer_at(items, j), fps)) <==> ready
        }),
    decreases n,
{
    if n > 0 {
        lemma_retry(open, items, fps, now, n - 1, j);
        let before = sources::retry_actions(open, items, fps, now, n - 1);
        let asked = SourceAction::Open(items[j].id, sources::layer_at(items, j), fps);
        let last = SourceAction::Open(items[n - 1].id, sources::layer_at(items, n - 1), fps);
        lemma_contains_push(before, last, asked);
        if j != n - 1 {
            assert(items[j].id.0 != items[n - 1].id.0);
        }
    }
}

/// Every running item that follows the clock is redrawn, and no other.
pub proof fn law_only_clocks_are_redrawn(
    open: Map<i64, SourceState>,
    items: Seq<SceneItem>,
    id: SceneItemId,
)
    ensures
        sources::clock_actions(open, items, items.len() as int).contains(
            SourceAction::RefreshPushed(id),
        ) <==> open.dom().contains(id.0) && open[id.0] is Open && exists|i: int|
            0 <= i < items.len() && (#[trigger] items[i]).id == id && items[i].follows_clock,
{
    lemma_clocks(open, items, items.len() as int, id);
}

proof fn lemma_clocks(
    open: Map<i64, SourceState>,
    items: Seq<SceneItem>,
    n: int,
    id: SceneItemId,
)
    requires
        0 <= n <= items.len(),
    ensures
        sources::clock_actions(open, items, n).contains(SourceAction::RefreshPushed(id))
            <==> open.dom().contains(id.0) && open[id.0] is Open && exists|i: int|
            0 <= i < n && (#[trigger] items[i]).id == id && items[i].follows_clock,
    decreases n,
{
    if n > 0 {
        lemma_clocks(open, items, n - 1, id);
        let before = sources::clock_actions(open, items, n - 1);
        let last = items[n - 1];
        lemma_contains_push(
            before,
            SourceAction::RefreshPushed(last.id),
            SourceAction::RefreshPushed(id),
        );
        if exists|i: int| 0 <= i < n - 1 && (#[trigger] items[i]).id == id
            && items[i].follows_clock {
            let i = choose|i: int|
                0 <= i < n - 1 && (#[trigger] items[i]).id == id && items[i].follows_clock;
            assert(items[i].id == id);
        }
    }
}

/// Settling sees to every source that is held: whatever one of them asks for by
/// itself is asked for, and a source the project no longer holds is stopped.
pub proof fn law_settling_sees_to_every_source(
    open: Map<i64, SourceState>,
    keys: Seq<i64>,
    scene: Scene,
    now: u64,
    id: i64,
    source: OpenSource,
    a: int,
)
    requires
        keys.contains(id),
        open.dom().contains(id),
        open[id] == SourceState::Open(source),
        0 <= a < sources::settle_one(open[id], scene.items@, id).len(),
    ensures
        sources::settling(open, keys, scene, Seq::empty(), now).contains(
            sources::settle_one(open[id], scene.items@, id)[a],
        ),
        !scene.live_items@.contains(id) ==> sources::settling(
            open,
            keys,
            scene,
            Seq::empty(),
            now,
        ).contains(SourceAction::Stop(SceneItemId(id))),
{
    let none = Seq::<i64>::empty();
    let freed = sources::let_go(open, none, now);
    assert(freed =~= open);
    let n = keys.len() as int;
    let first = sources::let_go_actions(open, none, now, 0);
    let settled = sources::settle_actions(freed, keys, scene.items@, n);
    let closed = sources::close_actions(freed, keys, scene.live_items@, n);
    let all = sources::settling(open, keys, scene, none, now);
    assert(all =~= first + settled + closed);
    let i = keys.index_of(id);
    lemma_settle_has(open, keys, scene.items@, n, i, a);
    let asked = sources::settle_one(open[id], scene.items@, id)[a];
    let at = settled.index_of(asked);
    assert(all[first.len() + at] == asked);
    if !scene.live_items@.contains(id) {
        let stop = SourceAction::Stop(SceneItemId(id));
        lemma_closed(open, keys, scene.live_items@, n, id);
        assert(keys.take(n) =~= keys);
        let at = closed.index_of(stop);
        assert(all[first.len() + settled.len() + at] == stop);
    }
}

proof fn lemma_settle_has(
    open: Map<i64, SourceState>,
    keys: Seq<i64>,
    items: Seq<SceneItem>,
    n: int,
    i: int,
    a: int,
)
    requires
        0 <= i < n <= keys.len(),
        0 <= a < sources::settle_one(open[keys[i]], items, keys[i]).len(),
    ensures
        sources::settle_actions(open, keys, items, n).contains(
            sources::settle_one(open[keys[i]], items, keys[i])[a],
        ),
    decreases n,
{
    let before = sources::settle_actions(open, keys, items, n - 1);
    let all = sources::settle_actions(open, keys, items, n);
    let asked = sources::settle_one(open[keys[i]], items, keys[i]);
    if i < n - 1 {
        lemma_settle_has(open, keys, items, n - 1, i, a);
        let at = before.index_of(asked[a]);
        assert(all[at] == asked[a]);
    } else {
        assert(all[before.len() + a] == asked[a]);
    }
}

/// What was asked for again by hand is due at once, wherever the clock reaches
/// back as far as its wait.
pub proof fn law_what_is_asked_for_again_is_due(item: SceneItem, now: u64)
    ensures
        !(item.settings is Rtsp) && now >= 1_000_000_000 ==> sources::overdue(item, now) == now
            - 1_000_000_000,
        item.settings matches SourceSettings::Rtsp(settings) ==> (settings.reconnect matches Some(
            interval,
        ) ==> (now >= interval ==> sources::overdue(item, now) == now - interval)),
        !(item.settings is Rtsp) && now < 1_000_000_000 ==> sources::overdue(item, now) == now,
        now >= 1_000_000_000 && !(item.settings is Rtsp) ==> sources::due(
            Some(SourceState::Missing(sources::overdue(item, now))),
            item,
            now,
        ),
{
}

/// An answer that brought nothing asks for nothing, and neither does telling
/// where an item stands that the scene no longer holds.
pub proof fn law_an_answer_without_a_source_asks_for_nothing(
    open: Map<i64, SourceState>,
    items: Seq<SceneItem>,
    project: bool,
    opened: Opened,
    arrival: Arrival,
)
    ensures
        opened.result is Nothing || opened.result is Refused ==> sources::finish_actions(
            open,
            items,
            project,
            opened,
        ).len() == 0,
        opened.result == OpenResult::Running(arrival) && open.dom().contains(opened.item.id.0)
            && open[opened.item.id.0] is Opening && (forall|j: int|
            0 <= j < items.len() ==> (#[trigger] items[j]).id.0 != opened.item.id.0)
            ==> sources::finish_actions(open, items, project, opened) == sources::news(
            project,
            opened.item,
            arrival,
        ),
{
    if forall|j: int| 0 <= j < items.len() ==> (#[trigger] items[j]).id.0 != opened.item.id.0 {
        law_what_is_not_there_is_not_found(items, opened.item.id.0);
    }
    if opened.result == OpenResult::Running(arrival) {
        let told = sources::news(project, opened.item, arrival);
        assert(told + Seq::<SourceAction>::empty() =~= told);
    }
}

} // verus!
