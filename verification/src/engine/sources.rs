//! The sources of a scene: which are running, which are on their way, and
//! which are left alone.
use vstd::prelude::*;

use crate::scene::{
    self, layer_for, FilterSlot, Scene, SceneItem, SceneItemId, Size, SourceKind, SourceSettings,
    VideoLayer,
};
use crate::table::{holds, Table};

verus! {

/// How long a missing source waits before it is looked for again, unless its
/// own settings say otherwise, in nanoseconds.
pub const MISSING_RETRY: u64 = 1_000_000_000;

/// A source that is running, as far as the engine has to know.
pub struct OpenSource {
    /// Whether it is producing anything.
    pub running: bool,
    /// Whether its item is in the scene being shown.
    pub showing: bool,
    /// Whether its filters can be replaced while it runs.
    pub has_rack: bool,
    /// Whether there is a file behind it that can be moved about in.
    pub media_file: bool,
    /// The filters it runs through, in order.
    pub filters: Vec<FilterSlot>,
}

/// Where one item's source stands.
pub enum SourceState {
    Open(OpenSource),
    /// Asked for, and not answered yet.
    Opening,
    /// Opening failed once and will not be tried again.
    Failed,
    /// Opened cleanly, and what it captures is not here right now. Carries
    /// when it started waiting.
    Missing(u64),
    /// Not running, and nothing but a request may open it again.
    Disconnected,
    /// A media file that played to its end.
    Ended,
}

/// What the engine asks of whatever runs the sources.
pub enum SourceAction {
    /// Open a source for this item, with this layer, at this rate.
    Open(SceneItemId, VideoLayer, u32),
    SetLayer(SceneItemId, VideoLayer),
    /// Redraw content this side produces, where it changed.
    RefreshPushed(SceneItemId),
    /// Bring a media file's own settings up to date.
    RefreshMediaFile(SceneItemId),
    /// Hand the running filters their stored settings.
    ApplyFilters(SceneItemId),
    /// Replace the running filters with the stored ones.
    RefillFilters(SceneItemId),
    Resume(SceneItemId),
    Pause(SceneItemId),
    Hide(SceneItemId),
    /// Stop the source and take its input off the compositor.
    Stop(SceneItemId),
    /// Let go of a source that is to be opened anew.
    LetGo(SceneItemId),
    /// Stop a source that arrived with nowhere to go.
    Discard(SceneItemId),
    /// Tell the project what size the source turned out to have.
    SetSourceSize(SceneItemId, SourceKind, Size),
    /// Tell the project the portal's new token.
    SetRestoreToken(SceneItemId, Option<String>),
}

/// How long this item waits before it is tried again.
pub open spec fn wait_of(item: SceneItem) -> u64 {
    match item.settings {
        SourceSettings::Rtsp(settings) => match settings.reconnect {
            Some(interval) => interval,
            None => MISSING_RETRY,
        },
        _ => MISSING_RETRY,
    }
}

/// How long this item waits before it is tried again, in nanoseconds.
pub fn retry_after(item: &SceneItem) -> (r: u64)
    ensures
        r == wait_of(*item),
{
    match &item.settings {
        SourceSettings::Rtsp(settings) => match settings.reconnect {
            Some(interval) => interval,
            None => MISSING_RETRY,
        },
        _ => MISSING_RETRY,
    }
}

/// Whether opening this item's source has to be asked for.
pub open spec fn must_ask(item: SceneItem) -> bool {
    match item.settings {
        SourceSettings::WindowCapture(settings) => !settings.target.silent(),
        SourceSettings::Rtsp(settings) => settings.reconnect is None,
        _ => false,
    }
}

/// Whether opening this item's source would interrupt whoever is at the
/// screen, or is something they said not to do.
pub fn needs_asking(item: &SceneItem) -> (r: bool)
    ensures
        r == must_ask(*item),
{
    match &item.settings {
        SourceSettings::WindowCapture(settings) => !settings.target.can_be_reopened_silently(),
        SourceSettings::Rtsp(settings) => settings.reconnect.is_none(),
        _ => false,
    }
}

/// Whether `i` is the first position at which `id` stands.
pub open spec fn stands_first(items: Seq<SceneItem>, id: i64, i: int) -> bool {
    &&& 0 <= i < items.len()
    &&& items[i].id.0 == id
    &&& forall|j: int| 0 <= j < i ==> (#[trigger] items[j]).id.0 != id
}

/// Where `id` stands in the scene, counting from the front.
pub open spec fn find(items: Seq<SceneItem>, id: i64) -> Option<int> {
    if exists|i: int| stands_first(items, id, i) {
        Some(choose|i: int| stands_first(items, id, i))
    } else {
        None
    }
}

/// Where an item stands in the scene, counting from the front.
pub fn position(items: &Vec<SceneItem>, id: i64) -> (r: Option<usize>)
    ensures
        match r {
            Some(i) => stands_first(items@, id, i as int) && find(items@, id) == Some(i as int),
            None => find(items@, id) is None && forall|j: int|
                0 <= j < items@.len() ==> (#[trigger] items@[j]).id.0 != id,
        },
{
    let mut i: usize = 0;
    while i < items.len()
        invariant
            i <= items@.len(),
            forall|j: int| 0 <= j < i ==> (#[trigger] items@[j]).id.0 != id,
        decreases items@.len() - i,
    {
        if items[i].id.0 == id {
            proof {
                assert(stands_first(items@, id, i as int));
                let k = choose|k: int| stands_first(items@, id, k);
                assert(stands_first(items@, id, k));
                assert(!(k < i) && !(i < k)) by {
                    assert(items@[i as int].id.0 == id);
                    assert(items@[k].id.0 == id);
                }
            }
            return Some(i);
        }
        i = i + 1;
    }
    proof {
        assert forall|k: int| !stands_first(items@, id, k) by {
            if stands_first(items@, id, k) {
                assert(items@[k].id.0 == id);
            }
        }
    }
    None
}

/// The layer an item of the scene is drawn as: the front-most item has the
/// largest z.
pub open spec fn layer_at(items: Seq<SceneItem>, i: int) -> VideoLayer {
    scene::placed(items[i], items[i].placement, ((items.len() - i) as usize) as i32)
}

/// Whether a running source's filters are the stored ones, in their order.
pub open spec fn same_filters(source: OpenSource, item: SceneItem) -> bool {
    source.filters@ == item.filters@
}

fn filters_match(source: &OpenSource, item: &SceneItem) -> (r: bool)
    ensures
        r == same_filters(*source, *item),
{
    if source.filters.len() != item.filters.len() {
        return false;
    }
    let mut i: usize = 0;
    while i < source.filters.len()
        invariant
            i <= source.filters@.len(),
            source.filters@.len() == item.filters@.len(),
            forall|j: int| 0 <= j < i ==> source.filters@[j] == item.filters@[j],
        decreases source.filters@.len() - i,
    {
        if source.filters[i] != item.filters[i] {
            return false;
        }
        i = i + 1;
    }
    proof {
        assert(source.filters@ =~= item.filters@);
    }
    true
}

/// What looking at one item asks for, given where its source stands.
pub open spec fn look_at(
    state: Option<SourceState>,
    item: SceneItem,
    layer: VideoLayer,
    fps: u32,
) -> Seq<SourceAction> {
    match state {
        Some(SourceState::Open(source)) => seq![
            SourceAction::SetLayer(item.id, layer),
            SourceAction::RefreshPushed(item.id),
            SourceAction::RefreshMediaFile(item.id),
        ] + (if same_filters(source, item) {
            seq![SourceAction::ApplyFilters(item.id)]
        } else if source.has_rack {
            seq![SourceAction::RefillFilters(item.id)]
        } else {
            Seq::empty()
        }),
        Some(SourceState::Missing(_)) | None => seq![SourceAction::Open(item.id, layer, fps)],
        _ => Seq::empty(),
    }
}

/// Where looking at an item leaves its source: whatever was not being held
/// is on its way.
pub open spec fn looked_at(state: Option<SourceState>) -> SourceState {
    match state {
        Some(SourceState::Missing(_)) | None => SourceState::Opening,
        Some(state) => state,
    }
}

/// What is held under an id.
pub open spec fn held(open: Map<i64, SourceState>, id: i64) -> Option<SourceState> {
    if open.dom().contains(id) {
        Some(open[id])
    } else {
        None
    }
}

/// Where the sources stand once the first `n` items have been looked at.
pub open spec fn looked(open: Map<i64, SourceState>, items: Seq<SceneItem>, n: int) -> Map<
    i64,
    SourceState,
>
    decreases n,
{
    if n <= 0 {
        open
    } else {
        let before = looked(open, items, n - 1);
        let id = items[n - 1].id.0;
        before.insert(id, looked_at(held(before, id)))
    }
}

/// What looking at the first `n` items asks for, in order.
pub open spec fn look_actions(
    open: Map<i64, SourceState>,
    items: Seq<SceneItem>,
    fps: u32,
    n: int,
) -> Seq<SourceAction>
    decreases n,
{
    if n <= 0 {
        Seq::empty()
    } else {
        let id = items[n - 1].id.0;
        look_actions(open, items, fps, n - 1) + look_at(
            held(looked(open, items, n - 1), id),
            items[n - 1],
            layer_at(items, n - 1),
            fps,
        )
    }
}

/// Whether a source has to be opened anew to take an item's filters.
pub open spec fn must_rebuild(state: Option<SourceState>, item: SceneItem) -> bool {
    state matches Some(SourceState::Open(source)) && !same_filters(source, item)
        && !source.has_rack
}

/// The items among the first `n` whose source has to be opened anew.
pub open spec fn rebuilds(
    open: Map<i64, SourceState>,
    items: Seq<SceneItem>,
    n: int,
) -> Seq<i64>
    decreases n,
{
    if n <= 0 {
        Seq::empty()
    } else {
        let id = items[n - 1].id.0;
        let before = rebuilds(open, items, n - 1);
        if must_rebuild(held(looked(open, items, n - 1), id), items[n - 1]) {
            before.push(id)
        } else {
            before
        }
    }
}

/// What the first half of a reconcile pass comes to.
pub struct Pass {
    pub actions: Vec<SourceAction>,
    /// The items whose source has to be opened anew.
    pub rebuild: Vec<i64>,
}

/// Marks an item as asked for, and answers with the request.
pub fn request_open(
    open: &mut Table<SourceState>,
    item: &SceneItem,
    layer: VideoLayer,
    fps: u32,
) -> (r: SourceAction)
    requires
        old(open).wf(),
    ensures
        final(open).wf(),
        final(open)@ == old(open)@.insert(item.id.0, SourceState::Opening),
        r == SourceAction::Open(item.id, layer, fps),
{
    open.insert(item.id.0, SourceState::Opening);
    SourceAction::Open(item.id, layer, fps)
}

/// Takes back a request that reached nobody: nothing will answer it.
pub fn open_undelivered(open: &mut Table<SourceState>, id: SceneItemId)
    requires
        old(open).wf(),
    ensures
        final(open).wf(),
        final(open)@ == old(open)@.insert(id.0, SourceState::Failed),
{
    open.insert(id.0, SourceState::Failed);
}

/// Applies a source's filters as the project now has them. Answers what has to
/// be done, and whether the source has to be opened anew.
pub fn refresh_filters(source: &OpenSource, item: &SceneItem) -> (r: (Option<SourceAction>, bool))
    ensures
        r.1 == must_rebuild(Some(SourceState::Open(*source)), *item),
        r.0 == (if same_filters(*source, *item) {
            Some(SourceAction::ApplyFilters(item.id))
        } else if source.has_rack {
            Some(SourceAction::RefillFilters(item.id))
        } else {
            None
        }),
{
    if filters_match(source, item) {
        (Some(SourceAction::ApplyFilters(item.id)), false)
    } else if source.has_rack {
        (Some(SourceAction::RefillFilters(item.id)), false)
    } else {
        (None, true)
    }
}

/// The first half of bringing the running sources in line with the scene:
/// every item is looked at, and whatever is missing is asked for.
pub fn look(open: &mut Table<SourceState>, items: &Vec<SceneItem>, fps: u32) -> (r: Pass)
    requires
        old(open).wf(),
    ensures
        final(open).wf(),
        final(open)@ == looked(old(open)@, items@, items@.len() as int),
        r.actions@ == look_actions(old(open)@, items@, fps, items@.len() as int),
        r.rebuild@ == rebuilds(old(open)@, items@, items@.len() as int),
{
    let mut actions: Vec<SourceAction> = Vec::new();
    let mut rebuild: Vec<i64> = Vec::new();
    let count: usize = items.len();
    let mut i: usize = 0;
    while i < count
        invariant
            i <= count == items@.len(),
            open.wf(),
            open@ == looked(old(open)@, items@, i as int),
            actions@ == look_actions(old(open)@, items@, fps, i as int),
            rebuild@ == rebuilds(old(open)@, items@, i as int),
        decreases count - i,
    {
        let item = &items[i];
        let layer: VideoLayer = layer_for(item, item.placement, (count - i) as i32);
        let ghost before = open@;
        let ghost acted = actions@;
        let ghost state = held(before, item.id.0);
        let mut ask: bool = false;
        match open.get(item.id.0) {
            Some(SourceState::Open(source)) => {
                actions.push(SourceAction::SetLayer(item.id, layer));
                actions.push(SourceAction::RefreshPushed(item.id));
                actions.push(SourceAction::RefreshMediaFile(item.id));
                let (action, anew) = refresh_filters(source, item);
                match action {
                    Some(action) => actions.push(action),
                    None => {},
                }
                if anew {
                    rebuild.push(item.id.0);
                }
            },
            Some(SourceState::Failed)
            | Some(SourceState::Disconnected)
            | Some(SourceState::Ended)
            | Some(SourceState::Opening) => {},
            Some(SourceState::Missing(_)) | None => {
                ask = true;
            },
        }
        if ask {
            let action = request_open(open, item, layer, fps);
            actions.push(action);
        }
        proof {
            let id = item.id.0;
            assert(open@ =~= before.insert(id, looked_at(state)));
            assert(actions@ =~= acted + look_at(state, *item, layer, fps));
        }
        i = i + 1;
    }
    Pass { actions, rebuild }
}

/// Takes what became of a refill: the filters that now run, or the news that
/// the source has to be opened anew.
pub fn refilled(
    open: &mut Table<SourceState>,
    rebuild: &mut Vec<i64>,
    id: SceneItemId,
    filters: Option<Vec<FilterSlot>>,
)
    requires
        old(open).wf(),
    ensures
        final(open).wf(),
        filters is None ==> final(open)@ == old(open)@ && final(rebuild)@ == old(rebuild)@.push(
            id.0,
        ),
        filters matches Some(slots) ==> final(rebuild)@ == old(rebuild)@ && final(open)@ == (
        match held(old(open)@, id.0) {
            Some(SourceState::Open(source)) => old(open)@.insert(
                id.0,
                SourceState::Open(OpenSource { filters: slots, ..source }),
            ),
            _ => old(open)@,
        }),
{
    match filters {
        None => {
            rebuild.push(id.0);
        },
        Some(slots) => {
            let mut replace: Option<OpenSource> = None;
            match open.get(id.0) {
                Some(SourceState::Open(source)) => {
                    replace = Some(
                        OpenSource {
                            running: source.running,
                            showing: source.showing,
                            has_rack: source.has_rack,
                            media_file: source.media_file,
                            filters: slots,
                        },
                    );
                },
                _ => {},
            }
            match replace {
                Some(source) => {
                    open.insert(id.0, SourceState::Open(source));
                },
                None => {},
            }
        },
    }
}

/// Whether an item of the scene names this id.
pub open spec fn shown(items: Seq<SceneItem>, id: i64) -> bool {
    find(items, id) is Some
}

/// Whether the source behind this id should be producing anything: its item is
/// in the scene, and is not one that is paused.
pub open spec fn wanted(items: Seq<SceneItem>, id: i64) -> bool {
    match find(items, id) {
        Some(i) => !items[i].paused,
        None => false,
    }
}

/// Where settling leaves one source: running and showing as the scene asks.
pub open spec fn settled(state: SourceState, items: Seq<SceneItem>, id: i64) -> SourceState {
    match state {
        SourceState::Open(source) => SourceState::Open(
            OpenSource { running: wanted(items, id), showing: shown(items, id), ..source },
        ),
        state => state,
    }
}

/// What settling one source asks for: it is resumed or paused where that
/// changes anything, and hidden when its item has left the scene.
pub open spec fn settle_one(state: SourceState, items: Seq<SceneItem>, id: i64) -> Seq<
    SourceAction,
> {
    match state {
        SourceState::Open(source) => (if wanted(items, id) == source.running {
            Seq::empty()
        } else if wanted(items, id) {
            seq![SourceAction::Resume(SceneItemId(id))]
        } else {
            seq![SourceAction::Pause(SceneItemId(id))]
        }) + (if source.showing && !shown(items, id) {
            seq![SourceAction::Hide(SceneItemId(id))]
        } else {
            Seq::empty()
        }),
        _ => Seq::empty(),
    }
}

/// What settling the first `n` of `keys` asks for.
pub open spec fn settle_actions(
    open: Map<i64, SourceState>,
    keys: Seq<i64>,
    items: Seq<SceneItem>,
    n: int,
) -> Seq<SourceAction>
    decreases n,
{
    if n <= 0 {
        Seq::empty()
    } else {
        settle_actions(open, keys, items, n - 1) + settle_one(
            open[keys[n - 1]],
            items,
            keys[n - 1],
        )
    }
}

/// What closing whatever the project no longer holds asks for, over the first
/// `n` of `keys`.
pub open spec fn close_actions(
    open: Map<i64, SourceState>,
    keys: Seq<i64>,
    live: Seq<i64>,
    n: int,
) -> Seq<SourceAction>
    decreases n,
{
    if n <= 0 {
        Seq::empty()
    } else {
        let id = keys[n - 1];
        let before = close_actions(open, keys, live, n - 1);
        if open[id] is Open && !live.contains(id) {
            before.push(SourceAction::Stop(SceneItemId(id)))
        } else {
            before
        }
    }
}

/// Where the sources stand once those in `rebuild` have been let go of.
pub open spec fn let_go(
    open: Map<i64, SourceState>,
    rebuild: Seq<i64>,
    now: u64,
) -> Map<i64, SourceState> {
    Map::new(
        |id: i64| open.dom().contains(id),
        |id: i64|
            if rebuild.contains(id) {
                SourceState::Missing(now)
            } else {
                open[id]
            },
    )
}

/// What letting go of the first `n` of `rebuild` asks for.
pub open spec fn let_go_actions(
    open: Map<i64, SourceState>,
    rebuild: Seq<i64>,
    now: u64,
    n: int,
) -> Seq<SourceAction>
    decreases n,
{
    if n <= 0 {
        Seq::empty()
    } else {
        let id = rebuild[n - 1];
        let before = let_go_actions(open, rebuild, now, n - 1);
        if let_go(open, rebuild.take(n - 1), now)[id] is Open {
            before.push(SourceAction::LetGo(SceneItemId(id)))
        } else {
            before
        }
    }
}

/// What the second half of a reconcile pass asks for: what is to be opened
/// anew is let go of, what the scene wants otherwise is resumed, paused or
/// hidden, and what the project no longer holds is closed.
pub open spec fn settling(
    open: Map<i64, SourceState>,
    keys: Seq<i64>,
    scene: Scene,
    rebuild: Seq<i64>,
    now: u64,
) -> Seq<SourceAction> {
    let freed = let_go(open, rebuild, now);
    let_go_actions(open, rebuild, now, rebuild.len() as int) + settle_actions(
        freed,
        keys,
        scene.items@,
        keys.len() as int,
    ) + close_actions(freed, keys, scene.live_items@, keys.len() as int)
}

/// Where the sources stand once a reconcile pass is over: only what the
/// project holds is kept, and every source runs and shows as the scene asks.
pub open spec fn reconciled(
    open: Map<i64, SourceState>,
    scene: Scene,
    rebuild: Seq<i64>,
    now: u64,
) -> Map<i64, SourceState> {
    Map::new(
        |id: i64| open.dom().contains(id) && scene.live_items@.contains(id),
        |id: i64| settled(let_go(open, rebuild, now)[id], scene.items@, id),
    )
}

/// The second half of bringing the running sources in line with the scene.
///
/// A source whose item merely left the scene is kept, paused: coming back is
/// then a resume. Only an item the project no longer holds anywhere is closed.
pub fn settle(
    open: &mut Table<SourceState>,
    scene: &Scene,
    rebuild: &Vec<i64>,
    now: u64,
) -> (actions: Vec<SourceAction>)
    requires
        old(open).wf(),
        forall|id: i64| rebuild@.contains(id) ==> old(open)@.dom().contains(id),
    ensures
        final(open).wf(),
        final(open)@ == reconciled(old(open)@, *scene, rebuild@, now),
        final(open).keys() == old(open).keys().filter(|id: i64| scene.live_items@.contains(id)),
        actions@ == settling(old(open)@, old(open).keys(), *scene, rebuild@, now),
{
    let ghost keys = open.keys();
    let ghost freed = let_go(open@, rebuild@, now);
    let mut actions: Vec<SourceAction> = Vec::new();
    let mut i: usize = 0;
    while i < rebuild.len()
        invariant
            i <= rebuild@.len(),
            open.wf(),
            keys == old(open).keys(),
            open.keys() == keys,
            forall|id: i64| rebuild@.contains(id) ==> old(open)@.dom().contains(id),
            open@ =~= let_go(old(open)@, rebuild@.take(i as int), now),
            actions@ == let_go_actions(old(open)@, rebuild@, now, i as int),
        decreases rebuild@.len() - i,
    {
        let ghost before = open@;
        let id: i64 = rebuild[i];
        proof {
            assert(rebuild@.contains(id));
        }
        match open.insert(id, SourceState::Missing(now)) {
            Some(SourceState::Open(_)) => actions.push(SourceAction::LetGo(SceneItemId(id))),
            _ => {},
        }
        proof {
            let more = rebuild@.take(i + 1);
            let less = rebuild@.take(i as int);
            assert(more =~= less.push(id));
            assert forall|k: i64| more.contains(k) <==> (less.contains(k) || k == id) by {
                if less.contains(k) {
                    let j = less.index_of(k);
                    assert(more[j] == k);
                }
                assert(more[i as int] == id);
            }
        }
        i = i + 1;
    }
    proof {
        assert(rebuild@.take(rebuild@.len() as int) =~= rebuild@);
        assert(open@ =~= freed);
        open.lemma_keys();
    }
    let ghost freeing = actions@;
    let mut at: usize = 0;
    while at < open.len()
        invariant
            at <= keys.len(),
            open.wf(),
            open.keys() == keys,
            keys.no_duplicates(),
            freed.dom() =~= open@.dom(),
            forall|k: i64| freed.dom().contains(k) <==> #[trigger] keys.contains(k),
            forall|j: int|
                0 <= j < at ==> open@[#[trigger] keys[j]] == settled(
                    freed[keys[j]],
                    scene.items@,
                    keys[j],
                ),
            forall|j: int| at <= j < keys.len() ==> open@[#[trigger] keys[j]] == freed[keys[j]],
            actions@ =~= freeing + settle_actions(freed, keys, scene.items@, at as int),
        decreases keys.len() - at,
    {
        let ghost acted = actions@;
        let id: i64 = open.key_at(at);
        proof {
            assert(keys[at as int] == id);
        }
        let state = open.replace_at(at, SourceState::Opening);
        let next = match state {
            SourceState::Open(source) => {
                let mut source = source;
                let found = position(&scene.items, id);
                let showing: bool = found.is_some();
                let running: bool = match found {
                    Some(index) => !scene.items[index].paused,
                    None => false,
                };
                if running != source.running {
                    if running {
                        actions.push(SourceAction::Resume(SceneItemId(id)));
                    } else {
                        actions.push(SourceAction::Pause(SceneItemId(id)));
                    }
                    source.running = running;
                }
                if showing != source.showing {
                    if !showing {
                        actions.push(SourceAction::Hide(SceneItemId(id)));
                    }
                    source.showing = showing;
                }
                SourceState::Open(source)
            },
            state => state,
        };
        open.replace_at(at, next);
        proof {
            assert(actions@ =~= acted + settle_one(freed[id], scene.items@, id));
            assert(next == settled(freed[id], scene.items@, id));
            assert forall|j: int| at < j < keys.len() implies open@[#[trigger] keys[j]]
                == freed[keys[j]] by {
                assert(keys[j] != id);
            }
            assert forall|j: int| 0 <= j < at + 1 implies open@[#[trigger] keys[j]] == settled(
                freed[keys[j]],
                scene.items@,
                keys[j],
            ) by {
                if j < at {
                    assert(keys[j] != id);
                }
            }
            assert(freed.dom() =~= open@.dom());
        }
        at = at + 1;
    }
    let ghost moved = open@;
    let ghost settled_to = actions@;
    let mut at: usize = 0;
    while at < open.len()
        invariant
            at <= keys.len(),
            open.wf(),
            open.keys() == keys,
            open@ == moved,
            forall|j: int|
                0 <= j < keys.len() ==> moved[#[trigger] keys[j]] == settled(
                    freed[keys[j]],
                    scene.items@,
                    keys[j],
                ),
            actions@ =~= settled_to + close_actions(freed, keys, scene.live_items@, at as int),
        decreases keys.len() - at,
    {
        let id: i64 = open.key_at(at);
        proof {
            assert(keys[at as int] == id);
        }
        if !holds(&scene.live_items, id) {
            match open.value_at(at) {
                SourceState::Open(_) => {
                    actions.push(SourceAction::Stop(SceneItemId(id)));
                },
                _ => {},
            }
        }
        at = at + 1;
    }
    open.retain_in(&scene.live_items);
    proof {
        assert forall|k: i64| #[trigger] open@.dom().contains(k) implies open@[k] == settled(
            freed[k],
            scene.items@,
            k,
        ) by {
            assert(keys.contains(k));
            let j = keys.index_of(k);
            assert(keys[j] == k);
        }
        assert(open@ =~= reconciled(old(open)@, *scene, rebuild@, now));
    }
    actions
}

/// A source that has just been opened, and what was learned on the way.
pub struct Arrival {
    pub source: OpenSource,
    /// The size it turned out to have.
    pub negotiated_size: Option<Size>,
    /// The portal's token, where it is not the one that was stored.
    pub refreshed_token: Option<Option<String>>,
}

/// What an attempt to open a source came out as.
pub enum OpenResult {
    /// Nothing to open yet, and nothing wrong.
    Nothing,
    Running(Arrival),
    Refused,
}

/// An answer from whatever opens sources, with the item it was asked for.
pub struct Opened {
    pub item: SceneItem,
    pub result: OpenResult,
}

/// What the project is told of a source that opened.
pub open spec fn news(project: bool, item: SceneItem, arrival: Arrival) -> Seq<SourceAction> {
    (if project && arrival.negotiated_size is Some && item.settings.hint()
        != arrival.negotiated_size {
        seq![SourceAction::SetSourceSize(item.id, item.kind, arrival.negotiated_size->0)]
    } else {
        Seq::empty()
    }) + (if project && arrival.refreshed_token is Some {
        seq![SourceAction::SetRestoreToken(item.id, arrival.refreshed_token->0)]
    } else {
        Seq::empty()
    })
}

/// Which state an answer leaves the item in.
pub open spec fn answered(item: SceneItem, result: OpenResult, now: u64) -> SourceState {
    match result {
        OpenResult::Nothing => SourceState::Missing(now),
        OpenResult::Running(arrival) => SourceState::Open(arrival.source),
        OpenResult::Refused => if must_ask(item) {
            SourceState::Disconnected
        } else {
            SourceState::Failed
        },
    }
}

/// Which state one answer leaves the item in, and what the project is told.
pub fn state_of(project: bool, item: &SceneItem, result: OpenResult, now: u64) -> (r: (
    SourceState,
    Vec<SourceAction>,
))
    ensures
        r.0 == answered(*item, result, now),
        r.1@ == (match result {
            OpenResult::Running(arrival) => news(project, *item, arrival),
            _ => Seq::empty(),
        }),
{
    let mut actions: Vec<SourceAction> = Vec::new();
    match result {
        OpenResult::Nothing => (SourceState::Missing(now), actions),
        OpenResult::Running(arrival) => {
            if project {
                match arrival.negotiated_size {
                    Some(size) => {
                        if item.settings.size_hint() != Some(size) {
                            actions.push(SourceAction::SetSourceSize(item.id, item.kind, size));
                        }
                    },
                    None => {},
                }
                match arrival.refreshed_token {
                    Some(token) => {
                        actions.push(SourceAction::SetRestoreToken(item.id, token));
                    },
                    None => {},
                }
            }
            proof {
                assert(actions@ =~= news(project, *item, arrival));
            }
            (SourceState::Open(arrival.source), actions)
        },
        OpenResult::Refused => {
            if needs_asking(item) {
                (SourceState::Disconnected, actions)
            } else {
                (SourceState::Failed, actions)
            }
        },
    }
}

/// What taking an answer asks for. Where nothing is waiting for it, only that
/// what arrived be stopped; otherwise the project is told what was learned,
/// and what opened is placed where its item stands now.
pub open spec fn finish_actions(
    open: Map<i64, SourceState>,
    items: Seq<SceneItem>,
    project: bool,
    opened: Opened,
) -> Seq<SourceAction> {
    let id = opened.item.id;
    match opened.result {
        OpenResult::Running(arrival) => if held(open, id.0) == Some(SourceState::Opening) {
            news(project, opened.item, arrival) + (match find(items, id.0) {
                Some(i) => seq![
                    SourceAction::SetLayer(id, layer_at(items, i)),
                    SourceAction::RefreshPushed(id),
                    SourceAction::RefreshMediaFile(id),
                ],
                None => Seq::empty(),
            })
        } else {
            seq![SourceAction::Discard(id)]
        },
        _ => Seq::empty(),
    }
}

/// Takes what the opener answered with, if anything is still waiting for it.
pub fn finish_open(
    open: &mut Table<SourceState>,
    scene: &Scene,
    project: bool,
    opened: Opened,
    now: u64,
) -> (actions: Vec<SourceAction>)
    requires
        old(open).wf(),
    ensures
        final(open).wf(),
        final(open)@ == (if held(old(open)@, opened.item.id.0) == Some(SourceState::Opening) {
            old(open)@.insert(opened.item.id.0, answered(opened.item, opened.result, now))
        } else {
            old(open)@
        }),
        actions@ == finish_actions(old(open)@, scene.items@, project, opened),
{
    let id: SceneItemId = opened.item.id;
    let waiting: bool = match open.get(id.0) {
        Some(SourceState::Opening) => true,
        _ => false,
    };
    if !waiting {
        let mut actions: Vec<SourceAction> = Vec::new();
        match opened.result {
            OpenResult::Running(_) => {
                actions.push(SourceAction::Discard(id));
                proof {
                    assert(actions@ =~= seq![SourceAction::Discard(id)]);
                }
            },
            _ => {},
        }
        return actions;
    }
    let (state, told) = state_of(project, &opened.item, opened.result, now);
    let mut actions = told;
    match &state {
        SourceState::Open(_) => {
            match position(&scene.items, id.0) {
                Some(index) => {
                    let item = &scene.items[index];
                    let ghost before = actions@;
                    let layer: VideoLayer = layer_for(
                        item,
                        item.placement,
                        (scene.items.len() - index) as i32,
                    );
                    actions.push(SourceAction::SetLayer(id, layer));
                    actions.push(SourceAction::RefreshPushed(id));
                    actions.push(SourceAction::RefreshMediaFile(id));
                    proof {
                        assert(actions@ =~= before + seq![
                            SourceAction::SetLayer(id, layer_at(scene.items@, index as int)),
                            SourceAction::RefreshPushed(id),
                            SourceAction::RefreshMediaFile(id),
                        ]);
                    }
                },
                None => {},
            }
        },
        _ => {},
    }
    open.insert(id.0, state);
    proof {
        assert(actions@ =~= finish_actions(old(open)@, scene.items@, project, opened));
    }
    actions
}

/// Whether an item is missing and has waited long enough to be tried again.
pub open spec fn due(state: Option<SourceState>, item: SceneItem, now: u64) -> bool {
    state matches Some(SourceState::Missing(since)) && waited(since, now) >= wait_of(item)
}

/// How long it is from one moment to a later one; nothing where it is not
/// later.
pub open spec fn waited(since: u64, now: u64) -> int {
    if now >= since {
        now - since
    } else {
        0
    }
}

/// Where the sources stand once the first `n` items have had their turn to be
/// tried again.
pub open spec fn retried(
    open: Map<i64, SourceState>,
    items: Seq<SceneItem>,
    now: u64,
    n: int,
) -> Map<i64, SourceState>
    decreases n,
{
    if n <= 0 {
        open
    } else {
        let before = retried(open, items, now, n - 1);
        let id = items[n - 1].id.0;
        if due(held(before, id), items[n - 1], now) {
            before.insert(id, SourceState::Opening)
        } else {
            before
        }
    }
}

/// What trying the first `n` items again asks for.
pub open spec fn retry_actions(
    open: Map<i64, SourceState>,
    items: Seq<SceneItem>,
    fps: u32,
    now: u64,
    n: int,
) -> Seq<SourceAction>
    decreases n,
{
    if n <= 0 {
        Seq::empty()
    } else {
        let before = retry_actions(open, items, fps, now, n - 1);
        let item = items[n - 1];
        if due(held(retried(open, items, now, n - 1), item.id.0), item, now) {
            before.push(SourceAction::Open(item.id, layer_at(items, n - 1), fps))
        } else {
            before
        }
    }
}

/// Looks again for whatever a missing source captures, each on its own clock.
pub fn retry_missing(
    open: &mut Table<SourceState>,
    items: &Vec<SceneItem>,
    fps: u32,
    now: u64,
) -> (actions: Vec<SourceAction>)
    requires
        old(open).wf(),
    ensures
        final(open).wf(),
        final(open)@ == retried(old(open)@, items@, now, items@.len() as int),
        actions@ == retry_actions(old(open)@, items@, fps, now, items@.len() as int),
{
    let mut actions: Vec<SourceAction> = Vec::new();
    let count: usize = items.len();
    let mut i: usize = 0;
    while i < count
        invariant
            i <= count == items@.len(),
            open.wf(),
            open@ == retried(old(open)@, items@, now, i as int),
            actions@ == retry_actions(old(open)@, items@, fps, now, i as int),
        decreases count - i,
    {
        let item = &items[i];
        let ready: bool = match open.get(item.id.0) {
            Some(SourceState::Missing(since)) => now.saturating_sub(*since) >= retry_after(item),
            _ => false,
        };
        if ready {
            let layer: VideoLayer = layer_for(item, item.placement, (count - i) as i32);
            let action = request_open(open, item, layer, fps);
            actions.push(action);
        }
        i = i + 1;
    }
    actions
}

/// The moment a wait that is already over began: now less the wait, or now
/// where the clock does not reach back that far.
pub open spec fn overdue(item: SceneItem, now: u64) -> u64 {
    if now >= wait_of(item) {
        (now - wait_of(item)) as u64
    } else {
        now
    }
}

/// Lets go of a source so that the next pass opens it again. Answers whether
/// the scene holds the item at all.
pub fn reopen(
    open: &mut Table<SourceState>,
    items: &Vec<SceneItem>,
    id: SceneItemId,
    now: u64,
) -> (r: (bool, Vec<SourceAction>))
    requires
        old(open).wf(),
    ensures
        final(open).wf(),
        r.0 == shown(items@, id.0),
        match find(items@, id.0) {
            Some(i) => {
                &&& final(open)@ == old(open)@.insert(
                    id.0,
                    SourceState::Missing(overdue(items@[i], now)),
                )
                &&& r.1@ == (if held(old(open)@, id.0) matches Some(SourceState::Open(_)) {
                    seq![SourceAction::Stop(id)]
                } else {
                    Seq::empty()
                })
            },
            None => final(open)@ == old(open)@ && r.1@ == Seq::<SourceAction>::empty(),
        },
{
    let mut actions: Vec<SourceAction> = Vec::new();
    let index: usize = match position(items, id.0) {
        Some(index) => index,
        None => {
            return (false, actions);
        },
    };
    match open.get(id.0) {
        Some(SourceState::Open(_)) => {
            actions.push(SourceAction::Stop(id));
            proof {
                assert(actions@ =~= seq![SourceAction::Stop(id)]);
            }
        },
        _ => {},
    }
    let wait: u64 = retry_after(&items[index]);
    let since: u64 = match now.checked_sub(wait) {
        Some(since) => since,
        None => now,
    };
    open.insert(id.0, SourceState::Missing(since));
    (true, actions)
}

/// What redrawing the clocks among the first `n` items asks for.
pub open spec fn clock_actions(
    open: Map<i64, SourceState>,
    items: Seq<SceneItem>,
    n: int,
) -> Seq<SourceAction>
    decreases n,
{
    if n <= 0 {
        Seq::empty()
    } else {
        let before = clock_actions(open, items, n - 1);
        let item = items[n - 1];
        if item.follows_clock && (held(open, item.id.0) matches Some(SourceState::Open(_))) {
            before.push(SourceAction::RefreshPushed(item.id))
        } else {
            before
        }
    }
}

/// Redraws every running source that follows the clock rather than an edit.
pub fn redraw_clocks(open: &Table<SourceState>, items: &Vec<SceneItem>) -> (actions: Vec<
    SourceAction,
>)
    requires
        open.wf(),
    ensures
        actions@ == clock_actions(open@, items@, items@.len() as int),
{
    let mut actions: Vec<SourceAction> = Vec::new();
    let mut i: usize = 0;
    while i < items.len()
        invariant
            i <= items@.len(),
            open.wf(),
            actions@ == clock_actions(open@, items@, i as int),
        decreases items@.len() - i,
    {
        let item = &items[i];
        if item.follows_clock {
            match open.get(item.id.0) {
                Some(SourceState::Open(_)) => {
                    actions.push(SourceAction::RefreshPushed(item.id));
                },
                _ => {},
            }
        }
        i = i + 1;
    }
    actions
}

} // verus!
