//! Items coming up when they are shown, and going when they are hidden.
//!
//! A fade is a layer's opacity moved a little at a time. Only an item whose
//! visibility differs from the last pass that drew it fades: one seen for the
//! first time did not change, it arrived. Moments are in nanoseconds, and
//! levels count up to [`FULL`].
use vstd::prelude::*;

use crate::scene::SceneItem;
use crate::table::{holds, Table};

verus! {

/// The level of an item that is all there.
pub const FULL: u32 = 16_777_216;

/// One fade in progress.
#[derive(Clone, Copy, Debug, PartialEq, Eq, Structural)]
pub struct Fade {
    /// Where it started, which is not always an end.
    pub from: u32,
    pub to: u32,
    pub started: u64,
    pub duration: u64,
}

/// How long a fade has been going; nothing before it started.
pub open spec fn gone_by(fade: Fade, now: u64) -> int {
    if now >= fade.started {
        now - fade.started
    } else {
        0
    }
}

impl Fade {
    /// Both ends are levels.
    pub open spec fn wf(&self) -> bool {
        self.from <= FULL && self.to <= FULL
    }

    /// Whether it is over.
    pub open spec fn over(&self, now: u64) -> bool {
        gone_by(*self, now) >= self.duration
    }

    /// The level it has reached: as far from where it started to where it goes
    /// as the time that has passed is of the time it takes.
    pub open spec fn level(&self, now: u64) -> int {
        if self.over(now) {
            self.to as int
        } else {
            self.from + ((self.to - self.from) * gone_by(*self, now)) / (self.duration as int)
        }
    }

    /// The level a fade has reached.
    pub fn at(&self, now: u64) -> (r: u32)
        requires
            self.wf(),
        ensures
            r == self.level(now),
            r <= FULL,
            now <= self.started && self.duration > 0 ==> r == self.from,
            now >= self.started + self.duration ==> r == self.to,
            self.started <= now < self.started + self.duration ==> -self.duration < (r - self.from)
                * self.duration - (self.to - self.from) * (now - self.started) < self.duration,
    {
        proof {
            law_a_fade_moves_in_proportion(*self, now);
        }
        let elapsed: u64 = now.saturating_sub(self.started);
        if elapsed >= self.duration {
            return self.to;
        }
        let reach: i128 = self.to as i128 - self.from as i128;
        let ghost d = self.duration as int;
        let ghost e = elapsed as int;
        proof {
            lemma_between(self.from as int, self.to as int, e, d);
            assert(-0x100_0000 * 0x1_0000_0000_0000_0000 <= reach * elapsed <= 0x100_0000
                * 0x1_0000_0000_0000_0000) by (nonlinear_arith)
                requires
                    -0x100_0000 <= reach <= 0x100_0000,
                    0 <= elapsed <= 0xffff_ffff_ffff_ffff,
            ;
        }
        let product: i128 = reach * elapsed as i128;
        let over: i128 = self.duration as i128;
        let moved: i128 = if product >= 0 {
            product / over
        } else {
            -((-product + (over - 1)) / over)
        };
        proof {
            if product < 0 {
                assert(-((-(product as int) + (over - 1)) / (over as int)) == product as int
                    / over as int) by (nonlinear_arith)
                    requires
                        over > 0,
                        product < 0,
                ;
            }
        }
        (self.from as i128 + moved) as u32
    }

    /// Whether a fade is over.
    pub fn done(&self, now: u64) -> (r: bool)
        ensures
            r == self.over(now),
            now >= self.started ==> r == (now - self.started >= self.duration),
            now < self.started ==> r == (self.duration == 0),
    {
        now.saturating_sub(self.started) >= self.duration
    }
}

/// Part of the way from one level to another is between them.
proof fn lemma_between(from: int, to: int, e: int, d: int)
    requires
        0 <= e < d,
    ensures
        from <= to ==> from <= from + ((to - from) * e) / d <= to,
        to <= from ==> to <= from + ((to - from) * e) / d <= from,
{
    let reach = to - from;
    if from <= to {
        assert(0 <= (reach * e) / d <= reach) by (nonlinear_arith)
            requires
                0 <= e < d,
                reach >= 0,
        ;
    } else {
        assert(reach <= (reach * e) / d <= 0) by (nonlinear_arith)
            requires
                0 <= e < d,
                reach < 0,
        ;
    }
}

/// How one item is drawn.
#[derive(Clone, Copy, Debug, PartialEq, Eq, Structural)]
pub struct Shown {
    /// Whether its layer is drawn at all.
    pub visible: bool,
    /// What its own opacity is multiplied by, of [`FULL`].
    pub factor: u32,
}

/// Every item that is coming up or going.
pub struct ItemFades {
    running: Table<Fade>,
    last: Table<bool>,
    previous: Vec<i64>,
    current: Vec<i64>,
}

/// How long an item takes to become what it now is, in milliseconds.
pub open spec fn takes(item: SceneItem) -> u32 {
    if item.visible {
        item.fades.show_ms
    } else {
        item.fades.hide_ms
    }
}

/// The level an item that is wholly what it was begins to fade from.
pub open spec fn other_end(item: SceneItem) -> u32 {
    if item.visible {
        0
    } else {
        FULL
    }
}

/// The level an item fades to.
pub open spec fn this_end(item: SceneItem) -> u32 {
    if item.visible {
        FULL
    } else {
        0
    }
}

impl ItemFades {
    /// The fades in progress.
    pub closed spec fn fading(&self) -> Map<i64, Fade> {
        self.running@
    }

    /// Each item's visibility, as the last pass that drew it saw it.
    pub closed spec fn seen_as(&self) -> Map<i64, bool> {
        self.last@
    }

    /// The items the last pass drew.
    pub closed spec fn before(&self) -> Set<i64> {
        self.previous@.to_set()
    }

    /// The items this pass has drawn so far.
    pub closed spec fn so_far(&self) -> Set<i64> {
        self.current@.to_set()
    }

    /// Every level is one, and no item is held twice.
    pub closed spec fn wf(&self) -> bool {
        &&& self.running.wf()
        &&& self.last.wf()
        &&& forall|id: i64| #[trigger]
            self.running@.dom().contains(id) ==> self.running@[id].wf()
    }

    /// Nothing fades that neither the last pass nor this one has drawn.
    pub open spec fn drew_what_fades(&self) -> bool {
        forall|id: i64| #[trigger] self.fading().dom().contains(id) ==> self.knows(id)
    }

    /// Nothing fades that the last pass has not drawn.
    pub open spec fn last_drew_what_fades(&self) -> bool {
        forall|id: i64| #[trigger] self.fading().dom().contains(id) ==> self.before().contains(id)
    }

    /// Whether an item was drawn by the last pass, or already by this one.
    pub open spec fn knows(&self, id: i64) -> bool {
        self.before().contains(id) || self.so_far().contains(id)
    }

    /// Whether an item has changed since it was last drawn.
    pub open spec fn changed(&self, item: SceneItem) -> bool {
        let id = item.id.0;
        self.knows(id) && self.seen_as().dom().contains(id) && self.seen_as()[id] != item.visible
    }

    /// The fades once a change of this item has begun one: from wherever the
    /// item is now, and none where it takes no time.
    pub open spec fn begun(&self, item: SceneItem, now: u64) -> Map<i64, Fade> {
        let id = item.id.0;
        if !self.changed(item) {
            self.fading()
        } else if takes(item) == 0 {
            self.fading().remove(id)
        } else {
            self.fading().insert(
                id,
                Fade {
                    from: if self.fading().dom().contains(id) {
                        self.fading()[id].level(now) as u32
                    } else {
                        other_end(item)
                    },
                    to: this_end(item),
                    started: now,
                    duration: (takes(item) * 1_000_000) as u64,
                },
            )
        }
    }

    /// Whether an item is on its way once this pass has drawn it.
    pub open spec fn on_its_way(&self, item: SceneItem, now: u64) -> bool {
        let id = item.id.0;
        let begun = self.begun(item, now);
        begun.dom().contains(id) && !begun[id].over(now)
    }

    /// How an item is drawn: at the level its fade has reached, and as it is
    /// where none is under way.
    pub open spec fn shown(&self, item: SceneItem, now: u64) -> Shown {
        if self.on_its_way(item, now) {
            Shown { visible: true, factor: self.begun(item, now)[item.id.0].level(now) as u32 }
        } else {
            Shown { visible: item.visible, factor: FULL }
        }
    }

    /// The fades under way once an item is drawn: one that is over is dropped.
    pub open spec fn fading_after(&self, item: SceneItem, now: u64) -> Map<i64, Fade> {
        if self.on_its_way(item, now) {
            self.begun(item, now)
        } else {
            self.begun(item, now).remove(item.id.0)
        }
    }

    /// Whether an item is being drawn, fading or not.
    pub open spec fn draws(&self, item: SceneItem) -> bool {
        item.visible || self.fading().dom().contains(item.id.0)
    }

    /// Whether anything is coming up or going.
    pub open spec fn moves(&self) -> bool {
        exists|id: i64| #[trigger] self.fading().dom().contains(id)
    }

    /// Nothing drawn yet.
    pub fn new() -> (r: Self)
        ensures
            r.wf(),
            r.last_drew_what_fades(),
            r.fading() == Map::<i64, Fade>::empty(),
            r.seen_as() == Map::<i64, bool>::empty(),
            r.before() == Set::<i64>::empty(),
            r.so_far() == Set::<i64>::empty(),
    {
        let r = ItemFades {
            running: Table::new(),
            last: Table::new(),
            previous: Vec::new(),
            current: Vec::new(),
        };
        proof {
            assert(r.before() =~= Set::<i64>::empty());
            assert(r.so_far() =~= Set::<i64>::empty());
        }
        r
    }

    /// Starts a pass over everything that is drawn.
    pub fn begin_pass(&mut self)
        requires
            old(self).wf(),
        ensures
            final(self).wf(),
            final(self).so_far() == Set::<i64>::empty(),
            final(self).before() == old(self).before(),
            final(self).fading() == old(self).fading(),
            final(self).seen_as() == old(self).seen_as(),
            old(self).last_drew_what_fades() ==> final(self).drew_what_fades(),
    {
        self.current.clear();
        proof {
            assert(self.so_far() =~= Set::<i64>::empty());
        }
    }

    /// Ends a pass. What it did not draw is forgotten.
    pub fn end_pass(&mut self)
        requires
            old(self).wf(),
        ensures
            final(self).wf(),
            final(self).before() == old(self).so_far(),
            final(self).so_far() == old(self).before(),
            final(self).fading() == old(self).fading().restrict(old(self).so_far()),
            final(self).seen_as() == old(self).seen_as().restrict(old(self).so_far()),
            final(self).last_drew_what_fades(),
    {
        core::mem::swap(&mut self.previous, &mut self.current);
        self.last.retain_in(&self.previous);
        self.running.retain_in(&self.previous);
    }

    /// How an item is drawn now. A fade begins where its visibility has just
    /// changed and it takes time, and is dropped once it is over.
    pub fn observe(&mut self, item: &SceneItem, now: u64) -> (r: Shown)
        requires
            old(self).wf(),
        ensures
            final(self).wf(),
            old(self).drew_what_fades() ==> final(self).drew_what_fades(),
            final(self).before() == old(self).before(),
            final(self).so_far() == old(self).so_far().insert(item.id.0),
            final(self).seen_as() == old(self).seen_as().insert(item.id.0, item.visible),
            final(self).fading() == old(self).fading_after(*item, now),
            r == old(self).shown(*item, now),
            r.factor <= FULL,
            item.visible ==> r.visible,
            !r.visible ==> r.factor == FULL,
            forall|id: i64|
                id != item.id.0 ==> (#[trigger] final(self).fading().dom().contains(id) <==> old(
                    self,
                ).fading().dom().contains(id)),
    {
        let id: i64 = item.id.0;
        let seen: bool = holds(&self.previous, id) || holds(&self.current, id);
        let ghost drawn = self.current@;
        if !holds(&self.current, id) {
            self.current.push(id);
        }
        proof {
            assert(self.current@.to_set() =~= drawn.to_set().insert(id)) by {
                assert forall|k: i64| self.current@.contains(k) <==> (drawn.contains(k) || k
                    == id) by {
                    if drawn.contains(k) {
                        let j = drawn.index_of(k);
                        assert(self.current@[j] == k);
                    }
                    if !drawn.contains(id) {
                        assert(self.current@[drawn.len() as int] == id);
                    }
                }
            }
            assert forall|k: i64| drawn.contains(k) implies self.current@.contains(k) by {
                assert(drawn.to_set().contains(k));
                assert(self.current@.to_set().contains(k));
            }
            assert(self.current@.to_set().contains(id));
        }
        let was: Option<bool> = self.last.insert(id, item.visible);
        let changed: bool = match was {
            Some(was) => seen && was != item.visible,
            None => false,
        };
        if changed {
            let ms: u32 = if item.visible { item.fades.show_ms } else { item.fades.hide_ms };
            let from: u32 = match self.running.get(id) {
                Some(fade) => fade.at(now),
                None => if item.visible { 0 } else { FULL },
            };
            if ms == 0 {
                self.running.remove(id);
            } else {
                let fade = Fade {
                    from,
                    to: if item.visible { FULL } else { 0 },
                    started: now,
                    duration: ms as u64 * 1_000_000,
                };
                self.running.insert(id, fade);
            }
        }
        proof {
            assert(self.running@ =~= old(self).begun(*item, now));
        }
        let factor: Option<u32> = match self.running.get(id) {
            Some(fade) => if fade.done(now) { None } else { Some(fade.at(now)) },
            None => None,
        };
        match factor {
            Some(factor) => Shown { visible: true, factor },
            None => {
                self.running.remove(id);
                Shown { visible: item.visible, factor: FULL }
            },
        }
    }

    /// Whether an item is being drawn, fading or not.
    pub fn drawn(&self, item: &SceneItem) -> (r: bool)
        requires
            self.wf(),
        ensures
            r == self.draws(*item),
    {
        item.visible || self.running.contains(item.id.0)
    }

    /// Whether anything is coming up or going.
    pub fn active(&self) -> (r: bool)
        requires
            self.wf(),
        ensures
            r == self.moves(),
    {
        proof {
            self.running.lemma_keys();
            if self.running.keys().len() > 0 {
                assert(self.running.keys().contains(self.running.keys()[0]));
                assert(self.fading().dom().contains(self.running.keys()[0]));
            }
            if exists|id: i64| #[trigger] self.fading().dom().contains(id) {
                let id = choose|id: i64| #[trigger] self.fading().dom().contains(id);
                assert(self.running.keys().contains(id));
            }
        }
        self.running.len() > 0
    }
}

/// An item that no pass has drawn before arrives rather than changes: nothing
/// fades on its account.
pub proof fn law_arriving_is_not_a_change(fades: ItemFades, item: SceneItem, now: u64)
    requires
        fades.wf(),
        fades.drew_what_fades(),
        !fades.knows(item.id.0),
    ensures
        fades.begun(item, now) == fades.fading(),
        !fades.begun(item, now).dom().contains(item.id.0),
{
}

/// What was observed last is what is drawn: an item is drawn exactly where it
/// was last shown, at a level that is one; a visible item is always shown, one
/// that is not shown is not half there either, and one that is half there
/// keeps the picture moving.
pub proof fn law_what_was_observed_is_what_is_drawn(
    before: ItemFades,
    after: ItemFades,
    item: SceneItem,
    now: u64,
)
    requires
        before.wf(),
        after.fading() == before.fading_after(item, now),
    ensures
        after.draws(item) == before.shown(item, now).visible,
        0 <= before.shown(item, now).factor <= FULL,
        item.visible ==> before.shown(item, now).visible,
        !before.shown(item, now).visible ==> before.shown(item, now).factor == FULL,
        before.shown(item, now).factor < FULL ==> after.moves(),
{
    let id = item.id.0;
    let begun = before.begun(item, now);
    if before.on_its_way(item, now) {
        if before.fading().dom().contains(id) {
            law_a_level_is_between_its_ends(before.fading()[id], now);
        }
        law_a_level_is_between_its_ends(begun[id], now);
        assert(after.fading().dom().contains(id));
    }
}

/// A fade that is turned round goes back from where it was: at the moment it
/// turns the level is the one it had reached.
pub proof fn law_turning_round_does_not_jump(fades: ItemFades, item: SceneItem, now: u64)
    requires
        fades.wf(),
        fades.changed(item),
        takes(item) > 0,
        fades.fading().dom().contains(item.id.0),
    ensures
        fades.begun(item, now).dom().contains(item.id.0),
        fades.begun(item, now)[item.id.0].level(now) == fades.fading()[item.id.0].level(now),
{
    let fade = fades.fading()[item.id.0];
    law_a_level_is_between_its_ends(fade, now);
    let begun = fades.begun(item, now)[item.id.0];
    let d = begun.duration as int;
    assert(((begun.to - begun.from) * 0) / d == 0) by (nonlinear_arith)
        requires
            d > 0,
    ;
}

/// A level lies between where its fade started and where it goes, is the first
/// at the start and the second once the fade is over.
pub proof fn law_a_level_is_between_its_ends(fade: Fade, now: u64)
    requires
        fade.wf(),
    ensures
        0 <= fade.level(now) <= FULL,
        fade.from <= fade.to ==> fade.from <= fade.level(now) <= fade.to,
        fade.to <= fade.from ==> fade.to <= fade.level(now) <= fade.from,
        fade.over(now) ==> fade.level(now) == fade.to,
        now <= fade.started && fade.duration > 0 ==> fade.level(now) == fade.from,
{
    if !fade.over(now) {
        let d = fade.duration as int;
        lemma_between(fade.from as int, fade.to as int, gone_by(fade, now), d);
        assert(((fade.to - fade.from) * 0) / d == 0) by (nonlinear_arith)
            requires
                d > 0,
        ;
    }
}

/// A fade never turns back on its own: what comes up only rises, and what goes
/// only falls.
pub proof fn law_a_fade_moves_one_way(fade: Fade, earlier: u64, later: u64)
    requires
        fade.wf(),
        earlier <= later,
    ensures
        fade.from <= fade.to ==> fade.level(earlier) <= fade.level(later),
        fade.to <= fade.from ==> fade.level(earlier) >= fade.level(later),
{
    law_a_level_is_between_its_ends(fade, earlier);
    law_a_level_is_between_its_ends(fade, later);
    if !fade.over(later) {
        let reach = fade.to - fade.from;
        let (a, b) = (gone_by(fade, earlier), gone_by(fade, later));
        let d = fade.duration as int;
        if reach >= 0 {
            assert((reach * a) / d <= (reach * b) / d) by {
                assert(reach * a <= reach * b) by (nonlinear_arith)
                    requires
                        a <= b,
                        reach >= 0,
                ;
                vstd::arithmetic::div_mod::lemma_div_is_ordered(reach * a, reach * b, d);
            }
        } else {
            assert((reach * b) / d <= (reach * a) / d) by {
                assert(reach * b <= reach * a) by (nonlinear_arith)
                    requires
                        a <= b,
                        reach < 0,
                ;
                vstd::arithmetic::div_mod::lemma_div_is_ordered(reach * b, reach * a, d);
            }
        }
    }
}

/// While a fade is under way its level is in proportion to its time, so that
/// equal times move it by equal amounts, to within one, from where it started
/// all the way to where it goes.
pub proof fn law_a_fade_moves_in_proportion(fade: Fade, now: u64)
    requires
        fade.wf(),
    ensures
        now <= fade.started && fade.duration > 0 ==> fade.level(now) == fade.from,
        now >= fade.started + fade.duration ==> fade.level(now) == fade.to,
        fade.started <= now < fade.started + fade.duration ==> -fade.duration < (fade.level(now)
            - fade.from) * fade.duration - (fade.to - fade.from) * (now - fade.started)
            < fade.duration,
{
    law_a_level_is_between_its_ends(fade, now);
    if fade.started <= now < fade.started + fade.duration {
        let d = fade.duration as int;
        let moved = (fade.to - fade.from) * (now - fade.started);
        assert(-d < (moved / d) * d - moved < d) by (nonlinear_arith)
            requires
                d > 0,
        ;
    }
}

/// An item that is shown comes up from nothing to all of it over its own time:
/// hidden when it was last drawn and visible now, it is drawn from that moment
/// on, at a share of all of it that is the share of its time gone by, and once
/// that is over it is all there and nothing of it fades.
pub proof fn law_showing_comes_up_over_its_own_time(
    before: ItemFades,
    after: ItemFades,
    item: SceneItem,
    now: u64,
    later: u64,
)
    requires
        before.wf(),
        before.before().contains(item.id.0) || before.so_far().contains(item.id.0),
        before.seen_as().dom().contains(item.id.0),
        !before.seen_as()[item.id.0],
        !before.fading().dom().contains(item.id.0),
        item.visible,
        item.fades.show_ms > 0,
        after.wf(),
        after.fading() == before.fading_after(item, now),
        after.seen_as() == before.seen_as().insert(item.id.0, item.visible),
        now <= later,
    ensures
        before.shown(item, now).visible,
        before.shown(item, now).factor == 0,
        after.shown(item, later).visible,
        ({
            let time = item.fades.show_ms * 1_000_000;
            let gone = later - now;
            let factor = after.shown(item, later).factor as int;
            &&& gone < time ==> -time < factor * time - 16_777_216 * gone < time
            &&& gone < time ==> after.fading_after(item, later).dom().contains(item.id.0)
            &&& gone >= time ==> factor == 16_777_216
            &&& gone >= time ==> !after.fading_after(item, later).dom().contains(item.id.0)
        }),
{
    let id = item.id.0;
    let fade = before.begun(item, now)[id];
    law_a_fade_moves_in_proportion(fade, now);
    assert(fade.from == 0 && fade.to == FULL && fade.started == now);
    law_a_fade_moves_in_proportion(fade, later);
    law_a_level_is_between_its_ends(fade, later);
    law_a_level_is_between_its_ends(fade, now);
}

/// An item that is hidden is drawn until it has gone: visible when it was last
/// drawn and hidden now, it goes from all of it to nothing over its own time,
/// and is not drawn once that is over.
pub proof fn law_hiding_is_drawn_until_it_has_gone(
    before: ItemFades,
    after: ItemFades,
    item: SceneItem,
    now: u64,
    later: u64,
)
    requires
        before.wf(),
        before.before().contains(item.id.0) || before.so_far().contains(item.id.0),
        before.seen_as().dom().contains(item.id.0),
        before.seen_as()[item.id.0],
        !before.fading().dom().contains(item.id.0),
        !item.visible,
        item.fades.hide_ms > 0,
        after.wf(),
        after.fading() == before.fading_after(item, now),
        after.seen_as() == before.seen_as().insert(item.id.0, item.visible),
        now <= later,
    ensures
        before.shown(item, now).visible,
        before.shown(item, now).factor == 16_777_216,
        ({
            let time = item.fades.hide_ms * 1_000_000;
            let gone = later - now;
            let shown = after.shown(item, later);
            &&& gone < time ==> shown.visible
            &&& gone < time ==> -time < shown.factor * time - 16_777_216 * (time - gone) < time
            &&& gone >= time ==> !shown.visible
            &&& gone >= time ==> !after.fading_after(item, later).dom().contains(item.id.0)
        }),
{
    let id = item.id.0;
    let fade = before.begun(item, now)[id];
    law_a_fade_moves_in_proportion(fade, now);
    assert(fade.from == FULL && fade.to == 0 && fade.started == now);
    law_a_fade_moves_in_proportion(fade, later);
    law_a_level_is_between_its_ends(fade, later);
    law_a_level_is_between_its_ends(fade, now);
    let time = item.fades.hide_ms * 1_000_000;
    let gone = later - now;
    let factor = fade.level(later);
    assert((factor - 16_777_216) * time - (0 - 16_777_216) * gone == factor * time - 16_777_216 * (
    time - gone)) by (nonlinear_arith);
}

/// An item that is as it was last drawn, that no pass has drawn, or that takes
/// no time, is drawn as it is: at once, whole, and with nothing begun.
pub proof fn law_what_does_not_change_does_not_fade(fades: ItemFades, item: SceneItem, now: u64)
    requires
        fades.wf(),
        !fades.fading().dom().contains(item.id.0),
        (!fades.before().contains(item.id.0) && !fades.so_far().contains(item.id.0)) || (
        fades.seen_as().dom().contains(item.id.0) && fades.seen_as()[item.id.0] == item.visible)
            || (item.visible && item.fades.show_ms == 0) || (!item.visible && item.fades.hide_ms
            == 0),
    ensures
        fades.shown(item, now).visible == item.visible,
        fades.shown(item, now).factor == 16_777_216,
        !fades.fading_after(item, now).dom().contains(item.id.0),
{
}

/// An item turned round half way goes back from where it was, over the time it
/// takes the other way, without a jump.
pub proof fn law_turning_round_starts_from_where_it_was(
    fades: ItemFades,
    item: SceneItem,
    now: u64,
)
    requires
        fades.wf(),
        fades.before().contains(item.id.0) || fades.so_far().contains(item.id.0),
        fades.seen_as().dom().contains(item.id.0),
        fades.seen_as()[item.id.0] != item.visible,
        fades.fading().dom().contains(item.id.0),
        item.visible ==> item.fades.show_ms > 0,
        !item.visible ==> item.fades.hide_ms > 0,
    ensures
        ({
            let was = fades.fading()[item.id.0];
            let fade = fades.fading_after(item, now)[item.id.0];
            &&& fades.shown(item, now).visible
            &&& fades.shown(item, now).factor == was.level(now)
            &&& fades.fading_after(item, now).dom().contains(item.id.0)
            &&& fade.from == was.level(now)
            &&& fade.to == (if item.visible {
                16_777_216
            } else {
                0int
            })
            &&& fade.started == now
            &&& fade.duration == 1_000_000 * (if item.visible {
                item.fades.show_ms
            } else {
                item.fades.hide_ms
            })
        }),
{
    law_a_level_is_between_its_ends(fades.fading()[item.id.0], now);
    law_turning_round_does_not_jump(fades, item, now);
    law_a_level_is_between_its_ends(fades.begun(item, now)[item.id.0], now);
}

} // verus!
