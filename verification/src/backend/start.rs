//! What a compositor is started with, and the rate everything it draws from
//! is held to.
use vstd::prelude::*;
use vstd::string::*;

use crate::backend::encode::{
    self, add_stage, restore_token, DisplayCaptureTarget, Platform, Rational, Stage, StageKind,
};
use crate::engine::run::{self, input_name};
use crate::scene::{SceneItem, SceneItemId};
use crate::table::Table;
use crate::text::joined;

verus! {

/// What is said where nothing can composite.
pub const NO_BACKEND: &'static str = "no compositor backend is written for this platform yet";

/// What is said of a display that is opened for another kind of source.
pub const NOT_A_DISPLAY: &'static str = "scene item is not a display capture";

/// What a compositor is started with: every frame it makes is counted on its
/// own thread, and drawn behind a queue that drops what it cannot keep up
/// with.
pub struct StartPlan {
    pub compositor: String,
    /// What it composites at, which is what an output is made at.
    pub frame_rate: Rational,
    pub counting: Vec<Stage>,
    pub drawing: Vec<Stage>,
    /// How long one picture is shown before the next, at least, in seconds.
    pub refresh: Rational,
    /// Where an output is attached later.
    pub tee: String,
}

/// The branch that counts every frame.
pub open spec fn counting_branch() -> Seq<(StageKind, Seq<char>)> {
    seq![(StageKind::Count, "preview"@ + "-rate"@)]
}

/// The branch that draws.
pub open spec fn drawing_branch() -> Seq<(StageKind, Seq<char>)> {
    seq![
        (StageKind::DroppingQueue, "preview"@ + "-queue"@),
        (StageKind::Changes, "preview"@ + "-changes"@),
        (StageKind::Render, "preview"@ + "-out"@),
    ]
}

/// What a compositor is started with, at the rate it composites at and the
/// rate the preview is refreshed at, or why there is none.
pub fn start(platform: Platform, fps: u32, preview_fps: u32) -> (r: Result<StartPlan, String>)
    requires
        fps <= i32::MAX,
        preview_fps <= i32::MAX,
    ensures
        match r {
            Ok(plan) => {
                &&& platform != Platform::Unsupported
                &&& plan.compositor@ == "preview-compositor"@
                &&& plan.frame_rate == encode::whole_rate(fps)
                &&& plan.frame_rate.numerator == fps && plan.frame_rate.denominator == 1
                &&& encode::stages_are(plan.counting@, counting_branch())
                &&& encode::stages_are(plan.drawing@, drawing_branch())
                &&& plan.refresh == (Rational { numerator: 1, denominator: preview_fps as i32 })
                &&& plan.tee@ == "output-tee"@
            },
            Err(reason) => platform == Platform::Unsupported && reason@ == NO_BACKEND@,
        },
{
    if platform == Platform::Unsupported {
        return Err(NO_BACKEND.to_owned());
    }
    let mut counting: Vec<Stage> = Vec::new();
    let mut drawing: Vec<Stage> = Vec::new();
    let ghost none = Seq::<(StageKind, Seq<char>)>::empty();
    proof {
        assert(encode::stages_are(counting@, none));
        assert(encode::stages_are(drawing@, none));
    }
    add_stage(&mut counting, StageKind::Count, "preview", "-rate");
    add_stage(&mut drawing, StageKind::DroppingQueue, "preview", "-queue");
    add_stage(&mut drawing, StageKind::Changes, "preview", "-changes");
    add_stage(&mut drawing, StageKind::Render, "preview", "-out");
    proof {
        let queue = none + seq![(StageKind::DroppingQueue, "preview"@ + "-queue"@)];
        let changes = queue + seq![(StageKind::Changes, "preview"@ + "-changes"@)];
        assert(none + seq![(StageKind::Count, "preview"@ + "-rate"@)] =~= counting_branch());
        assert(changes + seq![(StageKind::Render, "preview"@ + "-out"@)] =~= drawing_branch());
    }
    Ok(
        StartPlan {
            compositor: "preview-compositor".to_owned(),
            frame_rate: Rational { numerator: fps as i32, denominator: 1 },
            counting,
            drawing,
            refresh: Rational { numerator: 1, denominator: preview_fps as i32 },
            tee: "output-tee".to_owned(),
        },
    )
}

/// The preview never sets the compositor's pace: what draws it is behind a
/// queue that drops, and nothing that waits or draws stands before the frames
/// are counted.
pub proof fn law_the_preview_cannot_slow_the_compositor(i: int)
    ensures
        drawing_branch()[0].0 == StageKind::DroppingQueue,
        0 <= i < counting_branch().len() ==> counting_branch()[i].0 == StageKind::Count,
{
}

/// What a display is opened with.
pub struct DisplayCapturePlan {
    /// What its input on the compositor is called.
    pub name: String,
    /// What converts its pictures into the compositor's own.
    pub convert: String,
    /// The token it is reopened with, without which the portal has to ask.
    pub restore_token: Option<String>,
}

/// What an item's display is opened with, given what it captures; nothing is
/// given for an item of another kind.
pub fn open_display_capture(item: &SceneItem, target: Option<&DisplayCaptureTarget>) -> (r: Result<
    DisplayCapturePlan,
    String,
>)
    ensures
        match r {
            Ok(plan) => {
                &&& target is Some
                &&& plan.name@ == run::input_called(item.id)
                &&& plan.convert@ == run::input_called(item.id) + "-convert"@
                &&& match *target->0 {
                    DisplayCaptureTarget::Portal { restore_token: Some(token) } => {
                        plan.restore_token is Some && plan.restore_token->0@ == token@
                    },
                    _ => plan.restore_token is None,
                }
            },
            Err(reason) => target is None && reason@ == NOT_A_DISPLAY@,
        },
{
    let target = match target {
        Some(target) => target,
        None => {
            return Err(NOT_A_DISPLAY.to_owned());
        },
    };
    let name = input_name(item);
    let convert = joined(name.as_str(), "-convert");
    let token = match restore_token(target) {
        Some(token) => Some(token.as_str().to_owned()),
        None => None,
    };
    Ok(DisplayCapturePlan { name, convert, restore_token: token })
}

/// The rate of every open capture, by the item it was opened for.
pub struct CaptureRates {
    rates: Table<Rational>,
}

impl View for CaptureRates {
    type V = Map<i64, Rational>;

    closed spec fn view(&self) -> Map<i64, Rational> {
        self.rates@
    }
}

/// The rates once every one of them has been told `fps`.
pub open spec fn all_at(rates: Map<i64, Rational>, fps: u32) -> Map<i64, Rational> {
    Map::new(|id: i64| rates.dom().contains(id), |id: i64| encode::whole_rate(fps))
}

impl CaptureRates {
    pub closed spec fn wf(&self) -> bool {
        self.rates.wf()
    }

    /// Nothing open.
    pub fn new() -> (r: Self)
        ensures
            r.wf(),
            r@ == Map::<i64, Rational>::empty(),
    {
        CaptureRates { rates: Table::new() }
    }

    /// Takes a capture that has been opened at `fps`.
    pub fn opened(&mut self, id: SceneItemId, fps: u32)
        requires
            old(self).wf(),
            fps <= i32::MAX,
        ensures
            final(self).wf(),
            final(self)@ == old(self)@.insert(id.0, encode::whole_rate(fps)),
    {
        let _ = self.rates.insert(id.0, Rational { numerator: fps as i32, denominator: 1 });
    }

    /// Forgets a capture whose input has been removed.
    pub fn remove_source(&mut self, id: SceneItemId)
        requires
            old(self).wf(),
        ensures
            final(self).wf(),
            final(self)@ == old(self)@.remove(id.0),
    {
        let _ = self.rates.remove(id.0);
    }

    /// Tells every open capture to emit at `fps`. Answers which, in the order
    /// they were opened.
    pub fn set_frame_rate(&mut self, fps: u32) -> (r: Vec<i64>)
        requires
            old(self).wf(),
            fps <= i32::MAX,
        ensures
            final(self).wf(),
            final(self)@ == all_at(old(self)@, fps),
            r@.to_set() == old(self)@.dom(),
            r@.no_duplicates(),
            forall|id: i64| #[trigger]
                final(self)@.dom().contains(id) ==> {
                    &&& final(self)@[id].numerator == fps
                    &&& final(self)@[id].denominator == 1
                },
    {
        let rate: Rational = Rational { numerator: fps as i32, denominator: 1 };
        let mut r: Vec<i64> = Vec::new();
        let ghost before = self.rates;
        let mut i: usize = 0;
        proof {
            self.rates.lemma_keys();
        }
        while i < self.rates.len()
            invariant
                before.wf(),
                self.rates.wf(),
                self.rates.keys() == before.keys(),
                self.rates@.dom() == before@.dom(),
                i <= before.keys().len(),
                rate == encode::whole_rate(fps),
                r@ == before.keys().take(i as int),
                forall|j: int| 0 <= j < i ==> self.rates@[#[trigger] before.keys()[j]] == rate,
            decreases before.keys().len() - i,
        {
            r.push(self.rates.key_at(i));
            let ghost key = before.keys()[i as int];
            let _ = self.rates.replace_at(i, rate);
            proof {
                assert(before.keys().take(i + 1) =~= before.keys().take(i as int).push(key));
                assert(self.rates@.dom() =~= before@.dom());
            }
            i = i + 1;
        }
        proof {
            before.lemma_keys();
            assert(before.keys().take(i as int) =~= before.keys());
            assert(self.rates@ =~= all_at(before@, fps)) by {
                assert forall|id: i64| before@.dom().contains(id) implies self.rates@[id]
                    == rate by {
                    assert(before.keys().contains(id));
                    let j = choose|j: int|
                        0 <= j < before.keys().len() && before.keys()[j] == id;
                    assert(self.rates@[before.keys()[j]] == rate);
                }
            }
            assert(r@.to_set() =~= before@.dom()) by {
                assert forall|id: i64| r@.to_set().contains(id) <==> before@.dom().contains(id) by {
                    assert(before.keys().contains(id) <==> before@.dom().contains(id));
                }
            }
        }
        r
    }
}

/// A change of rate leaves no capture behind at another, and closes none; and
/// one that is opened later at the new rate is at it too.
pub proof fn law_every_capture_runs_at_the_rate_that_was_set(
    rates: Map<i64, Rational>,
    fps: u32,
    id: i64,
    later: i64,
)
    ensures
        all_at(rates, fps).dom() =~= rates.dom(),
        rates.dom().contains(id) ==> all_at(rates, fps)[id] == encode::whole_rate(fps),
        all_at(rates, fps).insert(later, encode::whole_rate(fps)) =~= all_at(
            rates.insert(later, encode::whole_rate(fps)),
            fps,
        ),
{
}

/// The compositor's pictures are counted as they come, and drawn from a queue
/// that drops what is late, where they changed.
pub proof fn law_what_is_drawn_is_what_changed(rates: Map<i64, Rational>, fps: u32, id: i64)
    requires
        fps <= i32::MAX,
    ensures
        counting_branch().len() == 1 && drawing_branch().len() == 3,
        counting_branch()[0] == (StageKind::Count, "preview"@ + "-rate"@),
        drawing_branch()[0] == (StageKind::DroppingQueue, "preview"@ + "-queue"@),
        drawing_branch()[1] == (StageKind::Changes, "preview"@ + "-changes"@),
        drawing_branch()[2] == (StageKind::Render, "preview"@ + "-out"@),
        all_at(rates, fps).dom().contains(id) <==> rates.dom().contains(id),
        rates.dom().contains(id) ==> all_at(rates, fps)[id].numerator == fps && all_at(
            rates,
            fps,
        )[id].denominator == 1,
{
}

} // verus!
