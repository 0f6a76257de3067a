//! Every display that is being captured, and how many items show each.
//!
//! A display can be opened once, so two items that show it share one capture:
//! it lives as long as anything draws from it, and pauses once nothing shows
//! it.
use vstd::prelude::*;
use vstd::string::*;

use crate::backend::encode::{self, Rational};
use crate::text::same;

verus! {

/// One display's capture.
pub struct SharedCapture {
    pub monitor: String,
    /// How many items that are shown draw from it.
    pub showing: usize,
}

/// What is to be done about a capture.
#[derive(Clone, Copy, Debug, PartialEq, Eq, Structural)]
pub enum CaptureAction {
    Resume,
    Pause,
    Stop,
}

/// The open captures, by the display each shows.
pub struct CaptureRegistry {
    open: Vec<SharedCapture>,
}

/// Where a display stands among captures, where it does.
pub open spec fn stands(open: Seq<SharedCapture>, monitor: Seq<char>, i: int) -> bool {
    0 <= i < open.len() && open[i].monitor@ == monitor
}

/// No display is open twice.
pub open spec fn distinct(open: Seq<SharedCapture>) -> bool {
    forall|i: int, j: int|
        #![trigger open[i], open[j]]
        0 <= i < open.len() && 0 <= j < open.len() && open[i].monitor@ == open[j].monitor@ ==> i
            == j
}

/// The counts by display.
pub open spec fn counts(open: Seq<SharedCapture>) -> Map<Seq<char>, nat> {
    Map::new(
        |monitor: Seq<char>| exists|i: int| #[trigger] stands(open, monitor, i),
        |monitor: Seq<char>|
            open[choose|i: int| #[trigger] stands(open, monitor, i)].showing as nat,
    )
}

proof fn lemma_count(open: Seq<SharedCapture>, i: int)
    requires
        distinct(open),
        0 <= i < open.len(),
    ensures
        counts(open).dom().contains(open[i].monitor@),
        counts(open)[open[i].monitor@] == open[i].showing,
{
    assert(stands(open, open[i].monitor@, i));
    let j = choose|j: int| #[trigger] stands(open, open[i].monitor@, j);
    assert(open[j].monitor@ == open[i].monitor@);
}

/// How many items show a display once one more does, or one fewer.
pub open spec fn one_more_or_fewer(count: nat, showing: bool) -> nat {
    if showing {
        count + 1
    } else if count > 0 {
        (count - 1) as nat
    } else {
        0
    }
}

/// The counts once an item has followed the scene that is shown. A display
/// that is not captured is left alone.
pub open spec fn followed(
    counts: Map<Seq<char>, nat>,
    monitor: Seq<char>,
    showing: bool,
) -> Map<Seq<char>, nat> {
    if counts.dom().contains(monitor) {
        counts.insert(monitor, one_more_or_fewer(counts[monitor], showing))
    } else {
        counts
    }
}

/// What is done about a capture as an item follows the scene that is shown.
pub open spec fn following(
    counts: Map<Seq<char>, nat>,
    monitor: Seq<char>,
    showing: bool,
) -> Option<CaptureAction> {
    if !counts.dom().contains(monitor) {
        None
    } else {
        let after = one_more_or_fewer(counts[monitor], showing);
        if showing && after == 1 {
            Some(CaptureAction::Resume)
        } else if !showing && after == 0 {
            Some(CaptureAction::Pause)
        } else {
            None
        }
    }
}

impl View for CaptureRegistry {
    type V = Map<Seq<char>, nat>;

    closed spec fn view(&self) -> Map<Seq<char>, nat> {
        counts(self.open@)
    }
}

impl CaptureRegistry {
    /// No display is open twice.
    pub closed spec fn wf(&self) -> bool {
        distinct(self.open@)
    }

    /// Nothing open.
    pub fn new() -> (r: Self)
        ensures
            r.wf(),
            r@ == Map::<Seq<char>, nat>::empty(),
    {
        let r = CaptureRegistry { open: Vec::new() };
        proof {
            assert forall|monitor: Seq<char>| !r@.dom().contains(monitor) by {
                assert forall|i: int| !stands(r.open@, monitor, i) by {}
            }
            assert(r@ =~= Map::<Seq<char>, nat>::empty());
        }
        r
    }

    fn find(&self, monitor: &str) -> (r: Option<usize>)
        requires
            self.wf(),
        ensures
            match r {
                Some(i) => {
                    &&& i < self.open@.len()
                    &&& self.open@[i as int].monitor@ == monitor@
                    &&& self@.dom().contains(monitor@)
                    &&& self@[monitor@] == self.open@[i as int].showing
                },
                None => {
                    &&& !self@.dom().contains(monitor@)
                    &&& forall|i: int|
                        0 <= i < self.open@.len() ==> (#[trigger] self.open@[i]).monitor@
                            != monitor@
                },
            },
    {
        let mut i: usize = 0;
        while i < self.open.len()
            invariant
                self.wf(),
                i <= self.open@.len(),
                forall|j: int|
                    0 <= j < i ==> (#[trigger] self.open@[j]).monitor@ != monitor@,
            decreases self.open@.len() - i,
        {
            if same(self.open[i].monitor.as_str(), monitor) {
                proof {
                    lemma_count(self.open@, i as int);
                }
                return Some(i);
            }
            i = i + 1;
        }
        proof {
            assert forall|j: int| !stands(self.open@, monitor@, j) by {}
        }
        None
    }

    /// Whether a display has to be opened before anything can draw from it.
    pub fn needs_opening(&self, monitor: &str) -> (r: bool)
        requires
            self.wf(),
        ensures
            r == !self@.dom().contains(monitor@),
    {
        self.find(monitor).is_none()
    }

    /// Takes a capture that has just been opened, with nothing drawing from it
    /// yet.
    pub fn opened(&mut self, monitor: &str)
        requires
            old(self).wf(),
            !old(self)@.dom().contains(monitor@),
        ensures
            final(self).wf(),
            final(self)@ == old(self)@.insert(monitor@, 0),
    {
        let found = self.find(monitor);
        let ghost before = self.open@;
        self.open.push(SharedCapture { monitor: monitor.to_owned(), showing: 0 });
        proof {
            let after = self.open@;
            assert(distinct(after)) by {
                assert forall|i: int, j: int|
                    #![trigger after[i], after[j]]
                    0 <= i < after.len() && 0 <= j < after.len() && after[i].monitor@
                        == after[j].monitor@ implies i == j by {
                    if i < before.len() {
                        assert(after[i] == before[i]);
                    }
                    if j < before.len() {
                        assert(after[j] == before[j]);
                    }
                }
            }
            assert forall|name: Seq<char>|
                counts(after).dom().contains(name) <==> counts(before).insert(
                    monitor@,
                    0,
                ).dom().contains(name) by {
                if counts(after).dom().contains(name) {
                    let i = choose|i: int| #[trigger] stands(after, name, i);
                    if i < before.len() {
                        assert(stands(before, name, i));
                    }
                }
                if counts(before).dom().contains(name) {
                    let i = choose|i: int| #[trigger] stands(before, name, i);
                    assert(stands(after, name, i));
                }
                if name == monitor@ {
                    assert(stands(after, name, before.len() as int));
                }
            }
            assert forall|name: Seq<char>| counts(after).dom().contains(name) implies counts(
                after,
            )[name] == counts(before).insert(monitor@, 0)[name] by {
                let i = choose|i: int| #[trigger] stands(after, name, i);
                lemma_count(after, i);
                if i < before.len() {
                    assert(after[i] == before[i]);
                    lemma_count(before, i);
                }
            }
            assert(counts(after) =~= counts(before).insert(monitor@, 0));
        }
    }

    fn set_count(&mut self, i: usize, showing: usize)
        requires
            old(self).wf(),
            i < old(self).open@.len(),
        ensures
            final(self).wf(),
            final(self)@ == old(self)@.insert(
                old(self).open@[i as int].monitor@,
                showing as nat,
            ),
    {
        let ghost before = self.open@;
        let ghost monitor = self.open@[i as int].monitor@;
        self.open[i].showing = showing;
        proof {
            let after = self.open@;
            assert forall|j: int| 0 <= j < after.len() implies (#[trigger] after[j]).monitor@
                == before[j].monitor@ by {}
            assert forall|name: Seq<char>|
                counts(after).dom().contains(name) <==> counts(before).insert(
                    monitor,
                    showing as nat,
                ).dom().contains(name) by {
                if counts(after).dom().contains(name) {
                    let j = choose|j: int| #[trigger] stands(after, name, j);
                    assert(stands(before, name, j));
                }
                if counts(before).dom().contains(name) {
                    let j = choose|j: int| #[trigger] stands(before, name, j);
                    assert(stands(after, name, j));
                }
                if name == monitor {
                    assert(stands(after, name, i as int));
                }
            }
            assert forall|name: Seq<char>| counts(after).dom().contains(name) implies counts(
                after,
            )[name] == counts(before).insert(monitor, showing as nat)[name] by {
                let j = choose|j: int| #[trigger] stands(after, name, j);
                lemma_count(after, j);
                lemma_count(before, j);
            }
            assert(counts(after) =~= counts(before).insert(monitor, showing as nat));
        }
    }

    /// Takes one more item that draws from a display, once its branch has been
    /// attached.
    pub fn attach(&mut self, monitor: &str)
        requires
            old(self).wf(),
            old(self)@.dom().contains(monitor@),
            old(self)@[monitor@] < usize::MAX,
        ensures
            final(self).wf(),
            final(self)@ == old(self)@.insert(monitor@, old(self)@[monitor@] + 1),
    {
        match self.find(monitor) {
            Some(i) => {
                let showing: usize = self.open[i].showing;
                self.set_count(i, showing + 1);
            },
            None => {},
        }
    }

    /// Follows one item into or out of the scene that is shown. A capture is
    /// touched only where it goes from being shown by none, or to it.
    pub fn set_showing(&mut self, monitor: &str, showing: bool) -> (r: Option<CaptureAction>)
        requires
            old(self).wf(),
            showing && old(self)@.dom().contains(monitor@) ==> old(self)@[monitor@] < usize::MAX,
        ensures
            final(self).wf(),
            final(self)@ == followed(old(self)@, monitor@, showing),
            r == following(old(self)@, monitor@, showing),
    {
        let i: usize = match self.find(monitor) {
            Some(i) => i,
            None => {
                return None;
            },
        };
        let before: usize = self.open[i].showing;
        if showing {
            self.set_count(i, before + 1);
            if before + 1 == 1 {
                Some(CaptureAction::Resume)
            } else {
                None
            }
        } else {
            let after: usize = before.saturating_sub(1);
            self.set_count(i, after);
            if after == 0 {
                Some(CaptureAction::Pause)
            } else {
                None
            }
        }
    }

    /// Takes one item's branch off a display, given how many are left on it:
    /// the capture itself goes once none is.
    pub fn detach(&mut self, monitor: &str, left: usize) -> (r: Option<CaptureAction>)
        requires
            old(self).wf(),
        ensures
            final(self).wf(),
            r == (if old(self)@.dom().contains(monitor@) && left == 0 {
                Some(CaptureAction::Stop)
            } else {
                None
            }),
            final(self)@ == (if left == 0 {
                old(self)@.remove(monitor@)
            } else {
                old(self)@
            }),
    {
        let i: usize = match self.find(monitor) {
            Some(i) => i,
            None => {
                proof {
                    assert(self@.remove(monitor@) =~= self@);
                }
                return None;
            },
        };
        if left != 0 {
            return None;
        }
        let ghost before = self.open@;
        let _ = self.open.remove(i);
        proof {
            let after = self.open@;
            assert forall|j: int| 0 <= j < after.len() implies #[trigger] after[j] == before[if j
                < i {
                j
            } else {
                j + 1
            }] by {}
            assert forall|name: Seq<char>|
                counts(after).dom().contains(name) <==> counts(before).remove(
                    monitor@,
                ).dom().contains(name) by {
                if counts(after).dom().contains(name) {
                    let j = choose|j: int| #[trigger] stands(after, name, j);
                    let k = if j < i {
                        j
                    } else {
                        j + 1
                    };
                    assert(after[j] == before[k]);
                    assert(stands(before, name, k));
                }
                if counts(before).remove(monitor@).dom().contains(name) {
                    let k = choose|k: int| #[trigger] stands(before, name, k);
                    let j = if k < i {
                        k
                    } else {
                        k - 1
                    };
                    assert(after[j] == before[k]);
                    assert(stands(after, name, j));
                }
            }
            assert forall|name: Seq<char>| counts(after).dom().contains(name) implies counts(
                after,
            )[name] == counts(before).remove(monitor@)[name] by {
                let j = choose|j: int| #[trigger] stands(after, name, j);
                let k = if j < i {
                    j
                } else {
                    j + 1
                };
                assert(after[j] == before[k]);
                lemma_count(after, j);
                lemma_count(before, k);
            }
            assert(counts(after) =~= counts(before).remove(monitor@));
        }
        Some(CaptureAction::Stop)
    }

    /// The displays that are captured, in the order they were opened.
    pub closed spec fn displays(&self) -> Seq<Seq<char>> {
        Seq::new(self.open@.len(), |i: int| self.open@[i].monitor@)
    }

    proof fn lemma_displays(&self)
        ensures
            forall|monitor: Seq<char>|
                self@.dom().contains(monitor) <==> #[trigger] self.displays().contains(monitor),
    {
        assert forall|monitor: Seq<char>|
            self@.dom().contains(monitor) <==> #[trigger] self.displays().contains(monitor) by {
            if self@.dom().contains(monitor) {
                let i = choose|i: int| #[trigger] stands(self.open@, monitor, i);
                assert(self.displays()[i] == monitor);
            }
            if self.displays().contains(monitor) {
                let i = choose|i: int|
                    0 <= i < self.displays().len() && self.displays()[i] == monitor;
                assert(stands(self.open@, monitor, i));
            }
        }
    }

    /// The rate every open capture is told. None of them is opened anew for
    /// it, which would put a gap in the picture.
    pub fn set_frame_rate(&self, fps: u32) -> (r: Vec<(String, Rational)>)
        requires
            fps <= i32::MAX,
        ensures
            forall|monitor: Seq<char>|
                self@.dom().contains(monitor) <==> #[trigger] self.displays().contains(monitor),
            r@.len() == self.displays().len(),
            forall|i: int|
                0 <= i < r@.len() ==> (#[trigger] r@[i]).0@ == self.displays()[i] && r@[i].1
                    == encode::whole_rate(fps),
            forall|i: int|
                0 <= i < r@.len() ==> (#[trigger] r@[i]).1.denominator == 1 && (fps > 0
                    ==> r@[i].1.numerator == fps),
    {
        let rate: Rational = Rational { numerator: fps as i32, denominator: 1 };
        let mut r: Vec<(String, Rational)> = Vec::new();
        let mut i: usize = 0;
        while i < self.open.len()
            invariant
                i <= self.open@.len(),
                r@.len() == i,
                rate == encode::whole_rate(fps),
                forall|j: int|
                    0 <= j < i ==> (#[trigger] r@[j]).0@ == self.displays()[j] && r@[j].1 == rate,
            decreases self.open@.len() - i,
        {
            let ghost before = r@;
            r.push((self.open[i].monitor.as_str().to_owned(), rate));
            proof {
                assert forall|j: int| 0 <= j < i + 1 implies (#[trigger] r@[j]).0@
                    == self.displays()[j] && r@[j].1 == rate by {
                    if j < i {
                        assert(r@[j] == before[j]);
                    }
                }
            }
            i = i + 1;
        }
        proof {
            self.lemma_displays();
        }
        r
    }
}

/// What one item draws from.
pub enum RunningSource {
    /// A pipeline that is this item's alone.
    Owned,
    /// One branch of a display's capture, which others may draw from too.
    Shared { monitor: String },
}

impl RunningSource {
    /// Follows an item that has left the scene that is shown.
    pub fn pause(&self, captures: &mut CaptureRegistry) -> (r: Option<CaptureAction>)
        requires
            old(captures).wf(),
        ensures
            final(captures).wf(),
            match self {
                RunningSource::Owned => r == Some(CaptureAction::Pause) && final(captures)@
                    == old(captures)@,
                RunningSource::Shared { monitor } => r == following(
                    old(captures)@,
                    monitor@,
                    false,
                ) && final(captures)@ == followed(old(captures)@, monitor@, false),
            },
    {
        match self {
            RunningSource::Owned => Some(CaptureAction::Pause),
            RunningSource::Shared { monitor } => captures.set_showing(monitor.as_str(), false),
        }
    }

    /// Follows an item that has come back into it.
    pub fn resume(&self, captures: &mut CaptureRegistry) -> (r: Option<CaptureAction>)
        requires
            old(captures).wf(),
            self matches RunningSource::Shared { monitor } && old(captures)@.dom().contains(
                monitor@,
            ) ==> old(captures)@[self->monitor@] < usize::MAX,
        ensures
            final(captures).wf(),
            match self {
                RunningSource::Owned => r == Some(CaptureAction::Resume) && final(captures)@
                    == old(captures)@,
                RunningSource::Shared { monitor } => r == following(
                    old(captures)@,
                    monitor@,
                    true,
                ) && final(captures)@ == followed(old(captures)@, monitor@, true),
            },
    {
        match self {
            RunningSource::Owned => Some(CaptureAction::Resume),
            RunningSource::Shared { monitor } => captures.set_showing(monitor.as_str(), true),
        }
    }

    /// Ends what this item draws from: its own pipeline, or its branch of a
    /// capture, given how many are left on that.
    pub fn stop(&self, captures: &mut CaptureRegistry, left: usize) -> (r: Option<CaptureAction>)
        requires
            old(captures).wf(),
        ensures
            final(captures).wf(),
            match self {
                RunningSource::Owned => r == Some(CaptureAction::Stop) && final(captures)@
                    == old(captures)@,
                RunningSource::Shared { monitor } => {
                    &&& r == (if old(captures)@.dom().contains(monitor@) && left == 0 {
                        Some(CaptureAction::Stop)
                    } else {
                        None
                    })
                    &&& final(captures)@ == (if left == 0 {
                        old(captures)@.remove(monitor@)
                    } else {
                        old(captures)@
                    })
                },
            },
    {
        match self {
            RunningSource::Owned => Some(CaptureAction::Stop),
            RunningSource::Shared { monitor } => captures.detach(monitor.as_str(), left),
        }
    }

    /// Whether what this item draws from has ended by itself. A display does
    /// not close.
    pub fn ended(&self, pipeline_ended: bool) -> (r: bool)
        ensures
            r == (self is Owned && pipeline_ended),
    {
        match self {
            RunningSource::Owned => pipeline_ended,
            RunningSource::Shared { .. } => false,
        }
    }
}

/// A capture is paused only where nothing shows it any more, and resumed only
/// where nothing did; and what is done about one display touches no other.
pub proof fn law_a_capture_runs_while_anything_shows_it(
    counts: Map<Seq<char>, nat>,
    monitor: Seq<char>,
    showing: bool,
    other: Seq<char>,
)
    requires
        counts.dom().contains(monitor),
    ensures
        following(counts, monitor, showing) == Some(CaptureAction::Pause) ==> followed(
            counts,
            monitor,
            showing,
        )[monitor] == 0,
        following(counts, monitor, showing) == Some(CaptureAction::Resume) ==> counts[monitor]
            == 0,
        followed(counts, monitor, showing).dom() =~= counts.dom(),
        other != monitor ==> followed(counts, monitor, showing)[other] == counts[other],
{
}

/// An item that comes into the scene that is shown and leaves it again leaves
/// every capture as it was.
pub proof fn law_coming_and_going_leaves_no_trace(
    counts: Map<Seq<char>, nat>,
    monitor: Seq<char>,
)
    ensures
        followed(followed(counts, monitor, true), monitor, false) == counts,
{
    assert(followed(followed(counts, monitor, true), monitor, false) =~= counts);
}

/// Whoever shows a display counts once: the first to show it resumes its
/// capture, the last to stop pauses it, nobody between them does either, and a
/// display that is not captured is left alone.
pub proof fn law_the_first_resumes_and_the_last_pauses(
    counts: Map<Seq<char>, nat>,
    monitor: Seq<char>,
)
    ensures
        counts.dom().contains(monitor) ==> {
            &&& followed(counts, monitor, true)[monitor] == counts[monitor] + 1
            &&& counts[monitor] > 0 ==> followed(counts, monitor, false)[monitor] + 1
                == counts[monitor]
            &&& counts[monitor] == 0 ==> followed(counts, monitor, false)[monitor] == 0
            &&& following(counts, monitor, true) == (if counts[monitor] == 0 {
                Some(CaptureAction::Resume)
            } else {
                None
            })
            &&& following(counts, monitor, false) == (if counts[monitor] <= 1 {
                Some(CaptureAction::Pause)
            } else {
                None
            })
        },
        !counts.dom().contains(monitor) ==> {
            &&& followed(counts, monitor, true) == counts && followed(counts, monitor, false)
                == counts
            &&& following(counts, monitor, true) is None && following(counts, monitor, false)
                is None
        },
{
}

} // verus!
