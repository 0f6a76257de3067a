//! Which items draw nothing, and why.
use vstd::prelude::*;

use crate::engine::sources::SourceState;
use crate::table::Table;

verus! {

/// Why an item draws nothing.
#[derive(Clone, Copy, Debug, PartialEq, Eq, Structural)]
pub enum SourceStatus {
    /// It never opened, or what it captures is not here.
    Disconnected,
    /// A media file that played to its end.
    Ended,
}

/// What is said of a source: nothing of one that runs or is still being
/// opened.
pub open spec fn status_of(state: SourceState) -> Option<SourceStatus> {
    match state {
        SourceState::Open(_) => None,
        SourceState::Opening => None,
        SourceState::Failed => Some(SourceStatus::Disconnected),
        SourceState::Missing(_) => Some(SourceStatus::Disconnected),
        SourceState::Disconnected => Some(SourceStatus::Disconnected),
        SourceState::Ended => Some(SourceStatus::Ended),
    }
}

/// The dark sources, and why each is.
pub open spec fn dark(open: Map<i64, SourceState>) -> Map<i64, SourceStatus> {
    Map::new(
        |id: i64| open.dom().contains(id) && status_of(open[id]) is Some,
        |id: i64| status_of(open[id])->0,
    )
}

/// Whether these sources are not what is shown already.
pub open spec fn is_news(
    shown: Option<Map<i64, SourceStatus>>,
    open: Map<i64, SourceState>,
) -> bool {
    match shown {
        Some(shown) => shown != dark(open),
        None => dark(open) != Map::<i64, SourceStatus>::empty(),
    }
}

/// What is shown once these sources have been.
pub open spec fn shown_after(
    shown: Option<Map<i64, SourceStatus>>,
    open: Map<i64, SourceState>,
) -> Option<Map<i64, SourceStatus>> {
    if is_news(shown, open) {
        Some(dark(open))
    } else {
        shown
    }
}

fn told(state: &SourceState) -> (r: Option<SourceStatus>)
    ensures
        r == status_of(*state),
{
    match state {
        SourceState::Open(_) => None,
        SourceState::Opening => None,
        SourceState::Failed => Some(SourceStatus::Disconnected),
        SourceState::Missing(_) => Some(SourceStatus::Disconnected),
        SourceState::Disconnected => Some(SourceStatus::Disconnected),
        SourceState::Ended => Some(SourceStatus::Ended),
    }
}

/// The dark sources, and why each is.
pub fn dark_sources(open: &Table<SourceState>) -> (r: Table<SourceStatus>)
    requires
        open.wf(),
    ensures
        r.wf(),
        r@ == dark(open@),
{
    let mut r: Table<SourceStatus> = Table::new();
    let mut i: usize = 0;
    while i < open.len()
        invariant
            open.wf(),
            r.wf(),
            i <= open.keys().len(),
            r@ == dark(open@).restrict(open.keys().take(i as int).to_set()),
        decreases open.keys().len() - i,
    {
        let id: i64 = open.key_at(i);
        let state = open.value_at(i);
        let status = told(state);
        let ghost before = open.keys().take(i as int);
        proof {
            assert(open.keys().take(i + 1) =~= before.push(id));
            assert(before.push(id).to_set() =~= before.to_set().insert(id)) by {
                assert forall|x: i64| before.push(id).contains(x) <==> before.to_set().insert(
                    id,
                ).contains(x) by {
                    if x == id {
                        assert(before.push(id)[i as int] == id);
                    } else if before.contains(x) {
                        let j = choose|j: int| 0 <= j < before.len() && before[j] == x;
                        assert(before.push(id)[j] == x);
                    }
                }
            }
        }
        match status {
            Some(status) => {
                let _ = r.insert(id, status);
            },
            None => {},
        }
        i = i + 1;
        proof {
            assert(r@ =~= dark(open@).restrict(open.keys().take(i as int).to_set()));
        }
    }
    proof {
        open.lemma_keys();
        assert(open.keys().take(i as int) =~= open.keys());
        assert(dark(open@).restrict(open.keys().to_set()) =~= dark(open@));
    }
    r
}

fn within(a: &Table<SourceStatus>, b: &Table<SourceStatus>) -> (r: bool)
    requires
        a.wf(),
        b.wf(),
    ensures
        r == forall|id: i64|
            a@.dom().contains(id) ==> #[trigger] b@.dom().contains(id) && a@[id] == b@[id],
{
    proof {
        a.lemma_keys();
    }
    let mut i: usize = 0;
    while i < a.len()
        invariant
            a.wf(),
            b.wf(),
            i <= a.keys().len(),
            forall|k: i64| a@.dom().contains(k) <==> #[trigger] a.keys().contains(k),
            forall|j: int|
                0 <= j < i ==> b@.dom().contains(#[trigger] a.keys()[j]) && a@[a.keys()[j]]
                    == b@[a.keys()[j]],
        decreases a.keys().len() - i,
    {
        let id: i64 = a.key_at(i);
        let status: SourceStatus = *a.value_at(i);
        let same: bool = match b.get(id) {
            Some(other) => *other == status,
            None => false,
        };
        if !same {
            proof {
                assert(a.keys().contains(id));
            }
            return false;
        }
        i = i + 1;
    }
    proof {
        assert forall|id: i64| a@.dom().contains(id) implies #[trigger] b@.dom().contains(id)
            && a@[id] == b@[id] by {
            assert(a.keys().contains(id));
            let j = choose|j: int| 0 <= j < a.keys().len() && a.keys()[j] == id;
            assert(b@.dom().contains(a.keys()[j]));
        }
    }
    true
}

/// What is shown of the dark sources: nothing until one has been dark.
pub struct StatusBoard {
    shown: Option<Table<SourceStatus>>,
}

impl StatusBoard {
    /// What is shown, where anything is.
    pub closed spec fn shown(&self) -> Option<Map<i64, SourceStatus>> {
        match self.shown {
            Some(shown) => Some(shown@),
            None => None,
        }
    }

    /// No id is shown twice.
    pub closed spec fn wf(&self) -> bool {
        self.shown matches Some(shown) ==> shown.wf()
    }

    /// Nothing shown.
    pub fn new() -> (r: Self)
        ensures
            r.wf(),
            r.shown() is None,
    {
        StatusBoard { shown: None }
    }

    /// Shows which sources are dark, and answers whether that is news: what
    /// is shown is replaced only where the answer has moved.
    pub fn publish_source_status(&mut self, open: &Table<SourceState>) -> (r: bool)
        requires
            old(self).wf(),
            open.wf(),
        ensures
            final(self).wf(),
            r == is_news(old(self).shown(), open@),
            final(self).shown() == shown_after(old(self).shown(), open@),
    {
        let now = dark_sources(open);
        let news: bool = match &self.shown {
            Some(shown) => {
                let all: bool = within(shown, &now);
                let back: bool = within(&now, shown);
                proof {
                    if all && back {
                        assert(shown@ =~= now@);
                    } else {
                        assert(shown@ != now@);
                    }
                }
                !(all && back)
            },
            None => {
                proof {
                    now.lemma_empty();
                }
                now.len() > 0
            },
        };
        if news {
            self.shown = Some(now);
        }
        news
    }

    /// The dark sources as they are shown, or `None` where none ever was.
    pub fn source_status(&self) -> (r: Option<&Table<SourceStatus>>)
        requires
            self.wf(),
        ensures
            match r {
                Some(shown) => shown.wf() && self.shown() == Some(shown@),
                None => self.shown() is None,
            },
    {
        match &self.shown {
            Some(shown) => Some(shown),
            None => None,
        }
    }
}

/// Showing the same sources twice is no news the second time.
pub proof fn law_a_status_holds_still(
    shown: Option<Map<i64, SourceStatus>>,
    open: Map<i64, SourceState>,
)
    ensures
        !is_news(shown_after(shown, open), open),
{
}

/// What was dark and runs again stops being listed.
pub proof fn law_a_source_that_came_back_is_not_listed(
    shown: Option<Map<i64, SourceStatus>>,
    open: Map<i64, SourceState>,
    id: i64,
)
    requires
        open.dom().contains(id) ==> open[id] is Open,
    ensures
        shown_after(shown, open) matches Some(listed) ==> !listed.dom().contains(id),
{
}

/// A source is listed exactly while it is held and gives no picture: as ended
/// where it played to its end, and as disconnected where it failed, is missing
/// or is gone. One that runs, or is on its way, is not.
pub proof fn law_only_what_is_dark_is_listed(open: Map<i64, SourceState>, id: i64)
    ensures
        !open.dom().contains(id) ==> !dark(open).dom().contains(id),
        open.dom().contains(id) ==> {
            &&& open[id] is Open || open[id] is Opening ==> !dark(open).dom().contains(id)
            &&& open[id] is Failed || open[id] is Missing || open[id] is Disconnected
                ==> dark(open).dom().contains(id) && dark(open)[id] is Disconnected
            &&& open[id] is Ended ==> dark(open).dom().contains(id) && dark(open)[id] is Ended
        },
{
}

/// What is listed after a look is what is dark, wherever anything was ever
/// listed or is dark now; and whoever watches hears of it exactly where it is
/// not what was listed before.
pub proof fn law_whoever_watches_hears_of_every_change(
    shown: Option<Map<i64, SourceStatus>>,
    open: Map<i64, SourceState>,
    id: i64,
)
    ensures
        dark(open).dom().contains(id) ==> shown_after(shown, open) == Some(dark(open)),
        shown matches Some(listed) ==> shown_after(shown, open) == Some(dark(open)) && (
        listed.dom().contains(id) != dark(open).dom().contains(id) ==> is_news(shown, open)),
        shown matches Some(listed) ==> (listed == dark(open) ==> !is_news(shown, open)),
        shown is None && dark(open).dom().contains(id) ==> is_news(shown, open),
        shown is None && dark(open) == Map::<i64, SourceStatus>::empty() ==> !is_news(shown, open)
            && shown_after(shown, open) is None,
{
    if dark(open) == Map::<i64, SourceStatus>::empty() {
        assert(!dark(open).dom().contains(id));
    }
}

} // verus!
