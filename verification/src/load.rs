//! How hard an output is making everything else wait.
//!
//! An output's queues block rather than drop, so when what is behind them
//! falls back they fill, and then whatever feeds them waits. What is reported
//! is how close the outputs are to that: their fullest queue, and all of it as
//! soon as anything has waited.
use vstd::prelude::*;

use crate::output::OutputKind;
use crate::share::{self, Share};
use crate::text::{self, starts_with};

verus! {

/// What a queue says of itself. Times are in nanoseconds.
#[derive(Clone, Copy, Debug, PartialEq, Eq, Structural)]
pub struct QueueStats {
    pub len: u64,
    pub capacity: u64,
    pub dropped: u64,
    pub blocked: u64,
}

/// The ticks of an element that works on a schedule of its own.
#[derive(Clone, Copy, Debug, PartialEq, Eq, Structural)]
pub struct TickStats {
    pub made: u64,
    pub missed: u64,
    pub work: u64,
}

/// What one output port of an element has carried.
#[derive(Clone, Copy, Debug, PartialEq, Eq, Structural)]
pub struct PadStats {
    pub buffers: u64,
    pub bytes: u64,
}

/// What one element of a running graph says of itself.
pub struct ElementStats {
    pub name: String,
    pub id: u64,
    /// Whether it is in the graph, rather than on a finished branch that is
    /// still draining.
    pub attached: bool,
    pub buffers_in: u64,
    pub pads: Vec<PadStats>,
    pub busy: u64,
    pub idle_for: Option<u64>,
    pub errors: u64,
    pub queue: Option<QueueStats>,
    pub ticks: Option<TickStats>,
}

/// What one reading of one element says.
pub struct Element {
    pub name: String,
    /// Buffers handed to it.
    pub taken: u64,
    /// Buffers pushed through its busiest port; `None` where it has no ports,
    /// which is how the end of a branch is known.
    pub pushed: Option<u64>,
    /// Time spent in it and in every stage it feeds on the same thread.
    pub busy: u64,
    /// How long since it last handled anything.
    pub idle_for: Option<u64>,
    /// Calls into it that failed.
    pub errors: u64,
    pub queue: Option<QueueStats>,
    pub id: Option<u64>,
    pub attached: bool,
    /// Bytes through its busiest port.
    pub bytes: u64,
    pub ticks: Option<TickStats>,
}

/// The most any of the first `n` ports has carried, in buffers.
pub open spec fn most_buffers(pads: Seq<PadStats>, n: int) -> Option<u64>
    decreases n,
{
    if n <= 0 {
        None
    } else {
        let here = pads[n - 1].buffers;
        match most_buffers(pads, n - 1) {
            Some(most) if most >= here => Some(most),
            _ => Some(here),
        }
    }
}

/// The most any of the first `n` ports has carried, in bytes.
pub open spec fn most_bytes(pads: Seq<PadStats>, n: int) -> u64
    decreases n,
{
    if n <= 0 {
        0
    } else {
        let most = most_bytes(pads, n - 1);
        if most >= pads[n - 1].bytes {
            most
        } else {
            pads[n - 1].bytes
        }
    }
}

impl Element {
    /// Whether this is what an element's own account comes to.
    pub open spec fn reads(&self, stats: ElementStats) -> bool {
        &&& self.name@ == stats.name@
        &&& self.taken == stats.buffers_in
        &&& self.pushed == most_buffers(stats.pads@, stats.pads@.len() as int)
        &&& self.busy == stats.busy
        &&& self.idle_for == stats.idle_for
        &&& self.errors == stats.errors
        &&& self.queue == stats.queue
        &&& self.id == Some(stats.id)
        &&& self.attached == stats.attached
        &&& self.bytes == most_bytes(stats.pads@, stats.pads@.len() as int)
        &&& self.ticks == stats.ticks
    }

    /// Reads one element: the busiest of its ports rather than all of them
    /// together, because one that fans out pushes each buffer once a branch.
    pub fn of(stats: &ElementStats) -> (r: Self)
        ensures
            r.reads(*stats),
    {
        let mut pushed: Option<u64> = None;
        let mut bytes: u64 = 0;
        let mut i: usize = 0;
        while i < stats.pads.len()
            invariant
                i <= stats.pads@.len(),
                pushed == most_buffers(stats.pads@, i as int),
                bytes == most_bytes(stats.pads@, i as int),
            decreases stats.pads@.len() - i,
        {
            let pad: PadStats = stats.pads[i];
            pushed = match pushed {
                Some(most) => if most >= pad.buffers { Some(most) } else { Some(pad.buffers) },
                None => Some(pad.buffers),
            };
            if bytes < pad.bytes {
                bytes = pad.bytes;
            }
            i = i + 1;
        }
        Element {
            name: stats.name.clone(),
            taken: stats.buffers_in,
            pushed,
            busy: stats.busy,
            idle_for: stats.idle_for,
            errors: stats.errors,
            queue: stats.queue,
            id: Some(stats.id),
            attached: stats.attached,
            bytes,
            ticks: stats.ticks,
        }
    }
}

/// Every element of one graph, read.
pub fn elements(stats: &Vec<ElementStats>) -> (r: Vec<Element>)
    ensures
        r@.len() == stats@.len(),
        forall|i: int| 0 <= i < r@.len() ==> (#[trigger] r@[i]).reads(stats@[i]),
{
    let mut r: Vec<Element> = Vec::new();
    let mut i: usize = 0;
    while i < stats.len()
        invariant
            i <= stats@.len(),
            r@.len() == i,
            forall|j: int| 0 <= j < i ==> (#[trigger] r@[j]).reads(stats@[j]),
        decreases stats@.len() - i,
    {
        r.push(Element::of(&stats[i]));
        i = i + 1;
    }
    r
}

/// What the outputs' queues have cost, as running totals.
#[derive(Clone, Copy, Debug, PartialEq, Eq, Structural)]
pub struct Load {
    /// How long anything has waited for room, in nanoseconds.
    pub blocked: u64,
    /// Buffers thrown away.
    pub dropped: u64,
    /// How full the fullest queue was at the moment this was read.
    pub fullest: Share,
}

/// Whether an element by this name belongs to an output.
pub open spec fn outputs_own(name: Seq<char>) -> bool {
    text::begins(name, OutputKind::Recording.called()) || text::begins(
        name,
        OutputKind::Broadcast.called(),
    )
}

/// Whether a queue by this name belongs to an output, rather than to something
/// that drops on purpose.
pub fn is_an_outputs(name: &str) -> (r: bool)
    ensures
        r == outputs_own(name@),
{
    starts_with(name, OutputKind::Recording.prefix()) || starts_with(
        name,
        OutputKind::Broadcast.prefix(),
    )
}

/// How full a queue is.
pub fn fullness(queue: QueueStats) -> (r: Share)
    ensures
        r == (Share { part: queue.len, whole: queue.capacity }),
{
    Share::new(queue.len, queue.capacity)
}

/// The queue of an element that counts: an output's.
pub open spec fn counted(element: Element) -> Option<QueueStats> {
    if outputs_own(element.name@) {
        element.queue
    } else {
        None
    }
}

/// How long anything has waited for the first `n` elements.
pub open spec fn total_blocked(elements: Seq<Element>, n: int) -> int
    decreases n,
{
    if n <= 0 {
        0
    } else {
        total_blocked(elements, n - 1) + match counted(elements[n - 1]) {
            Some(queue) => queue.blocked as int,
            None => 0,
        }
    }
}

/// What the first `n` elements have thrown away.
pub open spec fn total_dropped(elements: Seq<Element>, n: int) -> int
    decreases n,
{
    if n <= 0 {
        0
    } else {
        total_dropped(elements, n - 1) + match counted(elements[n - 1]) {
            Some(queue) => queue.dropped as int,
            None => 0,
        }
    }
}

/// The fullest queue of the first `n` elements.
pub open spec fn fullest_of(elements: Seq<Element>, n: int) -> Share
    decreases n,
{
    if n <= 0 {
        Share::nothing()
    } else {
        match counted(elements[n - 1]) {
            Some(queue) => fullest_of(elements, n - 1).larger(
                Share { part: queue.len, whole: queue.capacity },
            ),
            None => fullest_of(elements, n - 1),
        }
    }
}

proof fn lemma_totals_grow(elements: Seq<Element>, i: int, n: int)
    requires
        0 <= i <= n <= elements.len(),
    ensures
        0 <= total_blocked(elements, i) <= total_blocked(elements, n),
        0 <= total_dropped(elements, i) <= total_dropped(elements, n),
    decreases n,
{
    if i < n {
        lemma_totals_grow(elements, i, n - 1);
    } else if i > 0 {
        lemma_totals_grow(elements, i - 1, i - 1);
    }
}

impl Load {
    /// Nothing waited for, nothing thrown away, and nothing waiting.
    pub open spec fn none() -> Load {
        Load { blocked: 0, dropped: 0, fullest: Share::nothing() }
    }

    /// Nothing waited for, nothing thrown away, and nothing waiting.
    pub fn zero() -> (r: Self)
        ensures
            r == Self::none(),
    {
        Load { blocked: 0, dropped: 0, fullest: Share { part: 0, whole: 1 } }
    }

    /// What these elements' output queues have cost so far.
    pub open spec fn of(elements: Seq<Element>) -> Load {
        let n = elements.len() as int;
        Load {
            blocked: total_blocked(elements, n) as u64,
            dropped: total_dropped(elements, n) as u64,
            fullest: fullest_of(elements, n),
        }
    }

    /// Whether what these elements have cost can be counted.
    pub open spec fn fits(elements: Seq<Element>) -> bool {
        let n = elements.len() as int;
        total_blocked(elements, n) <= u64::MAX && total_dropped(elements, n) <= u64::MAX
    }

    /// Two costs together.
    pub open spec fn merged(self, other: Load) -> Load {
        Load {
            blocked: (self.blocked + other.blocked) as u64,
            dropped: (self.dropped + other.dropped) as u64,
            fullest: self.fullest.larger(other.fullest),
        }
    }

    /// Whether two costs are the same, whatever their shares are counted in.
    pub open spec fn same(self, other: Load) -> bool {
        &&& self.blocked == other.blocked
        &&& self.dropped == other.dropped
        &&& self.fullest.at_most(&other.fullest)
        &&& other.fullest.at_most(&self.fullest)
    }

    /// What one graph's output queues have cost so far.
    pub fn read(elements: &Vec<Element>) -> (r: Self)
        requires
            Self::fits(elements@),
        ensures
            r == Self::of(elements@),
            r.blocked == total_blocked(elements@, elements@.len() as int),
            r.dropped == total_dropped(elements@, elements@.len() as int),
            r.fullest == fullest_of(elements@, elements@.len() as int),
    {
        let mut total = Load::zero();
        let mut i: usize = 0;
        while i < elements.len()
            invariant
                i <= elements@.len(),
                total_blocked(elements@, elements@.len() as int) <= u64::MAX,
                total_dropped(elements@, elements@.len() as int) <= u64::MAX,
                total.blocked == total_blocked(elements@, i as int),
                total.dropped == total_dropped(elements@, i as int),
                total.fullest == fullest_of(elements@, i as int),
            decreases elements@.len() - i,
        {
            let element = &elements[i];
            proof {
                lemma_totals_grow(elements@, i + 1, elements@.len() as int);
            }
            if is_an_outputs(element.name.as_str()) {
                match element.queue {
                    Some(queue) => {
                        total = Load {
                            blocked: total.blocked + queue.blocked,
                            dropped: total.dropped + queue.dropped,
                            fullest: total.fullest.max(fullness(queue)),
                        };
                    },
                    None => {},
                }
            }
            i = i + 1;
        }
        total
    }

    /// Two graphs' costs together.
    pub fn merge(self, other: Self) -> (r: Self)
        requires
            self.blocked + other.blocked <= u64::MAX,
            self.dropped + other.dropped <= u64::MAX,
        ensures
            r == self.merged(other),
            r.blocked == self.blocked + other.blocked,
            r.dropped == self.dropped + other.dropped,
            r.fullest == self.fullest.larger(other.fullest),
    {
        Load {
            blocked: self.blocked + other.blocked,
            dropped: self.dropped + other.dropped,
            fullest: self.fullest.max(other.fullest),
        }
    }

    /// What happened between an earlier reading and this one. A total that
    /// went back is one that was reset, and reads as nothing.
    pub open spec fn difference(self, earlier: Load) -> Load {
        Load {
            blocked: if self.blocked >= earlier.blocked {
                (self.blocked - earlier.blocked) as u64
            } else {
                0
            },
            dropped: if self.dropped >= earlier.dropped {
                (self.dropped - earlier.dropped) as u64
            } else {
                0
            },
            fullest: self.fullest,
        }
    }

    /// What happened between an earlier reading and this one.
    pub fn since(self, earlier: Self) -> (r: Self)
        ensures
            r == self.difference(earlier),
    {
        Load {
            blocked: self.blocked.saturating_sub(earlier.blocked),
            dropped: self.dropped.saturating_sub(earlier.dropped),
            fullest: self.fullest,
        }
    }

    /// How close the outputs are to not keeping up: the fullest queue, and all
    /// of it where anything has waited.
    pub open spec fn presses(self) -> Share {
        if self.blocked == 0 {
            self.fullest.clamped()
        } else {
            Share::everything()
        }
    }

    /// How close the outputs are to not keeping up.
    pub fn pressure(self) -> (r: Share)
        ensures
            r == self.presses(),
    {
        if self.blocked == 0 {
            self.fullest.clamp()
        } else {
            Share { part: 1, whole: 1 }
        }
    }
}

/// What the outputs cost over the interval just ended, from both graphs.
/// Answers the share that is shown, and the reading to measure the next
/// interval against.
pub fn output_load(preview: &Vec<Element>, audio: Option<Load>, last: Load) -> (r: (Share, Load))
    requires
        total_blocked(preview@, preview@.len() as int) + (match audio {
            Some(load) => load.blocked as int,
            None => 0,
        }) <= u64::MAX,
        total_dropped(preview@, preview@.len() as int) + (match audio {
            Some(load) => load.dropped as int,
            None => 0,
        }) <= u64::MAX,
    ensures
        ({
            let other = match audio {
                Some(load) => load,
                None => Load::none(),
            };
            &&& r.1.blocked == total_blocked(preview@, preview@.len() as int) + other.blocked
            &&& r.1.dropped == total_dropped(preview@, preview@.len() as int) + other.dropped
            &&& r.1.fullest == fullest_of(preview@, preview@.len() as int).larger(other.fullest)
        }),
        r.0 == r.1.difference(last).presses(),
{
    let other: Load = match audio {
        Some(load) => load,
        None => Load::zero(),
    };
    let total = Load::read(preview).merge(other);
    (total.since(last).pressure(), total)
}

/// Reading two lists of elements together is merging what each reads, in either
/// order, and reading none is nothing.
pub proof fn law_reading_together_is_merging(a: Seq<Element>, b: Seq<Element>)
    requires
        Load::fits(a + b),
    ensures
        Load::fits(a),
        Load::fits(b),
        Load::fits(b + a),
        Load::of(a + b) == Load::of(a).merged(Load::of(b)),
        Load::of(b + a) == Load::of(b).merged(Load::of(a)),
        Load::of(a + b).same(Load::of(b + a)),
        Load::of(Seq::empty()) == Load::none(),
{
    let (x, y) = (a.len() as int, b.len() as int);
    lemma_read_on(a, b, y);
    lemma_read_on(b, a, x);
    lemma_totals_grow(a, x, x);
    lemma_totals_grow(b, y, y);
    let (m, n) = (fullest_of(a, x), fullest_of(b, y));
    share::law_the_larger_is_at_least_both(m, n);
    share::law_the_larger_is_at_least_both(n, m);
    share::law_shares_are_ordered(m, m, m);
    share::law_shares_are_ordered(n, n, n);
}

/// What is not an output's queue adds nothing: with it or without it, the
/// reading is the same.
pub proof fn law_only_an_outputs_queues_count(a: Seq<Element>, element: Element, b: Seq<Element>)
    requires
        Load::fits(a + b),
        element.queue is None || !outputs_own(element.name@),
    ensures
        Load::fits(a.push(element) + b),
        Load::of(a.push(element) + b) == Load::of(a + b),
{
    let more = a.push(element);
    let x = a.len() as int;
    let y = b.len() as int;
    lemma_read_on(a, seq![element], 1);
    assert(a + seq![element] =~= more);
    assert(seq![element][0] == element);
    assert(total_blocked(seq![element], 0) == 0);
    assert(total_dropped(seq![element], 0) == 0);
    assert(fullest_of(seq![element], 0) == Share::nothing());
    lemma_read_on(a, b, y);
    lemma_read_on(more, b, y);
    lemma_nothing_adds_nothing(fullest_of(a, x));
}

/// Reading on through a second list adds what that one comes to.
proof fn lemma_read_on(a: Seq<Element>, b: Seq<Element>, n: int)
    requires
        0 <= n <= b.len(),
    ensures
        ({
            let x = a.len() as int;
            &&& total_blocked(a + b, x + n) == total_blocked(a, x) + total_blocked(b, n)
            &&& total_dropped(a + b, x + n) == total_dropped(a, x) + total_dropped(b, n)
            &&& fullest_of(a + b, x + n) == fullest_of(a, x).larger(fullest_of(b, n))
        }),
    decreases n,
{
    let x = a.len() as int;
    if n > 0 {
        lemma_read_on(a, b, n - 1);
        assert((a + b)[x + n - 1] == b[n - 1]);
        if let Some(queue) = counted(b[n - 1]) {
            let last = Share { part: queue.len, whole: queue.capacity };
            lemma_larger_of_three(fullest_of(a, x), fullest_of(b, n - 1), last);
        }
    } else {
        lemma_read_first(a, a + b, x);
        lemma_nothing_adds_nothing(fullest_of(a, x));
    }
}

/// What the first elements come to is theirs alone.
proof fn lemma_read_first(some: Seq<Element>, all: Seq<Element>, n: int)
    requires
        n <= some.len() <= all.len(),
        forall|i: int| 0 <= i < n ==> #[trigger] all[i] == some[i],
    ensures
        total_blocked(some, n) == total_blocked(all, n),
        total_dropped(some, n) == total_dropped(all, n),
        fullest_of(some, n) == fullest_of(all, n),
    decreases n,
{
    if n > 0 {
        lemma_read_first(some, all, n - 1);
        assert(all[n - 1] == some[n - 1]);
    }
}

proof fn lemma_nothing_adds_nothing(share: Share)
    ensures
        share.larger(Share::nothing()) == share,
{
}

/// It does not matter which two of three are compared first.
proof fn lemma_larger_of_three(a: Share, b: Share, c: Share)
    ensures
        a.larger(b).larger(c) == a.larger(b.larger(c)),
{
    share::law_shares_are_ordered(a, b, c);
    share::law_shares_are_ordered(a, c, b);
    share::law_shares_are_ordered(b, a, c);
    share::law_shares_are_ordered(b, c, a);
    share::law_shares_are_ordered(c, a, b);
    share::law_shares_are_ordered(c, b, a);
}

/// The pressure is never more than all of it, and never less than how full the
/// fullest queue is.
pub proof fn law_pressure_is_a_share(load: Load)
    ensures
        load.presses().at_most(&Share::everything()),
        load.fullest.clamped().at_most(&load.presses()),
{
    let all = Share::everything();
    let clamped = load.fullest.clamped();
    assert(clamped.at_most(&all)) by {
        share::law_shares_are_ordered(load.fullest, all, all);
    }
    share::law_shares_are_ordered(clamped, clamped, clamped);
}

/// Every queue that counts is at most as full as what is reported as the
/// fullest.
pub proof fn law_the_fullest_is_the_fullest(elements: Seq<Element>, n: int, i: int)
    requires
        0 <= i < n <= elements.len(),
        counted(elements[i]) is Some,
    ensures
        (Share {
            part: counted(elements[i])->0.len,
            whole: counted(elements[i])->0.capacity,
        }).at_most(&fullest_of(elements, n)),
    decreases n,
{
    let here = Share {
        part: counted(elements[i])->0.len,
        whole: counted(elements[i])->0.capacity,
    };
    let before = fullest_of(elements, n - 1);
    match counted(elements[n - 1]) {
        Some(queue) => {
            let last = Share { part: queue.len, whole: queue.capacity };
            share::law_the_larger_is_at_least_both(before, last);
            if i < n - 1 {
                law_the_fullest_is_the_fullest(elements, n - 1, i);
                share::law_shares_are_ordered(here, before, before.larger(last));
            }
        },
        None => {
            law_the_fullest_is_the_fullest(elements, n - 1, i);
        },
    }
}

/// Two readings one after the other tell of the whole between them: what
/// happened from the first to the second and from the second to the third is
/// what happened from the first to the third.
pub proof fn law_intervals_add_up(first: Load, second: Load, third: Load)
    requires
        first.blocked <= second.blocked <= third.blocked,
        first.dropped <= second.dropped <= third.dropped,
    ensures
        second.difference(first).blocked + third.difference(second).blocked == third.difference(
            first,
        ).blocked,
        second.difference(first).dropped + third.difference(second).dropped == third.difference(
            first,
        ).dropped,
{
}

/// A queue of an output counts for what it waited, what it threw away and how
/// full it is; nothing counts that is not an output's, and an output's is what
/// is named after a recording or a broadcast.
pub proof fn law_a_queue_counts_for_what_it_is(element: Element, queue: QueueStats)
    requires
        element.queue == Some(queue),
    ensures
        ({
            let load = Load::of(seq![element]);
            let own = text::begins(element.name@, "record"@) || text::begins(
                element.name@,
                "stream"@,
            );
            let fill = Share { part: queue.len, whole: queue.capacity };
            &&& own ==> load.blocked == queue.blocked && load.dropped == queue.dropped
            &&& own ==> fill.at_most(&load.fullest) && (load.fullest == fill || load.fullest.part
                == 0)
            &&& !own ==> load.blocked == 0 && load.dropped == 0 && load.fullest.part == 0
        }),
{
    let one = seq![element];
    assert(one[0] == element);
    assert(total_blocked(one, 0) == 0 && total_dropped(one, 0) == 0);
    assert(fullest_of(one, 0) == Share::nothing());
    let fill = Share { part: queue.len, whole: queue.capacity };
    share::law_the_larger_is_at_least_both(Share::nothing(), fill);
    assert(fullest_of(one, 1) == match counted(element) {
        Some(queue) => Share::nothing().larger(Share { part: queue.len, whole: queue.capacity }),
        None => Share::nothing(),
    });
    assert(total_blocked(one, 1) == match counted(element) {
        Some(queue) => queue.blocked as int,
        None => 0,
    });
    assert(total_dropped(one, 1) == match counted(element) {
        Some(queue) => queue.dropped as int,
        None => 0,
    });
}

/// What happened between two readings is what the counters grew by, and nothing
/// where they started again; how full it is, is how full it is now.
pub proof fn law_a_load_is_what_happened_since(now: Load, earlier: Load)
    ensures
        now.blocked >= earlier.blocked ==> now.difference(earlier).blocked == now.blocked
            - earlier.blocked,
        now.blocked < earlier.blocked ==> now.difference(earlier).blocked == 0,
        now.dropped >= earlier.dropped ==> now.difference(earlier).dropped == now.dropped
            - earlier.dropped,
        now.dropped < earlier.dropped ==> now.difference(earlier).dropped == 0,
        now.difference(earlier).fullest == now.fullest,
{
}

/// Whatever had to wait at all is under full pressure; what did not is under as
/// much as it is full, and never more than all of it.
pub proof fn law_whatever_waited_is_under_full_pressure(load: Load)
    ensures
        load.blocked > 0 ==> load.presses().part == 1 && load.presses().whole == 1,
        load.blocked == 0 && load.fullest.part < load.fullest.whole ==> load.presses()
            == load.fullest,
        load.blocked == 0 && load.fullest.whole > 0 && load.fullest.part >= load.fullest.whole
            ==> load.presses().part == 1 && load.presses().whole == 1,
{
}

/// Two loads together have waited and thrown away what both have.
pub proof fn law_loads_are_summed(a: Load, b: Load)
    requires
        a.blocked + b.blocked <= u64::MAX,
        a.dropped + b.dropped <= u64::MAX,
    ensures
        a.merged(b).blocked == a.blocked + b.blocked,
        a.merged(b).dropped == a.dropped + b.dropped,
        a.merged(b).fullest == a.fullest || a.merged(b).fullest == b.fullest,
        a.fullest.at_most(&a.merged(b).fullest) && b.fullest.at_most(&a.merged(b).fullest),
        Load::none().blocked == 0 && Load::none().dropped == 0 && Load::none().fullest.part == 0,
{
    share::law_the_larger_is_at_least_both(a.fullest, b.fullest);
}

/// An element pushed as much as its busiest port did.
pub proof fn law_the_busiest_port_counts(pads: Seq<PadStats>, n: int, i: int)
    requires
        0 <= i < n <= pads.len(),
    ensures
        most_buffers(pads, 0) is None && most_bytes(pads, 0) == 0,
        most_buffers(pads, n) matches Some(most) && pads[i].buffers <= most,
        pads[i].bytes <= most_bytes(pads, n),
        exists|j: int|
            0 <= j < n && most_buffers(pads, n) == Some((#[trigger] pads[j]).buffers),
        exists|j: int| 0 <= j < n && most_bytes(pads, n) == (#[trigger] pads[j]).bytes,
    decreases n,
{
    assert(most_buffers(pads, 0) is None && most_bytes(pads, 0) == 0);
    if n > 1 {
        law_the_busiest_port_counts(pads, n - 1, if i < n - 1 {
            i
        } else {
            0
        });
        let j = choose|j: int|
            0 <= j < n - 1 && most_buffers(pads, n - 1) == Some((#[trigger] pads[j]).buffers);
        let k = choose|k: int|
            0 <= k < n - 1 && most_bytes(pads, n - 1) == (#[trigger] pads[k]).bytes;
        assert(most_buffers(pads, n) == Some(pads[j].buffers) || most_buffers(pads, n) == Some(
            pads[n - 1].buffers,
        ));
        assert(most_bytes(pads, n) == pads[k].bytes || most_bytes(pads, n) == pads[n - 1].bytes);
    } else {
        assert(most_buffers(pads, n) == Some(pads[0].buffers));
        assert(most_bytes(pads, n) == pads[0].bytes);
    }
}

/// An element is read as it is: its own counters, and its busiest port's.
pub proof fn law_an_element_is_read_as_it_is(element: Element, stats: ElementStats)
    requires
        element.reads(stats),
    ensures
        element.name@ == stats.name@ && element.id == Some(stats.id),
        element.taken == stats.buffers_in && element.busy == stats.busy,
        element.idle_for == stats.idle_for && element.errors == stats.errors,
        element.queue == stats.queue && element.ticks == stats.ticks,
        element.attached == stats.attached,
        element.pushed is None <==> stats.pads@.len() == 0,
        stats.pads@.len() == 0 ==> element.bytes == 0,
        forall|i: int|
            0 <= i < stats.pads@.len() ==> element.pushed->0 >= (#[trigger] stats.pads@[i]).buffers
                && element.bytes >= stats.pads@[i].bytes,
{
    let n = stats.pads@.len() as int;
    if n > 0 {
        law_the_busiest_port_counts(stats.pads@, n, 0);
    }
    assert forall|i: int| 0 <= i < n implies element.pushed->0 >= (
    #[trigger] stats.pads@[i]).buffers && element.bytes >= stats.pads@[i].bytes by {
        law_the_busiest_port_counts(stats.pads@, n, i);
    }
}

} // verus!
