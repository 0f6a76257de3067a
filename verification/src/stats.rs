//! What every named part of the graph is doing.
//!
//! What the graph counts are running totals; what is shown are differences
//! between two readings, folded into one row for each thing someone would act
//! on. Times are in nanoseconds.
use vstd::prelude::*;
use vstd::string::*;

use crate::load::{self, fullness, is_an_outputs, Element, QueueStats, TickStats};
use crate::output::OutputKind;
use crate::share::{self, Share};
use crate::text::{self, chars_of, same, starts_with};

verus! {

/// What a row is about.
pub enum Subject {
    Compositor,
    Recording,
    Broadcast,
    /// A source, by the name its item has.
    Source(String),
}

/// What a row is about, with the name as a text.
pub enum SubjectView {
    Compositor,
    Recording,
    Broadcast,
    Source(Seq<char>),
}

impl View for Subject {
    type V = SubjectView;

    open spec fn view(&self) -> SubjectView {
        match self {
            Subject::Compositor => SubjectView::Compositor,
            Subject::Recording => SubjectView::Recording,
            Subject::Broadcast => SubjectView::Broadcast,
            Subject::Source(name) => SubjectView::Source(name@),
        }
    }
}

/// What an element is asked for.
#[derive(Clone, Copy, Debug, PartialEq, Eq, Structural)]
pub enum Role {
    /// How much it handled.
    Throughput,
    /// What it cost, and how full it is.
    Cost,
}

/// Which row an element is part of, and what it is asked for.
pub struct Naming {
    pub subject: Subject,
    pub role: Role,
}

/// One element as it was read: where, what it said, and what it is part of.
pub struct Read {
    /// The graph it is in. Elements of two graphs can share a name.
    pub pipeline: String,
    pub element: Element,
    pub named: Option<Naming>,
}

/// One row of what is shown.
pub struct StatsRow {
    pub subject: Subject,
    pub buffers: Option<u64>,
    pub busy: Option<Share>,
    pub queue: Option<Share>,
    pub idle_for: Option<u64>,
    pub errors: u64,
}

/// How the compositor is keeping its rate.
#[derive(Clone, Copy, Debug, PartialEq, Eq, Structural)]
pub struct Rendering {
    pub run: Option<u64>,
    pub made: u64,
    pub missed: u64,
    /// What drawing a frame took.
    pub frame_time: Option<u64>,
}

/// Bits over a time.
#[derive(Clone, Copy, Debug, PartialEq, Eq, Structural)]
pub struct BitRate {
    pub bits: u128,
    pub nanos: u64,
}

/// What an output was handed, lost and wrote.
#[derive(Clone, Copy, Debug, PartialEq, Eq, Structural)]
pub struct OutputStats {
    pub run: Option<u64>,
    pub frames: u64,
    pub lost: u64,
    pub bytes: u64,
    pub bitrate: Option<BitRate>,
}

/// One reading of everything that is shown.
pub struct StatsSnapshot {
    pub rows: Vec<StatsRow>,
    pub interval: u64,
    pub rendering: Option<Rendering>,
    pub recording: Option<OutputStats>,
    pub broadcast: Option<OutputStats>,
}

/// An element's running totals.
#[derive(Clone, Copy, Debug, PartialEq, Eq, Structural)]
pub struct Totals {
    pub buffers: u64,
    pub busy: u64,
}

/// What an element's totals are kept under.
pub open spec fn key_of(read: Read) -> Seq<char> {
    read.pipeline@ + "/"@ + read.element.name@
}

/// What an element has handled and cost: buffers taken for a stage, buffers
/// pushed for a source, which makes them.
pub open spec fn totals_of(element: Element) -> Totals {
    let pushed = match element.pushed {
        Some(pushed) => pushed,
        None => 0,
    };
    Totals {
        buffers: if element.taken >= pushed {
            element.taken
        } else {
            pushed
        },
        busy: element.busy,
    }
}

/// The difference of two totals; nothing where the later is the smaller.
pub open spec fn grown(now: u64, before: u64) -> u64 {
    if now >= before {
        (now - before) as u64
    } else {
        0
    }
}

/// The totals after the first `n` elements: those of everything that is part
/// of a row.
pub open spec fn totals_after(reads: Seq<Read>, n: int) -> Map<Seq<char>, Totals>
    decreases n,
{
    if n <= 0 {
        Map::empty()
    } else {
        let before = totals_after(reads, n - 1);
        if reads[n - 1].named is Some {
            before.insert(key_of(reads[n - 1]), totals_of(reads[n - 1].element))
        } else {
            before
        }
    }
}

/// What a row is about and what it holds, with the name as a text.
pub struct RowView {
    pub subject: SubjectView,
    pub buffers: Option<u64>,
    pub busy: Option<Share>,
    pub queue: Option<Share>,
    pub idle_for: Option<u64>,
    pub errors: int,
}

/// A row nothing has been added to.
pub open spec fn empty_row(subject: SubjectView) -> RowView {
    RowView { subject, buffers: None, busy: None, queue: None, idle_for: None, errors: 0 }
}

/// What an element has handled since it was last read; nothing where it was
/// not.
pub open spec fn handled(read: Read, previous: Map<Seq<char>, Totals>) -> u64 {
    if previous.dom().contains(key_of(read)) {
        grown(totals_of(read.element).buffers, previous[key_of(read)].buffers)
    } else {
        0
    }
}

/// What share of the time since it was last read an element was busy.
pub open spec fn spent(read: Read, previous: Map<Seq<char>, Totals>, interval: u64) -> Share {
    let busy = if previous.dom().contains(key_of(read)) {
        grown(totals_of(read.element).busy, previous[key_of(read)].busy)
    } else {
        0
    };
    Share { part: busy, whole: interval }
}

/// How full a queue is.
pub open spec fn full(queue: QueueStats) -> Share {
    Share { part: queue.len, whole: queue.capacity }
}

/// The larger of a share that may be missing and one that is there.
pub open spec fn larger_share(held: Option<Share>, share: Share) -> Option<Share> {
    match held {
        Some(held) => Some(held.larger(share)),
        None => Some(share),
    }
}

/// A row with one more element added. Counts and shares are those of the
/// busiest part, a part that is idle does not make the row idle, and errors
/// add up.
pub open spec fn with_element(
    row: RowView,
    read: Read,
    role: Role,
    previous: Map<Seq<char>, Totals>,
    interval: u64,
) -> RowView {
    let element = read.element;
    RowView {
        subject: row.subject,
        buffers: match role {
            Role::Throughput => match row.buffers {
                Some(most) if most >= handled(read, previous) => Some(most),
                _ => Some(handled(read, previous)),
            },
            Role::Cost => row.buffers,
        },
        busy: match role {
            Role::Throughput => row.busy,
            Role::Cost => larger_share(row.busy, spent(read, previous, interval)),
        },
        queue: match (role, element.queue) {
            (Role::Cost, Some(queue)) => larger_share(row.queue, full(queue)),
            _ => row.queue,
        },
        idle_for: match (row.idle_for, element.idle_for) {
            (Some(theirs), Some(mine)) => Some(
                if theirs <= mine {
                    theirs
                } else {
                    mine
                },
            ),
            (Some(theirs), None) => Some(theirs),
            (None, mine) => mine,
        },
        errors: row.errors + element.errors,
    }
}

/// The row of one subject after the first `n` elements, where any of them is
/// part of it.
pub open spec fn row_after(
    reads: Seq<Read>,
    subject: SubjectView,
    previous: Map<Seq<char>, Totals>,
    interval: u64,
    n: int,
) -> Option<RowView>
    decreases n,
{
    if n <= 0 {
        None
    } else {
        let before = row_after(reads, subject, previous, interval, n - 1);
        match reads[n - 1].named {
            Some(naming) if naming.subject@ == subject => Some(
                with_element(
                    match before {
                        Some(row) => row,
                        None => empty_row(subject),
                    },
                    reads[n - 1],
                    naming.role,
                    previous,
                    interval,
                ),
            ),
            _ => before,
        }
    }
}

/// How many calls the first `n` elements that are part of a row have failed.
pub open spec fn total_errors(reads: Seq<Read>, n: int) -> int
    decreases n,
{
    if n <= 0 {
        0
    } else {
        total_errors(reads, n - 1) + (if reads[n - 1].named is Some {
            reads[n - 1].element.errors as int
        } else {
            0
        })
    }
}

impl View for StatsRow {
    type V = RowView;

    open spec fn view(&self) -> RowView {
        RowView {
            subject: self.subject@,
            buffers: self.buffers,
            busy: self.busy,
            queue: self.queue,
            idle_for: self.idle_for,
            errors: self.errors as int,
        }
    }
}

/// Whether one text stands before another, character by character.
pub open spec fn text_before(a: Seq<char>, b: Seq<char>) -> bool
    decreases a.len(),
{
    if b.len() == 0 {
        false
    } else if a.len() == 0 {
        true
    } else if a[0] != b[0] {
        a[0] < b[0]
    } else {
        text_before(a.skip(1), b.skip(1))
    }
}

/// Where the kinds of row stand: what draws, then what it is written to, then
/// what feeds it.
pub open spec fn rank(subject: SubjectView) -> int {
    match subject {
        SubjectView::Compositor => 0,
        SubjectView::Recording => 1,
        SubjectView::Broadcast => 2,
        SubjectView::Source(_) => 3,
    }
}

/// Whether one row is shown before another: by kind, and sources by name.
pub open spec fn shown_before(a: SubjectView, b: SubjectView) -> bool {
    match (a, b) {
        (SubjectView::Source(a), SubjectView::Source(b)) => text_before(a, b),
        _ => rank(a) < rank(b),
    }
}

proof fn lemma_text_order(a: Seq<char>, b: Seq<char>, c: Seq<char>)
    ensures
        !text_before(a, a),
        a == b || text_before(a, b) || text_before(b, a),
        text_before(a, b) && text_before(b, c) ==> text_before(a, c),
    decreases a.len(),
{
    if a.len() > 0 {
        lemma_text_order(
            a.skip(1),
            if b.len() > 0 {
                b.skip(1)
            } else {
                b
            },
            if c.len() > 0 {
                c.skip(1)
            } else {
                c
            },
        );
        if b.len() > 0 && a[0] == b[0] && a.skip(1) == b.skip(1) {
            assert(a =~= b) by {
                assert forall|i: int| 0 <= i < a.len() implies a[i] == b[i] by {
                    if i > 0 {
                        assert(a.skip(1)[i - 1] == b.skip(1)[i - 1]);
                    }
                }
            }
        }
    } else if b.len() == 0 {
        assert(a =~= b);
    }
}

/// Rows can be put in one order only: no row is before itself, of two
/// different ones one is before the other, and the order carries over.
pub proof fn law_rows_have_one_order(a: SubjectView, b: SubjectView, c: SubjectView)
    ensures
        !shown_before(a, a),
        a == b || shown_before(a, b) || shown_before(b, a),
        shown_before(a, b) && shown_before(b, c) ==> shown_before(a, c),
{
    let text = |s: SubjectView| match s {
        SubjectView::Source(name) => name,
        _ => Seq::<char>::empty(),
    };
    lemma_text_order(text(a), text(b), text(c));
}

fn text_is_before(a: &Vec<char>, b: &Vec<char>, from: usize) -> (r: bool)
    requires
        from <= a@.len(),
        from <= b@.len(),
    ensures
        r == text_before(a@.skip(from as int), b@.skip(from as int)),
    decreases a@.len() - from,
{
    if from == b.len() {
        false
    } else if from == a.len() {
        true
    } else if a[from] != b[from] {
        a[from] < b[from]
    } else {
        proof {
            assert(a@.skip(from as int).skip(1) =~= a@.skip(from + 1));
            assert(b@.skip(from as int).skip(1) =~= b@.skip(from + 1));
        }
        text_is_before(a, b, from + 1)
    }
}

impl Subject {
    /// Where the kind of this row stands among the kinds.
    fn place(&self) -> (r: u8)
        ensures
            r == rank(self@),
    {
        match self {
            Subject::Compositor => 0,
            Subject::Recording => 1,
            Subject::Broadcast => 2,
            Subject::Source(_) => 3,
        }
    }

    /// Whether two rows are about the same thing.
    pub fn is(&self, other: &Subject) -> (r: bool)
        ensures
            r == (self@ == other@),
    {
        match (self, other) {
            (Subject::Source(a), Subject::Source(b)) => same(a.as_str(), b.as_str()),
            _ => self.place() == other.place(),
        }
    }

    /// Whether this row is shown before another.
    pub fn order(&self, other: &Subject) -> (r: bool)
        ensures
            r == shown_before(self@, other@),
    {
        match (self, other) {
            (Subject::Source(a), Subject::Source(b)) => {
                let x = chars_of(a.as_str());
                let y = chars_of(b.as_str());
                proof {
                    assert(x@.skip(0) =~= x@);
                    assert(y@.skip(0) =~= y@);
                }
                text_is_before(&x, &y, 0)
            },
            _ => self.place() < other.place(),
        }
    }

    fn copied(&self) -> (r: Subject)
        ensures
            r@ == self@,
    {
        match self {
            Subject::Compositor => Subject::Compositor,
            Subject::Recording => Subject::Recording,
            Subject::Broadcast => Subject::Broadcast,
            Subject::Source(name) => Subject::Source(name.clone()),
        }
    }
}

/// Totals kept by name. A name given again replaces what it had.
pub struct NamedTotals {
    entries: Vec<(String, Totals)>,
}

spec fn entered(entries: Seq<(String, Totals)>, n: int) -> Map<Seq<char>, Totals>
    decreases n,
{
    if n <= 0 {
        Map::empty()
    } else {
        entered(entries, n - 1).insert(entries[n - 1].0@, entries[n - 1].1)
    }
}

proof fn lemma_entered_prefix(a: Seq<(String, Totals)>, b: Seq<(String, Totals)>, n: int)
    requires
        0 <= n <= a.len(),
        n <= b.len(),
        forall|i: int| 0 <= i < n ==> a[i] == b[i],
    ensures
        entered(a, n) == entered(b, n),
    decreases n,
{
    if n > 0 {
        lemma_entered_prefix(a, b, n - 1);
    }
}

impl View for NamedTotals {
    type V = Map<Seq<char>, Totals>;

    closed spec fn view(&self) -> Map<Seq<char>, Totals> {
        entered(self.entries@, self.entries@.len() as int)
    }
}

impl NamedTotals {
    /// Nothing kept.
    pub fn new() -> (r: Self)
        ensures
            r@ == Map::<Seq<char>, Totals>::empty(),
    {
        NamedTotals { entries: Vec::new() }
    }

    /// Keeps totals under a name.
    pub fn insert(&mut self, name: String, totals: Totals)
        ensures
            final(self)@ == old(self)@.insert(name@, totals),
    {
        self.entries.push((name, totals));
        proof {
            lemma_entered_prefix(
                old(self).entries@,
                self.entries@,
                old(self).entries@.len() as int,
            );
        }
    }

    /// What is kept under a name.
    pub fn get(&self, name: &str) -> (r: Option<Totals>)
        ensures
            r == (if self@.dom().contains(name@) {
                Some(self@[name@])
            } else {
                None
            }),
    {
        let mut i: usize = self.entries.len();
        while i > 0
            invariant
                i <= self.entries@.len(),
                self@.dom().contains(name@) <==> entered(
                    self.entries@,
                    i as int,
                ).dom().contains(name@),
                self@.dom().contains(name@) ==> self@[name@] == entered(
                    self.entries@,
                    i as int,
                )[name@],
            decreases i,
        {
            i = i - 1;
            if same(self.entries[i].0.as_str(), name) {
                return Some(self.entries[i].1);
            }
        }
        None
    }
}

/// The first `n` elements' first account of ticks, with whose they are.
pub open spec fn ticking(reads: Seq<Read>, n: int) -> Option<(Option<u64>, TickStats)>
    decreases n,
{
    if n <= 0 {
        None
    } else {
        match ticking(reads, n - 1) {
            Some(found) => Some(found),
            None => match reads[n - 1].element.ticks {
                Some(ticks) => Some((reads[n - 1].element.id, ticks)),
                None => None,
            },
        }
    }
}

/// A time divided by a count, to the nearest nanosecond; half way goes up.
pub open spec fn per_frame(work: int, made: int) -> int {
    (work + made / 2) / made
}

/// How the compositor is keeping its rate, against what it said before. One
/// that was built again is not measured against the last one's totals.
pub open spec fn rendered_since(
    now: (Option<u64>, TickStats),
    before: Option<(Option<u64>, TickStats)>,
) -> Rendering {
    let (run, ticks) = now;
    Rendering {
        run,
        made: ticks.made,
        missed: ticks.missed,
        frame_time: match before {
            Some((was, earlier)) if was == run && grown(ticks.made, earlier.made) > 0 => Some(
                per_frame(
                    grown(ticks.work, earlier.work) as int,
                    grown(ticks.made, earlier.made) as int,
                ) as u64,
            ),
            _ => None,
        },
    }
}

/// Whether an element is the head of an output that is running: its video
/// queue, still in the graph.
pub open spec fn is_head(element: Element, kind: OutputKind) -> bool {
    element.attached && element.name@ == kind.called() + "-queue"@ && element.queue is Some
}

/// Whether an element is one of an output's encoders, still in the graph.
pub open spec fn is_encoder(element: Element, kind: OutputKind) -> bool {
    element.attached && (element.name@ == kind.called() + "-encode"@ || element.name@
        == kind.called() + "-audio-encode"@)
}

/// The head of an output among the first `n` elements.
pub open spec fn head_of(reads: Seq<Read>, kind: OutputKind, n: int) -> Option<Element>
    decreases n,
{
    if n <= 0 {
        None
    } else {
        match head_of(reads, kind, n - 1) {
            Some(head) => Some(head),
            None => if is_head(reads[n - 1].element, kind) {
                Some(reads[n - 1].element)
            } else {
                None
            },
        }
    }
}

/// What an output's encoders among the first `n` elements have written.
pub open spec fn bytes_of(reads: Seq<Read>, kind: OutputKind, n: int) -> int
    decreases n,
{
    if n <= 0 {
        0
    } else {
        bytes_of(reads, kind, n - 1) + (if is_encoder(reads[n - 1].element, kind) {
            reads[n - 1].element.bytes as int
        } else {
            0
        })
    }
}

/// Which run of an output last wrote how much.
pub type Written = Option<(Option<u64>, u64)>;

/// What an output has been handed, lost and written, or nothing where it is
/// not running. A rate needs an earlier reading of the same run.
pub open spec fn output_since(
    reads: Seq<Read>,
    kind: OutputKind,
    interval: u64,
    before: Written,
) -> Option<OutputStats> {
    let n = reads.len() as int;
    match head_of(reads, kind, n) {
        None => None,
        Some(head) => Some(
            OutputStats {
                run: head.id,
                frames: head.taken,
                lost: (head.queue->0.dropped + head.errors) as u64,
                bytes: bytes_of(reads, kind, n) as u64,
                bitrate: match before {
                    Some((was, earlier)) if was == head.id && interval > 0 => Some(
                        BitRate {
                            bits: (grown(bytes_of(reads, kind, n) as u64, earlier) * 8) as u128,
                            nanos: interval,
                        },
                    ),
                    _ => None,
                },
            },
        ),
    }
}

/// What is remembered of an output for the next reading.
pub open spec fn written_after(reads: Seq<Read>, kind: OutputKind) -> Written {
    match head_of(reads, kind, reads.len() as int) {
        None => None,
        Some(head) => Some((head.id, bytes_of(reads, kind, reads.len() as int) as u64)),
    }
}

/// Whether an output's totals can be written down.
pub open spec fn output_fits(reads: Seq<Read>, kind: OutputKind) -> bool {
    &&& bytes_of(reads, kind, reads.len() as int) <= u64::MAX
    &&& head_of(reads, kind, reads.len() as int) matches Some(head) ==> head.queue->0.dropped
        + head.errors <= u64::MAX
}

proof fn lemma_bytes_grow(reads: Seq<Read>, kind: OutputKind, i: int, n: int)
    requires
        0 <= i <= n <= reads.len(),
    ensures
        0 <= bytes_of(reads, kind, i) <= bytes_of(reads, kind, n),
    decreases n,
{
    if i < n {
        lemma_bytes_grow(reads, kind, i, n - 1);
    } else if i > 0 {
        lemma_bytes_grow(reads, kind, i - 1, i - 1);
    }
}

proof fn lemma_errors_grow(reads: Seq<Read>, i: int, n: int)
    requires
        0 <= i <= n <= reads.len(),
    ensures
        0 <= total_errors(reads, i) <= total_errors(reads, n),
    decreases n,
{
    if i < n {
        lemma_errors_grow(reads, i, n - 1);
    } else if i > 0 {
        lemma_errors_grow(reads, i - 1, i - 1);
    }
}

proof fn lemma_row_errors(
    reads: Seq<Read>,
    subject: SubjectView,
    previous: Map<Seq<char>, Totals>,
    interval: u64,
    n: int,
)
    requires
        0 <= n <= reads.len(),
    ensures
        row_after(reads, subject, previous, interval, n) matches Some(row) ==> 0 <= row.errors
            <= total_errors(reads, n),
    decreases n,
{
    if n > 0 {
        lemma_row_errors(reads, subject, previous, interval, n - 1);
        lemma_errors_grow(reads, n - 1, n);
    }
}

/// Whether rows are in their order, none twice.
pub open spec fn in_order(rows: Seq<StatsRow>) -> bool {
    forall|a: int, b: int|
        0 <= a < b < rows.len() ==> shown_before(
            (#[trigger] rows[a]).subject@,
            (#[trigger] rows[b]).subject@,
        )
}

/// Whether rows are what the first `n` elements come to: in order, each the
/// row of its subject, and none missing.
pub open spec fn folded(
    rows: Seq<StatsRow>,
    reads: Seq<Read>,
    previous: Map<Seq<char>, Totals>,
    interval: u64,
    n: int,
) -> bool {
    &&& in_order(rows)
    &&& forall|a: int|
        0 <= a < rows.len() ==> row_after(
            reads,
            (#[trigger] rows[a]).subject@,
            previous,
            interval,
            n,
        ) == Some(rows[a]@)
    &&& forall|subject: SubjectView|
        (#[trigger] row_after(reads, subject, previous, interval, n)) is Some ==> exists|a: int|
            0 <= a < rows.len() && (#[trigger] rows[a]).subject@ == subject
}

impl StatsRow {
    fn empty(subject: Subject) -> (r: Self)
        ensures
            r.subject == subject,
            r@ == empty_row(subject@),
    {
        StatsRow { subject, buffers: None, busy: None, queue: None, idle_for: None, errors: 0 }
    }

    fn merge_share(held: Option<Share>, share: Share) -> (r: Option<Share>)
        ensures
            r == larger_share(held, share),
    {
        match held {
            Some(held) => Some(held.max(share)),
            None => Some(share),
        }
    }

    /// Adds one element to a row, against the totals it had before.
    fn with(
        self,
        read: &Read,
        role: Role,
        previous: &NamedTotals,
        key: &str,
        interval: u64,
    ) -> (r: Self)
        requires
            key@ == key_of(*read),
            self.errors + read.element.errors <= u64::MAX,
        ensures
            r.subject == self.subject,
            r@ == with_element(self@, *read, role, previous@, interval),
    {
        let element = &read.element;
        let totals: Totals = totals(element);
        let over: Totals = match previous.get(key) {
            Some(over) => over,
            None => totals,
        };
        let handled: u64 = totals.buffers.saturating_sub(over.buffers);
        let spent: u64 = totals.busy.saturating_sub(over.busy);
        let buffers: Option<u64> = match role {
            Role::Throughput => match self.buffers {
                Some(most) => if most >= handled { Some(most) } else { Some(handled) },
                None => Some(handled),
            },
            Role::Cost => self.buffers,
        };
        let busy: Option<Share> = match role {
            Role::Throughput => self.busy,
            Role::Cost => Self::merge_share(self.busy, share(spent, interval)),
        };
        let queue: Option<Share> = match role {
            Role::Throughput => self.queue,
            Role::Cost => match element.queue {
                Some(queue) => Self::merge_share(self.queue, fullness(queue)),
                None => self.queue,
            },
        };
        let idle_for: Option<u64> = match (self.idle_for, element.idle_for) {
            (Some(theirs), Some(mine)) => if theirs <= mine { Some(theirs) } else { Some(mine) },
            (Some(theirs), None) => Some(theirs),
            (None, mine) => mine,
        };
        StatsRow {
            subject: self.subject,
            buffers,
            busy,
            queue,
            idle_for,
            errors: self.errors + element.errors,
        }
    }
}

/// What share of an interval was spent busy.
pub fn share(busy: u64, interval: u64) -> (r: Share)
    ensures
        r == (Share { part: busy, whole: interval }),
{
    Share::new(busy, interval)
}

fn totals(element: &Element) -> (r: Totals)
    ensures
        r == totals_of(*element),
{
    let pushed: u64 = match element.pushed {
        Some(pushed) => pushed,
        None => 0,
    };
    Totals {
        buffers: if element.taken >= pushed { element.taken } else { pushed },
        busy: element.busy,
    }
}

fn key(read: &Read) -> (r: String)
    ensures
        r@ == key_of(*read),
{
    let mut r: String = read.pipeline.clone();
    r.append("/");
    r.append(read.element.name.as_str());
    r
}

/// Where a subject's row is, or where it would go.
fn row_position(rows: &Vec<StatsRow>, subject: &Subject) -> (r: (usize, bool))
    requires
        in_order(rows@),
    ensures
        r.0 <= rows@.len(),
        r.1 ==> r.0 < rows@.len() && rows@[r.0 as int].subject@ == subject@,
        !r.1 ==> forall|a: int| 0 <= a < rows@.len() ==> (#[trigger] rows@[a]).subject@ != subject@,
        forall|a: int|
            0 <= a < r.0 ==> shown_before((#[trigger] rows@[a]).subject@, subject@),
        !r.1 ==> forall|a: int|
            r.0 <= a < rows@.len() ==> shown_before(subject@, (#[trigger] rows@[a]).subject@),
{
    let mut i: usize = 0;
    while i < rows.len() && rows[i].subject.order(subject)
        invariant
            i <= rows@.len(),
            forall|a: int| 0 <= a < i ==> shown_before((#[trigger] rows@[a]).subject@, subject@),
        decreases rows@.len() - i,
    {
        i = i + 1;
    }
    let found: bool = i < rows.len() && rows[i].subject.is(subject);
    proof {
        assert forall|a: int| 0 <= a < i implies (#[trigger] rows@[a]).subject@ != subject@ by {
            law_rows_have_one_order(subject@, subject@, subject@);
        }
        if !found && i < rows@.len() {
            law_rows_have_one_order(rows@[i as int].subject@, subject@, subject@);
            assert(shown_before(subject@, rows@[i as int].subject@));
            assert forall|a: int| i <= a < rows@.len() implies shown_before(
                subject@,
                (#[trigger] rows@[a]).subject@,
            ) by {
                if a > i {
                    law_rows_have_one_order(
                        subject@,
                        rows@[i as int].subject@,
                        rows@[a].subject@,
                    );
                }
            }
            assert forall|a: int| i <= a < rows@.len() implies (#[trigger] rows@[a]).subject@
                != subject@ by {
                law_rows_have_one_order(subject@, subject@, subject@);
            }
        }
    }
    (i, found)
}

/// What the next reading is measured against.
pub struct Reading {
    previous: NamedTotals,
    rendered: Option<(Option<u64>, TickStats)>,
    recorded: Written,
    broadcast: Written,
    taken_at: u64,
}

impl Reading {
    /// The totals as they last stood.
    pub closed spec fn previous(&self) -> Map<Seq<char>, Totals> {
        self.previous@
    }

    /// The compositor's ticks as they last stood, and whose they were.
    pub closed spec fn rendered(&self) -> Option<(Option<u64>, TickStats)> {
        self.rendered
    }

    /// What an output last wrote, and which run of it.
    pub closed spec fn written(&self, kind: OutputKind) -> Written {
        match kind {
            OutputKind::Recording => self.recorded,
            OutputKind::Broadcast => self.broadcast,
        }
    }

    /// When the last reading was taken.
    pub closed spec fn taken_at(&self) -> u64 {
        self.taken_at
    }

    /// Nothing read yet.
    pub fn new(now: u64) -> (r: Self)
        ensures
            r.previous() == Map::<Seq<char>, Totals>::empty(),
            r.rendered() is None,
            r.written(OutputKind::Recording) is None,
            r.written(OutputKind::Broadcast) is None,
            r.taken_at() == now,
    {
        Reading {
            previous: NamedTotals::new(),
            rendered: None,
            recorded: None,
            broadcast: None,
            taken_at: now,
        }
    }

    fn fold(&self, reads: &Vec<Read>, interval: u64) -> (r: (Vec<StatsRow>, NamedTotals))
        requires
            total_errors(reads@, reads@.len() as int) <= u64::MAX,
        ensures
            folded(r.0@, reads@, self.previous@, interval, reads@.len() as int),
            r.1@ == totals_after(reads@, reads@.len() as int),
    {
        let mut rows: Vec<StatsRow> = Vec::new();
        let mut current = NamedTotals::new();
        let ghost previous = self.previous@;
        let mut i: usize = 0;
        while i < reads.len()
            invariant
                i <= reads@.len(),
                total_errors(reads@, reads@.len() as int) <= u64::MAX,
                previous == self.previous@,
                folded(rows@, reads@, previous, interval, i as int),
                current@ == totals_after(reads@, i as int),
            decreases reads@.len() - i,
        {
            let read = &reads[i];
            match &read.named {
                None => {
                    proof {
                        assert forall|subject: SubjectView| #[trigger]
                            row_after(reads@, subject, previous, interval, i + 1) == row_after(
                                reads@,
                                subject,
                                previous,
                                interval,
                                i as int,
                            ) by {}
                    }
                },
                Some(naming) => {
                    let ghost before = rows@;
                    let (at, found) = row_position(&rows, &naming.subject);
                    let row = if found {
                        rows.remove(at)
                    } else {
                        StatsRow::empty(naming.subject.copied())
                    };
                    let key = key(read);
                    proof {
                        lemma_row_errors(
                            reads@,
                            naming.subject@,
                            previous,
                            interval,
                            i as int,
                        );
                        lemma_errors_grow(reads@, i + 1, reads@.len() as int);
                        lemma_errors_grow(reads@, i as int, reads@.len() as int);
                        if found {
                            assert(row_after(
                                reads@,
                                before[at as int].subject@,
                                previous,
                                interval,
                                i as int,
                            ) == Some(before[at as int]@));
                        }
                    }
                    let row = row.with(read, naming.role, &self.previous, key.as_str(), interval);
                    rows.insert(at, row);
                    current.insert(key, totals(&read.element));
                    proof {
                        if found {
                            assert(rows@ =~= before.update(at as int, row));
                        }
                        lemma_fold_step(
                            before,
                            rows@,
                            reads@,
                            previous,
                            interval,
                            i as int,
                            at as int,
                            found,
                            row,
                        );
                    }
                },
            }
            i = i + 1;
        }
        (rows, current)
    }
}

proof fn lemma_fold_step(
    before: Seq<StatsRow>,
    after: Seq<StatsRow>,
    reads: Seq<Read>,
    previous: Map<Seq<char>, Totals>,
    interval: u64,
    i: int,
    at: int,
    found: bool,
    row: StatsRow,
)
    requires
        0 <= i < reads.len(),
        reads[i].named is Some,
        folded(before, reads, previous, interval, i),
        0 <= at <= before.len(),
        found ==> at < before.len() && before[at].subject@ == reads[i].named->0.subject@,
        !found ==> forall|a: int|
            0 <= a < before.len() ==> (#[trigger] before[a]).subject@
                != reads[i].named->0.subject@,
        !found ==> forall|a: int|
            0 <= a < at ==> shown_before(
                (#[trigger] before[a]).subject@,
                reads[i].named->0.subject@,
            ),
        !found ==> forall|a: int|
            at <= a < before.len() ==> shown_before(
                reads[i].named->0.subject@,
                (#[trigger] before[a]).subject@,
            ),
        row.subject@ == reads[i].named->0.subject@,
        row@ == with_element(
            if found {
                before[at]@
            } else {
                empty_row(reads[i].named->0.subject@)
            },
            reads[i],
            reads[i].named->0.role,
            previous,
            interval,
        ),
        after == (if found {
            before.update(at, row)
        } else {
            before.insert(at, row)
        }),
    ensures
        folded(after, reads, previous, interval, i + 1),
{
    let subject = reads[i].named->0.subject@;
    assert forall|other: SubjectView| other != subject implies #[trigger] row_after(
        reads,
        other,
        previous,
        interval,
        i + 1,
    ) == row_after(reads, other, previous, interval, i) by {}
    if !found {
        assert(row_after(reads, subject, previous, interval, i) is None) by {
            if row_after(reads, subject, previous, interval, i) is Some {
                let a = choose|a: int|
                    0 <= a < before.len() && (#[trigger] before[a]).subject@ == subject;
                assert(before[a].subject@ != subject);
            }
        }
    } else {
        assert(row_after(reads, before[at].subject@, previous, interval, i) == Some(
            before[at]@,
        ));
    }
    assert(row_after(reads, subject, previous, interval, i + 1) == Some(row@));
    let old_index = |a: int|
        if found || a < at {
            a
        } else {
            a - 1
        };
    assert forall|a: int| 0 <= a < after.len() && a != at implies #[trigger] after[a]
        == before[old_index(a)] && 0 <= old_index(a) < before.len() by {}
    assert(after[at] == row);
    assert(in_order(after)) by {
        assert forall|a: int, b: int| 0 <= a < b < after.len() implies shown_before(
            (#[trigger] after[a]).subject@,
            (#[trigger] after[b]).subject@,
        ) by {
            if a != at && b != at {
                assert(shown_before(
                    before[old_index(a)].subject@,
                    before[old_index(b)].subject@,
                ));
            } else if found {
                assert(shown_before(before[a].subject@, before[b].subject@));
            }
        }
    }
    assert forall|a: int| 0 <= a < after.len() implies row_after(
        reads,
        (#[trigger] after[a]).subject@,
        previous,
        interval,
        i + 1,
    ) == Some(after[a]@) by {
        if a != at {
            let b = old_index(a);
            assert(row_after(reads, before[b].subject@, previous, interval, i) == Some(
                before[b]@,
            ));
            if found {
                if a < at {
                    assert(shown_before(before[a].subject@, before[at].subject@));
                } else {
                    assert(shown_before(before[at].subject@, before[a].subject@));
                }
                law_rows_have_one_order(subject, subject, subject);
            }
            assert(before[b].subject@ != subject);
        }
    }
    assert forall|other: SubjectView|
        (#[trigger] row_after(reads, other, previous, interval, i + 1)) is Some implies exists|
        a: int,
    |
        0 <= a < after.len() && (#[trigger] after[a]).subject@ == other by {
        if other == subject {
            assert(after[at].subject@ == other);
        } else {
            assert(row_after(reads, other, previous, interval, i) is Some);
            let b = choose|b: int|
                0 <= b < before.len() && (#[trigger] before[b]).subject@ == other;
            let a = if found || b < at {
                b
            } else {
                b + 1
            };
            assert(after[a] == before[b]);
            assert(after[a].subject@ == other);
        }
    }
}

fn joins(prefix: &str, rest: &str, name: &str) -> (r: bool)
    ensures
        r == (name@ == prefix@ + rest@),
{
    let mut whole: String = prefix.to_owned();
    whole.append(rest);
    same(name, whole.as_str())
}

impl Reading {
    /// How the compositor is keeping its rate: found by its ticks, which
    /// nothing else reports.
    fn rendering(&mut self, reads: &Vec<Read>) -> (r: Option<Rendering>)
        ensures
            final(self).previous == old(self).previous,
            final(self).recorded == old(self).recorded,
            final(self).broadcast == old(self).broadcast,
            final(self).taken_at == old(self).taken_at,
            match ticking(reads@, reads@.len() as int) {
                Some(now) => r == Some(rendered_since(now, old(self).rendered))
                    && final(self).rendered == Some(now),
                None => r is None && final(self).rendered == old(self).rendered,
            },
    {
        let mut now: Option<(Option<u64>, TickStats)> = None;
        let mut i: usize = 0;
        while i < reads.len()
            invariant
                i <= reads@.len(),
                now == ticking(reads@, i as int),
            decreases reads@.len() - i,
        {
            if now.is_none() {
                match reads[i].element.ticks {
                    Some(ticks) => {
                        now = Some((reads[i].element.id, ticks));
                    },
                    None => {},
                }
            }
            i = i + 1;
        }
        let (run, ticks): (Option<u64>, TickStats) = match now {
            Some(now) => now,
            None => {
                return None;
            },
        };
        let before = self.rendered;
        self.rendered = Some((run, ticks));
        let frame_time: Option<u64> = match before {
            Some((was, earlier)) => {
                let made: u64 = ticks.made.saturating_sub(earlier.made);
                let work: u64 = ticks.work.saturating_sub(earlier.work);
                if was == run && made > 0 {
                    let sum: u128 = work as u128 + (made / 2) as u128;
                    let each: u128 = sum / made as u128;
                    proof {
                        assert(each <= u64::MAX) by (nonlinear_arith)
                            requires
                                each == sum / made as u128,
                                sum == work + made / 2,
                                made > 0,
                                work <= u64::MAX,
                        ;
                    }
                    Some(each as u64)
                } else {
                    None
                }
            },
            None => None,
        };
        Some(Rendering { run, made: ticks.made, missed: ticks.missed, frame_time })
    }

    fn head(reads: &Vec<Read>, kind: OutputKind) -> (r: Option<usize>)
        ensures
            match r {
                Some(i) => i < reads@.len() && is_head(reads@[i as int].element, kind) && head_of(
                    reads@,
                    kind,
                    reads@.len() as int,
                ) == Some(reads@[i as int].element),
                None => head_of(reads@, kind, reads@.len() as int) is None,
            },
    {
        let mut found: Option<usize> = None;
        let mut i: usize = 0;
        while i < reads.len()
            invariant
                i <= reads@.len(),
                match found {
                    Some(at) => at < reads@.len() && is_head(reads@[at as int].element, kind)
                        && head_of(reads@, kind, i as int) == Some(reads@[at as int].element),
                    None => head_of(reads@, kind, i as int) is None,
                },
            decreases reads@.len() - i,
        {
            let element = &reads[i].element;
            if found.is_none() && element.attached && element.queue.is_some() && joins(
                kind.prefix(),
                "-queue",
                element.name.as_str(),
            ) {
                found = Some(i);
            }
            i = i + 1;
        }
        found
    }

    fn bytes(reads: &Vec<Read>, kind: OutputKind) -> (r: u64)
        requires
            bytes_of(reads@, kind, reads@.len() as int) <= u64::MAX,
        ensures
            r == bytes_of(reads@, kind, reads@.len() as int),
    {
        let mut total: u64 = 0;
        let mut i: usize = 0;
        while i < reads.len()
            invariant
                i <= reads@.len(),
                bytes_of(reads@, kind, reads@.len() as int) <= u64::MAX,
                total == bytes_of(reads@, kind, i as int),
            decreases reads@.len() - i,
        {
            let element = &reads[i].element;
            proof {
                lemma_bytes_grow(reads@, kind, i + 1, reads@.len() as int);
            }
            if element.attached && (joins(kind.prefix(), "-encode", element.name.as_str())
                || joins(kind.prefix(), "-audio-encode", element.name.as_str())) {
                total = total + element.bytes;
            }
            i = i + 1;
        }
        total
    }

    /// What one output has been handed, lost and written, and what is
    /// remembered of it.
    fn output(reads: &Vec<Read>, kind: OutputKind, interval: u64, before: Written) -> (r: (
        Option<OutputStats>,
        Written,
    ))
        requires
            output_fits(reads@, kind),
        ensures
            r.0 == output_since(reads@, kind, interval, before),
            r.1 == written_after(reads@, kind),
    {
        let at: usize = match Self::head(reads, kind) {
            Some(at) => at,
            None => {
                return (None, None);
            },
        };
        let head = &reads[at].element;
        let bytes: u64 = Self::bytes(reads, kind);
        let bitrate: Option<BitRate> = match before {
            Some((was, earlier)) => {
                if was == head.id && interval > 0 {
                    let written: u64 = bytes.saturating_sub(earlier);
                    Some(BitRate { bits: written as u128 * 8, nanos: interval })
                } else {
                    None
                }
            },
            None => None,
        };
        let dropped: u64 = match head.queue {
            Some(queue) => queue.dropped,
            None => 0,
        };
        let stats = OutputStats {
            run: head.id,
            frames: head.taken,
            lost: dropped + head.errors,
            bytes,
            bitrate,
        };
        (Some(stats), Some((head.id, bytes)))
    }

    /// Turns what the graphs say now into what is shown, against what they
    /// said last time.
    ///
    /// Everything named alike is folded into one row, taking from each element
    /// only what it is asked for; what nobody named is left out.
    pub fn take(&mut self, reads: &Vec<Read>, now: u64) -> (r: StatsSnapshot)
        requires
            total_errors(reads@, reads@.len() as int) <= u64::MAX,
            output_fits(reads@, OutputKind::Recording),
            output_fits(reads@, OutputKind::Broadcast),
        ensures
            r.interval == grown(now, old(self).taken_at()),
            folded(r.rows@, reads@, old(self).previous(), r.interval, reads@.len() as int),
            r.rendering == (match ticking(reads@, reads@.len() as int) {
                Some(ticks) => Some(rendered_since(ticks, old(self).rendered())),
                None => None,
            }),
            r.recording == output_since(
                reads@,
                OutputKind::Recording,
                r.interval,
                old(self).written(OutputKind::Recording),
            ),
            r.broadcast == output_since(
                reads@,
                OutputKind::Broadcast,
                r.interval,
                old(self).written(OutputKind::Broadcast),
            ),
            final(self).taken_at() == now,
            final(self).previous() == totals_after(reads@, reads@.len() as int),
            final(self).rendered() == (match ticking(reads@, reads@.len() as int) {
                Some(ticks) => Some(ticks),
                None => old(self).rendered(),
            }),
            final(self).written(OutputKind::Recording) == written_after(
                reads@,
                OutputKind::Recording,
            ),
            final(self).written(OutputKind::Broadcast) == written_after(
                reads@,
                OutputKind::Broadcast,
            ),
    {
        let interval: u64 = now.saturating_sub(self.taken_at);
        let (rows, current) = self.fold(reads, interval);
        self.previous = current;
        self.taken_at = now;
        let rendering = self.rendering(reads);
        let (recording, recorded) = Self::output(
            reads,
            OutputKind::Recording,
            interval,
            self.recorded,
        );
        self.recorded = recorded;
        let (broadcast, published) = Self::output(
            reads,
            OutputKind::Broadcast,
            interval,
            self.broadcast,
        );
        self.broadcast = published;
        StatsSnapshot { rows, interval, rendering, recording, broadcast }
    }
}

/// A source of the scene, by the name its elements go by and the name its item
/// has.
pub struct SourceName {
    pub element: String,
    pub name: String,
}

/// The name of the source whose elements go by this name, the last of them
/// where there is more than one.
pub open spec fn source_named(sources: Seq<SourceName>, element: Seq<char>, n: int) -> Option<
    Seq<char>,
>
    decreases n,
{
    if n <= 0 {
        None
    } else if sources[n - 1].element@ == element {
        Some(sources[n - 1].name@)
    } else {
        source_named(sources, element, n - 1)
    }
}

/// What part of an output's row one of its elements supplies: its cost where
/// it is a queue, and what passed it otherwise.
pub open spec fn role_of(element: Element) -> Role {
    if element.queue is Some {
        Role::Cost
    } else {
        Role::Throughput
    }
}

/// Which row an element is part of: the compositor's, an output's, or that of
/// the source whose frames it hands to the canvas, which is the element with
/// nothing behind it.
pub open spec fn naming_of(element: Element, sources: Seq<SourceName>) -> Option<(
    SubjectView,
    Role,
)> {
    if element.name@ == "preview-compositor"@ {
        Some((SubjectView::Compositor, Role::Throughput))
    } else if load::outputs_own(element.name@) {
        Some(
            (
                if text::begins(element.name@, OutputKind::Recording.called()) {
                    SubjectView::Recording
                } else {
                    SubjectView::Broadcast
                },
                role_of(element),
            ),
        )
    } else if element.pushed is None {
        match source_named(sources, element.name@, sources.len() as int) {
            Some(name) => Some((SubjectView::Source(name), Role::Throughput)),
            None => None,
        }
    } else {
        None
    }
}

/// Whether an element belongs to one of the outputs.
pub fn is_an_output(name: &str) -> (r: bool)
    ensures
        r == load::outputs_own(name@),
{
    is_an_outputs(name)
}

/// What part of an output's row one of its elements supplies.
pub fn output_role(element: &Element) -> (r: Role)
    ensures
        r == role_of(*element),
{
    if element.queue.is_some() {
        Role::Cost
    } else {
        Role::Throughput
    }
}

/// Which row an element is part of, and what it is asked for.
pub fn name_element(element: &Element, sources: &Vec<SourceName>) -> (r: Option<Naming>)
    ensures
        match r {
            Some(naming) => naming_of(*element, sources@) == Some((naming.subject@, naming.role)),
            None => naming_of(*element, sources@) is None,
        },
{
    let name: &str = element.name.as_str();
    if same(name, "preview-compositor") {
        return Some(Naming { subject: Subject::Compositor, role: Role::Throughput });
    }
    if is_an_output(name) {
        let subject = if starts_with(name, OutputKind::Recording.prefix()) {
            Subject::Recording
        } else {
            Subject::Broadcast
        };
        return Some(Naming { subject, role: output_role(element) });
    }
    if element.pushed.is_some() {
        return None;
    }
    let mut i: usize = sources.len();
    while i > 0
        invariant
            i <= sources@.len(),
            name@ == element.name@,
            source_named(sources@, name@, sources@.len() as int) == source_named(
                sources@,
                name@,
                i as int,
            ),
            element.name@ != "preview-compositor"@,
            !load::outputs_own(element.name@),
            element.pushed is None,
        decreases i,
    {
        i = i - 1;
        if same(sources[i].element.as_str(), name) {
            return Some(
                Naming {
                    subject: Subject::Source(sources[i].name.clone()),
                    role: Role::Throughput,
                },
            );
        }
    }
    None
}

/// Without an earlier reading there is no rate: what was not read before shows
/// as having handled nothing and cost nothing, whatever it has done so far.
pub proof fn law_the_first_reading_shows_nothing(
    reads: Seq<Read>,
    subject: SubjectView,
    previous: Map<Seq<char>, Totals>,
    interval: u64,
    n: int,
)
    requires
        0 <= n <= reads.len(),
        forall|i: int| 0 <= i < n ==> !previous.dom().contains(key_of(#[trigger] reads[i])),
    ensures
        row_after(reads, subject, previous, interval, n) matches Some(row) ==> {
            &&& row.buffers matches Some(buffers) ==> buffers == 0
            &&& row.busy matches Some(busy) ==> busy == (Share { part: 0, whole: interval })
        },
{
    law_a_row_is_what_its_elements_come_to(reads, subject, previous, interval, n);
}

/// Whether an element is part of a subject's row.
pub open spec fn belongs(read: Read, subject: SubjectView) -> bool {
    read.named matches Some(naming) && naming.subject@ == subject
}

/// Whether an element is part of a subject's row and asked for this.
pub open spec fn asked_for(read: Read, subject: SubjectView, role: Role) -> bool {
    belongs(read, subject) && read.named->0.role == role
}

/// Whether this is the most that any of the first `n` elements asked for its
/// throughput has handled; nothing where none is.
pub open spec fn most_handled(
    most: Option<u64>,
    reads: Seq<Read>,
    subject: SubjectView,
    previous: Map<Seq<char>, Totals>,
    n: int,
) -> bool {
    match most {
        None => forall|i: int|
            0 <= i < n ==> !asked_for(#[trigger] reads[i], subject, Role::Throughput),
        Some(most) => {
            &&& exists|i: int|
                0 <= i < n && asked_for(#[trigger] reads[i], subject, Role::Throughput) && handled(
                    reads[i],
                    previous,
                ) == most
            &&& forall|i: int|
                0 <= i < n && asked_for(#[trigger] reads[i], subject, Role::Throughput)
                    ==> handled(reads[i], previous) <= most
        },
    }
}

/// Whether this is the largest share of the time that any of the first `n`
/// elements asked for its cost was busy; nothing where none is.
pub open spec fn most_spent(
    most: Option<Share>,
    reads: Seq<Read>,
    subject: SubjectView,
    previous: Map<Seq<char>, Totals>,
    interval: u64,
    n: int,
) -> bool {
    match most {
        None => forall|i: int| 0 <= i < n ==> !asked_for(#[trigger] reads[i], subject, Role::Cost),
        Some(most) => {
            &&& exists|i: int|
                0 <= i < n && asked_for(#[trigger] reads[i], subject, Role::Cost) && spent(
                    reads[i],
                    previous,
                    interval,
                ) == most
            &&& forall|i: int|
                0 <= i < n && asked_for(#[trigger] reads[i], subject, Role::Cost) ==> spent(
                    reads[i],
                    previous,
                    interval,
                ).at_most(&most)
        },
    }
}

/// Whether an element is asked for its cost, and has a queue to be full.
pub open spec fn queues(read: Read, subject: SubjectView) -> bool {
    asked_for(read, subject, Role::Cost) && read.element.queue is Some
}

/// Whether this is how full the fullest queue is among the first `n` elements
/// asked for their cost; nothing where none has one.
pub open spec fn fullest(
    most: Option<Share>,
    reads: Seq<Read>,
    subject: SubjectView,
    n: int,
) -> bool {
    match most {
        None => forall|i: int| 0 <= i < n ==> !queues(#[trigger] reads[i], subject),
        Some(most) => {
            &&& exists|i: int|
                0 <= i < n && queues(#[trigger] reads[i], subject) && full(
                    reads[i].element.queue->0,
                ) == most
            &&& forall|i: int|
                0 <= i < n && queues(#[trigger] reads[i], subject) ==> full(
                    reads[i].element.queue->0,
                ).at_most(&most)
        },
    }
}

/// Whether an element is part of a row, and says how long it has been idle.
pub open spec fn idles(read: Read, subject: SubjectView) -> bool {
    belongs(read, subject) && read.element.idle_for is Some
}

/// Whether this is the least that any of the first `n` elements says it has
/// been idle; nothing where none says.
pub open spec fn least_idle(
    least: Option<u64>,
    reads: Seq<Read>,
    subject: SubjectView,
    n: int,
) -> bool {
    match least {
        None => forall|i: int| 0 <= i < n ==> !idles(#[trigger] reads[i], subject),
        Some(least) => {
            &&& exists|i: int|
                0 <= i < n && idles(#[trigger] reads[i], subject)
                    && reads[i].element.idle_for->0 == least
            &&& forall|i: int|
                0 <= i < n && idles(#[trigger] reads[i], subject) ==> least
                    <= reads[i].element.idle_for->0
        },
    }
}

/// How many calls the first `n` elements of a subject's row have failed.
pub open spec fn failed_calls(reads: Seq<Read>, subject: SubjectView, n: int) -> int
    decreases n,
{
    if n <= 0 {
        0
    } else {
        failed_calls(reads, subject, n - 1) + (if belongs(reads[n - 1], subject) {
            reads[n - 1].element.errors as int
        } else {
            0
        })
    }
}

/// A row is what its elements come to: there is one where any element is part
/// of it, what it handled, what it cost and how full it is are the largest of
/// those that give them, it is idle as long as the least idle of them, and its
/// errors are the sum of theirs.
pub proof fn law_a_row_is_what_its_elements_come_to(
    reads: Seq<Read>,
    subject: SubjectView,
    previous: Map<Seq<char>, Totals>,
    interval: u64,
    n: int,
)
    requires
        0 <= n <= reads.len(),
    ensures
        row_after(reads, subject, previous, interval, n) is Some <==> exists|i: int|
            0 <= i < n && belongs(#[trigger] reads[i], subject),
        row_after(reads, subject, previous, interval, n) matches Some(row) ==> {
            &&& row.subject == subject
            &&& most_handled(row.buffers, reads, subject, previous, n)
            &&& most_spent(row.busy, reads, subject, previous, interval, n)
            &&& fullest(row.queue, reads, subject, n)
            &&& least_idle(row.idle_for, reads, subject, n)
            &&& row.errors == failed_calls(reads, subject, n)
        },
{
    lemma_row_so_far(reads, subject, previous, interval, n);
}

/// Every row of a reading is what its elements come to, measured against the
/// reading before, and every element that is part of a row has one.
pub proof fn law_every_row_is_what_its_elements_come_to(
    first: Seq<Read>,
    second: Seq<Read>,
    interval: u64,
    rows: Seq<StatsRow>,
    a: int,
    i: int,
)
    requires
        folded(
            rows,
            second,
            totals_after(first, first.len() as int),
            interval,
            second.len() as int,
        ),
        0 <= a < rows.len(),
        0 <= i < second.len(),
    ensures
        ({
            let n = second.len() as int;
            let previous = totals_after(first, first.len() as int);
            let subject = rows[a].subject@;
            &&& exists|j: int| 0 <= j < n && belongs(#[trigger] second[j], subject)
            &&& most_handled(rows[a].buffers, second, subject, previous, n)
            &&& most_spent(rows[a].busy, second, subject, previous, interval, n)
            &&& fullest(rows[a].queue, second, subject, n)
            &&& least_idle(rows[a].idle_for, second, subject, n)
            &&& rows[a].errors == failed_calls(second, subject, n)
        }),
        second[i].named matches Some(naming) ==> exists|b: int|
            0 <= b < rows.len() && (#[trigger] rows[b]).subject@ == naming.subject@,
{
    let n = second.len() as int;
    let previous = totals_after(first, first.len() as int);
    assert(row_after(second, rows[a].subject@, previous, interval, n) == Some(rows[a]@));
    law_a_row_is_what_its_elements_come_to(second, rows[a].subject@, previous, interval, n);
    if let Some(naming) = second[i].named {
        law_a_row_is_what_its_elements_come_to(second, naming.subject@, previous, interval, n);
        assert(belongs(second[i], naming.subject@));
    }
}

/// Whether no two elements have one name in one graph, and no graph a name
/// that could run into an element's.
pub open spec fn told_apart(reads: Seq<Read>) -> bool {
    &&& forall|i: int| 0 <= i < reads.len() ==> !(#[trigger] reads[i]).pipeline@.contains('/')
    &&& forall|i: int, j: int|
        0 <= i < j < reads.len() ==> (#[trigger] reads[i]).pipeline@ != (
        #[trigger] reads[j]).pipeline@ || reads[i].element.name@ != reads[j].element.name@
}

/// Whether two readings are of one element.
pub open spec fn same_element(a: Read, b: Read) -> bool {
    a.pipeline@ == b.pipeline@ && a.element.name@ == b.element.name@
}

/// An element is measured against itself as the reading before saw it, and
/// against no other that shares its name: what it handled and what it cost is
/// what its totals have grown by, and nothing where the reading before did not
/// have it.
pub proof fn law_an_element_is_measured_against_itself(
    first: Seq<Read>,
    read: Read,
    interval: u64,
)
    requires
        told_apart(first),
        !read.pipeline@.contains('/'),
    ensures
        ({
            let previous = totals_after(first, first.len() as int);
            let totals = totals_of(read.element);
            &&& forall|j: int|
                0 <= j < first.len() && same_element(#[trigger] first[j], read)
                    && first[j].named is Some ==> {
                    let earlier = totals_of(first[j].element);
                    &&& handled(read, previous) == grown(totals.buffers, earlier.buffers)
                    &&& spent(read, previous, interval) == (Share {
                        part: grown(totals.busy, earlier.busy),
                        whole: interval,
                    })
                }
            &&& (forall|j: int|
                0 <= j < first.len() ==> !(same_element(#[trigger] first[j], read)
                    && first[j].named is Some)) ==> {
                &&& handled(read, previous) == 0
                &&& spent(read, previous, interval) == (Share { part: 0, whole: interval })
            }
        }),
{
    lemma_totals(first, read, first.len() as int);
}

proof fn lemma_totals(first: Seq<Read>, read: Read, n: int)
    requires
        told_apart(first),
        !read.pipeline@.contains('/'),
        0 <= n <= first.len(),
    ensures
        forall|j: int|
            0 <= j < n && same_element(#[trigger] first[j], read) && first[j].named is Some ==> {
                &&& totals_after(first, n).dom().contains(key_of(read))
                &&& totals_after(first, n)[key_of(read)] == totals_of(first[j].element)
            },
        (forall|j: int|
            0 <= j < n ==> !(same_element(#[trigger] first[j], read) && first[j].named is Some))
            ==> !totals_after(first, n).dom().contains(key_of(read)),
    decreases n,
{
    if n > 0 {
        lemma_totals(first, read, n - 1);
        lemma_keys(first[n - 1], read);
        assert forall|j: int|
            0 <= j < n && same_element(#[trigger] first[j], read)
                && first[j].named is Some implies {
            &&& totals_after(first, n).dom().contains(key_of(read))
            &&& totals_after(first, n)[key_of(read)] == totals_of(first[j].element)
        } by {
            if j < n - 1 {
                assert(!same_element(first[n - 1], read));
            }
        }
    }
}

proof fn lemma_keys(a: Read, b: Read)
    requires
        !a.pipeline@.contains('/'),
        !b.pipeline@.contains('/'),
    ensures
        key_of(a) == key_of(b) <==> same_element(a, b),
{
    reveal_strlit("/");
    let (p, q) = (a.pipeline@, b.pipeline@);
    let (s, t) = (key_of(a), key_of(b));
    if s == t {
        assert(s[p.len() as int] == '/');
        assert(t[q.len() as int] == '/');
        if p.len() < q.len() {
            assert(q[p.len() as int] == '/');
        } else if q.len() < p.len() {
            assert(p[q.len() as int] == '/');
        }
        assert(p =~= s.take(p.len() as int));
        assert(q =~= t.take(q.len() as int));
        assert(a.element.name@ =~= s.skip(p.len() as int + 1));
        assert(b.element.name@ =~= t.skip(q.len() as int + 1));
    }
}

/// What a row holds so far, whether or not there is one yet.
spec fn so_far(
    reads: Seq<Read>,
    subject: SubjectView,
    previous: Map<Seq<char>, Totals>,
    interval: u64,
    n: int,
) -> RowView {
    match row_after(reads, subject, previous, interval, n) {
        Some(row) => row,
        None => empty_row(subject),
    }
}

proof fn lemma_row_so_far(
    reads: Seq<Read>,
    subject: SubjectView,
    previous: Map<Seq<char>, Totals>,
    interval: u64,
    n: int,
)
    requires
        0 <= n <= reads.len(),
    ensures
        row_after(reads, subject, previous, interval, n) is Some <==> exists|i: int|
            0 <= i < n && belongs(#[trigger] reads[i], subject),
        ({
            let row = so_far(reads, subject, previous, interval, n);
            &&& row.subject == subject
            &&& most_handled(row.buffers, reads, subject, previous, n)
            &&& most_spent(row.busy, reads, subject, previous, interval, n)
            &&& fullest(row.queue, reads, subject, n)
            &&& least_idle(row.idle_for, reads, subject, n)
            &&& row.errors == failed_calls(reads, subject, n)
        }),
    decreases n,
{
    if n > 0 {
        lemma_row_so_far(reads, subject, previous, interval, n - 1);
        let read = reads[n - 1];
        let before = so_far(reads, subject, previous, interval, n - 1);
        let row = so_far(reads, subject, previous, interval, n);
        if belongs(read, subject) {
            let role = read.named->0.role;
            assert(row == with_element(before, read, role, previous, interval));
            lemma_most_handled(before.buffers, row.buffers, reads, subject, previous, n);
            lemma_most_spent(before.busy, row.busy, reads, subject, previous, interval, n);
            lemma_fullest(before.queue, row.queue, reads, subject, n);
            lemma_least_idle(before.idle_for, row.idle_for, reads, subject, n);
        } else {
            assert(row == before);
            lemma_most_handled(before.buffers, row.buffers, reads, subject, previous, n);
            lemma_most_spent(before.busy, row.busy, reads, subject, previous, interval, n);
            lemma_fullest(before.queue, row.queue, reads, subject, n);
            lemma_least_idle(before.idle_for, row.idle_for, reads, subject, n);
        }
        if row_after(reads, subject, previous, interval, n) is Some {
            if belongs(read, subject) {
                assert(belongs(reads[n - 1], subject));
            } else {
                let i = choose|i: int| 0 <= i < n - 1 && belongs(#[trigger] reads[i], subject);
                assert(belongs(reads[i], subject));
            }
        }
        if exists|i: int| 0 <= i < n && belongs(#[trigger] reads[i], subject) {
            let i = choose|i: int| 0 <= i < n && belongs(#[trigger] reads[i], subject);
            if i < n - 1 {
                assert(belongs(reads[i], subject));
            }
        }
    }
}

proof fn lemma_most_handled(
    before: Option<u64>,
    after: Option<u64>,
    reads: Seq<Read>,
    subject: SubjectView,
    previous: Map<Seq<char>, Totals>,
    n: int,
)
    requires
        0 < n <= reads.len(),
        most_handled(before, reads, subject, previous, n - 1),
        after == (if asked_for(reads[n - 1], subject, Role::Throughput) {
            match before {
                Some(most) if most >= handled(reads[n - 1], previous) => Some(most),
                _ => Some(handled(reads[n - 1], previous)),
            }
        } else {
            before
        }),
    ensures
        most_handled(after, reads, subject, previous, n),
{
    if asked_for(reads[n - 1], subject, Role::Throughput) {
        if after != before || before is None {
            assert(handled(reads[n - 1], previous) == after->0);
        }
    }
}

proof fn lemma_most_spent(
    before: Option<Share>,
    after: Option<Share>,
    reads: Seq<Read>,
    subject: SubjectView,
    previous: Map<Seq<char>, Totals>,
    interval: u64,
    n: int,
)
    requires
        0 < n <= reads.len(),
        most_spent(before, reads, subject, previous, interval, n - 1),
        after == (if asked_for(reads[n - 1], subject, Role::Cost) {
            larger_share(before, spent(reads[n - 1], previous, interval))
        } else {
            before
        }),
    ensures
        most_spent(after, reads, subject, previous, interval, n),
{
    let last = spent(reads[n - 1], previous, interval);
    if asked_for(reads[n - 1], subject, Role::Cost) {
        let most = after->0;
        share::law_shares_are_ordered(last, last, last);
        if before is Some {
            share::law_the_larger_is_at_least_both(before->0, last);
            assert forall|i: int|
                0 <= i < n && asked_for(#[trigger] reads[i], subject, Role::Cost) implies spent(
                reads[i],
                previous,
                interval,
            ).at_most(&most) by {
                if i < n - 1 {
                    let here = spent(reads[i], previous, interval);
                    share::law_shares_are_ordered(here, before->0, most);
                }
            }
        }
        if most == last {
            assert(asked_for(reads[n - 1], subject, Role::Cost));
        }
    }
}

proof fn lemma_fullest(
    before: Option<Share>,
    after: Option<Share>,
    reads: Seq<Read>,
    subject: SubjectView,
    n: int,
)
    requires
        0 < n <= reads.len(),
        fullest(before, reads, subject, n - 1),
        after == (if queues(reads[n - 1], subject) {
            larger_share(before, full(reads[n - 1].element.queue->0))
        } else {
            before
        }),
    ensures
        fullest(after, reads, subject, n),
{
    let last = full(reads[n - 1].element.queue->0);
    if queues(reads[n - 1], subject) {
        let most = after->0;
        share::law_shares_are_ordered(last, last, last);
        if before is Some {
            share::law_the_larger_is_at_least_both(before->0, last);
            assert forall|i: int| 0 <= i < n && queues(#[trigger] reads[i], subject) implies full(
                reads[i].element.queue->0,
            ).at_most(&most) by {
                if i < n - 1 {
                    share::law_shares_are_ordered(full(reads[i].element.queue->0), before->0, most);
                }
            }
        }
        if most == last {
            assert(queues(reads[n - 1], subject));
        }
    }
}

proof fn lemma_least_idle(
    before: Option<u64>,
    after: Option<u64>,
    reads: Seq<Read>,
    subject: SubjectView,
    n: int,
)
    requires
        0 < n <= reads.len(),
        least_idle(before, reads, subject, n - 1),
        after == (if idles(reads[n - 1], subject) {
            match before {
                Some(least) if least <= reads[n - 1].element.idle_for->0 => Some(least),
                _ => reads[n - 1].element.idle_for,
            }
        } else {
            before
        }),
    ensures
        least_idle(after, reads, subject, n),
{
    if idles(reads[n - 1], subject) {
        if after != before || before is None {
            assert(reads[n - 1].element.idle_for->0 == after->0);
        }
    }
}

/// An output is shown exactly while its head is in the graph, and a rate needs
/// two readings of one run: the first reading of an output, the first after it
/// was built again and the first after it was gone have none, and otherwise it
/// is what was written in between.
pub proof fn law_a_rate_needs_two_readings_of_one_run(
    first: Seq<Read>,
    second: Seq<Read>,
    kind: OutputKind,
    before: Written,
    since: u64,
    interval: u64,
)
    ensures
        ({
            let was = output_since(first, kind, since, before);
            let now = output_since(second, kind, interval, written_after(first, kind));
            &&& now is None <==> forall|i: int|
                0 <= i < second.len() ==> !is_head((#[trigger] second[i]).element, kind)
            &&& now matches Some(now) ==> {
                &&& now.bitrate is Some <==> interval > 0 && was is Some && was->0.run == now.run
                &&& now.bitrate matches Some(rate) ==> rate.bits == grown(now.bytes, was->0.bytes)
                    * 8 && rate.nanos == interval
            }
        }),
        output_since(second, kind, interval, None) matches Some(now) ==> now.bitrate is None,
{
    lemma_head(second, kind, second.len() as int);
}

proof fn lemma_head(reads: Seq<Read>, kind: OutputKind, n: int)
    requires
        0 <= n <= reads.len(),
    ensures
        head_of(reads, kind, n) is None <==> forall|i: int|
            0 <= i < n ==> !is_head((#[trigger] reads[i]).element, kind),
    decreases n,
{
    if n > 0 {
        lemma_head(reads, kind, n - 1);
        if head_of(reads, kind, n) is Some {
            if head_of(reads, kind, n - 1) is Some {
                let i = choose|i: int|
                    0 <= i < n - 1 && is_head((#[trigger] reads[i]).element, kind);
                assert(is_head(reads[i].element, kind));
            } else {
                assert(is_head(reads[n - 1].element, kind));
            }
        }
    }
}

/// An element that is asked only for what passed it adds no cost to its row.
pub proof fn law_throughput_adds_no_cost(
    row: RowView,
    read: Read,
    previous: Map<Seq<char>, Totals>,
    interval: u64,
)
    ensures
        with_element(row, read, Role::Throughput, previous, interval).busy == row.busy,
        with_element(row, read, Role::Throughput, previous, interval).queue == row.queue,
{
}

/// What a counter shows is what it grew by, and nothing where it started again;
/// an element handled as much as it took or handed on, whichever is more.
pub proof fn law_counters_show_what_they_grew_by(now: u64, before: u64, element: Element)
    ensures
        now >= before ==> grown(now, before) == now - before,
        now < before ==> grown(now, before) == 0,
        totals_of(element).busy == element.busy,
        totals_of(element).buffers >= element.taken,
        element.pushed matches Some(pushed) ==> totals_of(element).buffers >= pushed && (
        totals_of(element).buffers == element.taken || totals_of(element).buffers == pushed),
        element.pushed is None ==> totals_of(element).buffers == element.taken,
{
}

/// Elements are told apart by their graph and their name.
pub proof fn law_elements_are_told_apart_by_graph_and_name(read: Read, queue: QueueStats)
    ensures
        key_of(read) == read.pipeline@ + "/"@ + read.element.name@,
        full(queue).part == queue.len && full(queue).whole == queue.capacity,
{
}

/// What drawing a frame took is the time spent over the frames made, to the
/// nearest: never half a nanosecond off a frame.
pub proof fn law_a_frame_takes_the_average(work: int, made: int)
    requires
        work >= 0,
        made > 0,
    ensures
        2 * (made * per_frame(work, made)) <= 2 * work + made,
        2 * (made * per_frame(work, made)) > 2 * work - made,
{
    let sum = work + made / 2;
    let each = per_frame(work, made);
    assert(made * each <= sum && sum < made * each + made) by (nonlinear_arith)
        requires
            each == sum / made,
            made > 0,
    ;
}

/// A frame's time is known where one run was read twice and drew in between,
/// and nowhere else; what was made and missed is what the clock says.
pub proof fn law_a_frames_time_needs_two_readings(
    run: Option<u64>,
    ticks: TickStats,
    was: Option<u64>,
    earlier: TickStats,
)
    ensures
        ({
            let first = rendered_since((run, ticks), None);
            let later = rendered_since((run, ticks), Some((was, earlier)));
            &&& first.frame_time is None
            &&& first.run == run && later.run == run
            &&& first.made == ticks.made && later.made == ticks.made
            &&& first.missed == ticks.missed && later.missed == ticks.missed
            &&& later.frame_time is Some <==> was == run && ticks.made > earlier.made
            &&& later.frame_time matches Some(time) ==> (ticks.work >= earlier.work ==> time
                == per_frame(ticks.work - earlier.work, ticks.made - earlier.made))
        }),
{
    if ticks.made > earlier.made && ticks.work >= earlier.work {
        let work = ticks.work - earlier.work;
        let made = ticks.made - earlier.made;
        law_a_frame_takes_the_average(work, made);
        let each = per_frame(work, made);
        assert(0 <= each <= work) by (nonlinear_arith)
            requires
                each == (work + made / 2) / made,
                work >= 0,
                made > 0,
        ;
    }
}

/// The clock that is read is the first there is.
pub proof fn law_the_first_clock_is_read(reads: Seq<Read>, i: int, n: int)
    requires
        0 <= i < n <= reads.len(),
        reads[i].element.ticks is Some,
        forall|j: int| 0 <= j < i ==> (#[trigger] reads[j]).element.ticks is None,
    ensures
        ticking(reads, i) is None,
        ticking(reads, n) == Some((reads[i].element.id, reads[i].element.ticks->0)),
    decreases n,
{
    lemma_no_clock(reads, i);
    if n - 1 > i {
        law_the_first_clock_is_read(reads, i, n - 1);
    }
}

proof fn lemma_no_clock(reads: Seq<Read>, n: int)
    requires
        0 <= n <= reads.len(),
        forall|j: int| 0 <= j < n ==> (#[trigger] reads[j]).element.ticks is None,
    ensures
        ticking(reads, n) is None,
    decreases n,
{
    if n > 0 {
        lemma_no_clock(reads, n - 1);
    }
}

/// An output is read off its own queue and its own encoders, while they are in
/// the graph.
pub proof fn law_an_output_is_read_off_its_own_elements(element: Element)
    ensures
        is_head(element, OutputKind::Recording) <==> element.attached && element.queue is Some
            && element.name@ == "record"@ + "-queue"@,
        is_head(element, OutputKind::Broadcast) <==> element.attached && element.queue is Some
            && element.name@ == "stream"@ + "-queue"@,
        is_encoder(element, OutputKind::Recording) <==> element.attached && (element.name@
            == "record"@ + "-encode"@ || element.name@ == "record"@ + "-audio-encode"@),
        is_encoder(element, OutputKind::Broadcast) <==> element.attached && (element.name@
            == "stream"@ + "-encode"@ || element.name@ == "stream"@ + "-audio-encode"@),
{
}

/// What an output has written is what its encoders have, each counted once.
pub proof fn law_an_output_wrote_what_its_encoders_did(
    reads: Seq<Read>,
    read: Read,
    kind: OutputKind,
)
    ensures
        bytes_of(reads, kind, 0) == 0,
        ({
            let n = reads.len() as int;
            let after = bytes_of(reads.push(read), kind, n + 1);
            &&& is_encoder(read.element, kind) ==> after == bytes_of(reads, kind, n)
                + read.element.bytes
            &&& !is_encoder(read.element, kind) ==> after == bytes_of(reads, kind, n)
        }),
{
    lemma_bytes_on(reads, read, kind, reads.len() as int);
}

proof fn lemma_bytes_on(reads: Seq<Read>, read: Read, kind: OutputKind, n: int)
    requires
        0 <= n <= reads.len(),
    ensures
        bytes_of(reads.push(read), kind, n) == bytes_of(reads, kind, n),
    decreases n,
{
    if n > 0 {
        lemma_bytes_on(reads, read, kind, n - 1);
        assert(reads.push(read)[n - 1] == reads[n - 1]);
    }
}

/// An output's frames are those its first queue took, and those it lost are
/// those the queue threw away and those that failed in it.
pub proof fn law_an_outputs_frames_are_its_queues(
    reads: Seq<Read>,
    kind: OutputKind,
    interval: u64,
    before: Written,
    i: int,
)
    requires
        0 <= i < reads.len(),
        output_fits(reads, kind),
        is_head(reads[i].element, kind),
        forall|j: int| 0 <= j < i ==> !is_head((#[trigger] reads[j]).element, kind),
    ensures
        ({
            let head = reads[i].element;
            output_since(reads, kind, interval, before) matches Some(now) && {
                &&& now.run == head.id
                &&& now.frames == head.taken
                &&& now.lost == head.queue->0.dropped + head.errors
                &&& now.bytes == bytes_of(reads, kind, reads.len() as int)
                &&& written_after(reads, kind) == Some((head.id, now.bytes))
            }
        }),
{
    lemma_first_head(reads, kind, i, reads.len() as int);
    lemma_bytes_count(reads, kind, reads.len() as int);
}

proof fn lemma_bytes_count(reads: Seq<Read>, kind: OutputKind, n: int)
    requires
        0 <= n <= reads.len(),
    ensures
        bytes_of(reads, kind, n) >= 0,
    decreases n,
{
    if n > 0 {
        lemma_bytes_count(reads, kind, n - 1);
    }
}

proof fn lemma_first_head(reads: Seq<Read>, kind: OutputKind, i: int, n: int)
    requires
        0 <= i < reads.len(),
        0 <= n <= reads.len(),
        is_head(reads[i].element, kind),
        forall|j: int| 0 <= j < i ==> !is_head((#[trigger] reads[j]).element, kind),
    ensures
        n <= i ==> head_of(reads, kind, n) is None,
        n > i ==> head_of(reads, kind, n) == Some(reads[i].element),
    decreases n,
{
    if n > 0 {
        lemma_first_head(reads, kind, i, n - 1);
    }
}

/// The compositor is shown first, what is recorded next, what is broadcast
/// after that, and the sources last.
pub proof fn law_outputs_are_shown_before_sources(name: Seq<char>)
    ensures
        shown_before(SubjectView::Compositor, SubjectView::Recording),
        shown_before(SubjectView::Recording, SubjectView::Broadcast),
        shown_before(SubjectView::Compositor, SubjectView::Broadcast),
        shown_before(SubjectView::Compositor, SubjectView::Source(name)),
        shown_before(SubjectView::Recording, SubjectView::Source(name)),
        shown_before(SubjectView::Broadcast, SubjectView::Source(name)),
{
}

/// Sources are shown by name, character by character: by the first in which
/// they differ, and the shorter first where one begins the other.
pub proof fn law_sources_are_shown_by_name(
    start: Seq<char>,
    a: char,
    rest_a: Seq<char>,
    b: char,
    rest_b: Seq<char>,
)
    ensures
        a != b ==> (shown_before(
            SubjectView::Source(start + seq![a] + rest_a),
            SubjectView::Source(start + seq![b] + rest_b),
        ) <==> a < b),
        shown_before(
            SubjectView::Source(start),
            SubjectView::Source(start + seq![b] + rest_b),
        ),
    decreases start.len(),
{
    let one = start + seq![a] + rest_a;
    let other = start + seq![b] + rest_b;
    if start.len() > 0 {
        let left = start.skip(1);
        law_sources_are_shown_by_name(left, a, rest_a, b, rest_b);
        assert(one.skip(1) =~= left + seq![a] + rest_a);
        assert(other.skip(1) =~= left + seq![b] + rest_b);
        assert(one[0] == start[0] && other[0] == start[0]);
    } else {
        assert(one[0] == a && other[0] == b);
    }
}

/// What an element is shown under: the compositor under itself, an output's
/// under the output, by cost where it queues and by throughput where not, the
/// end of a source's graph under the source, and nothing else at all.
pub proof fn law_elements_are_shown_under_what_they_serve(
    element: Element,
    sources: Seq<SourceName>,
    i: int,
)
    requires
        0 <= i < sources.len(),
        forall|j: int|
            0 <= j < sources.len() && j != i ==> (#[trigger] sources[j]).element@
                != sources[i].element@,
    ensures
        ({
            let name = element.name@;
            let compositor = name == "preview-compositor"@;
            let recording = text::begins(name, "record"@);
            let broadcast = text::begins(name, "stream"@);
            let role = if element.queue is Some {
                Role::Cost
            } else {
                Role::Throughput
            };
            let named = naming_of(element, sources);
            &&& compositor ==> named == Some((SubjectView::Compositor, Role::Throughput))
            &&& !compositor && recording ==> named == Some((SubjectView::Recording, role))
            &&& !compositor && !recording && broadcast ==> named == Some(
                (SubjectView::Broadcast, role),
            )
            &&& !compositor && !recording && !broadcast && element.pushed is Some ==> named is None
            &&& !compositor && !recording && !broadcast && element.pushed is None && name
                == sources[i].element@ ==> named == Some(
                (SubjectView::Source(sources[i].name@), Role::Throughput),
            )
            &&& !compositor && !recording && !broadcast && (forall|j: int|
                0 <= j < sources.len() ==> (#[trigger] sources[j]).element@ != name) ==> named
                is None
        }),
{
    let n = sources.len() as int;
    lemma_source_named(sources, i, n);
    if forall|j: int| 0 <= j < sources.len() ==> (#[trigger] sources[j]).element@
        != element.name@ {
        lemma_source_unnamed(sources, element.name@, n);
    }
}

proof fn lemma_source_named(sources: Seq<SourceName>, i: int, n: int)
    requires
        0 <= i < sources.len(),
        0 <= n <= sources.len(),
        forall|j: int|
            0 <= j < sources.len() && j != i ==> (#[trigger] sources[j]).element@
                != sources[i].element@,
    ensures
        n > i ==> source_named(sources, sources[i].element@, n) == Some(sources[i].name@),
    decreases n,
{
    if n > 0 {
        lemma_source_named(sources, i, n - 1);
        if n - 1 != i {
            assert(sources[n - 1].element@ != sources[i].element@);
        }
    }
}

proof fn lemma_source_unnamed(sources: Seq<SourceName>, element: Seq<char>, n: int)
    requires
        0 <= n <= sources.len(),
        forall|j: int| 0 <= j < sources.len() ==> (#[trigger] sources[j]).element@ != element,
    ensures
        source_named(sources, element, n) is None,
    decreases n,
{
    if n > 0 {
        lemma_source_unnamed(sources, element, n - 1);
        assert(sources[n - 1].element@ != element);
    }
}

/// An element adds to its row only what its role says: its throughput where it
/// shows that, the most of any; its cost and how full it is where it shows
/// those, the most of any; and its failures and its idle time either way.
pub proof fn law_an_element_adds_what_its_role_says(
    row: RowView,
    read: Read,
    role: Role,
    previous: Map<Seq<char>, Totals>,
    interval: u64,
)
    ensures
        ({
            let after = with_element(row, read, role, previous, interval);
            let passed = handled(read, previous);
            let cost = spent(read, previous, interval);
            &&& after.subject == row.subject
            &&& after.errors == row.errors + read.element.errors
            &&& role is Cost ==> after.buffers == row.buffers
            &&& role is Throughput ==> after.busy == row.busy && after.queue == row.queue
            &&& role is Throughput ==> (after.buffers matches Some(most) && most >= passed && (most
                == passed || row.buffers == Some(most)))
            &&& role is Throughput ==> (row.buffers matches Some(held) ==> after.buffers->0
                >= held)
            &&& role is Cost ==> (after.busy matches Some(most) && cost.at_most(&most) && (most
                == cost || row.busy == Some(most)))
            &&& role is Cost && read.element.queue is None ==> after.queue == row.queue
            &&& role is Cost && row.queue is None ==> (read.element.queue matches Some(queue)
                ==> (after.queue matches Some(share) && share.part == queue.len && share.whole
                == queue.capacity))
            &&& read.element.idle_for is None ==> after.idle_for == row.idle_for
            &&& read.element.idle_for matches Some(mine) ==> (after.idle_for matches Some(least)
                && least <= mine && (least == mine || row.idle_for == Some(least)))
        }),
{
    let cost = spent(read, previous, interval);
    share::law_shares_are_ordered(cost, cost, cost);
    if let Some(held) = row.busy {
        share::law_the_larger_is_at_least_both(held, cost);
    }
}

} // verus!
