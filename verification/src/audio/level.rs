//! What the mixer's meters read, and what makes anyone look at them.
//!
//! Levels are counted in millionths of a decibel, with full scale at zero.
use vstd::prelude::*;

use crate::table::Table;

verus! {

/// Names one audio source.
#[derive(Clone, Copy, Debug, PartialEq, Eq, Hash, Structural)]
pub struct AudioSourceId(pub i64);

/// The quietest a meter shows: sixty decibels below full scale.
pub const METER_FLOOR: i64 = -60_000_000;

/// How far a meter falls in a second once what it measured has passed: twenty
/// decibels.
pub const DECAY_PER_SECOND: u64 = 20_000_000;

/// The most often a meter asks to be drawn, in nanoseconds.
pub const METER_INTERVAL: u64 = 50_000_000;

/// The bits of negative zero.
pub const NEGATIVE_ZERO_BITS: u32 = 0x8000_0000;

/// What a level is stored as, given its bits: zero bits are kept for a meter
/// that has never measured, so full scale is stored as negative zero, which is
/// the same level to every comparison.
pub open spec fn stored(bits: u32) -> u32 {
    if bits == 0 {
        NEGATIVE_ZERO_BITS
    } else {
        bits
    }
}

/// What stored bits read as: nothing until something was measured.
pub open spec fn read_back(bits: u32) -> Option<u32> {
    if bits == 0 {
        None
    } else {
        Some(bits)
    }
}

/// What a level is stored as, given its bits.
pub fn level_bits(bits: u32) -> (r: u32)
    ensures
        r == stored(bits),
{
    if bits == 0 {
        NEGATIVE_ZERO_BITS
    } else {
        bits
    }
}

/// What stored bits read as.
pub fn reading(bits: u32) -> (r: Option<u32>)
    ensures
        r == read_back(bits),
{
    if bits == 0 {
        None
    } else {
        Some(bits)
    }
}

/// Every level that is stored reads back as a measurement, and as itself but
/// for the sign of a zero.
pub proof fn law_a_stored_level_is_a_measurement(bits: u32)
    ensures
        read_back(stored(bits)) == Some(stored(bits)),
        bits != 0 ==> stored(bits) == bits,
{
}

/// The size of a sample, whatever its sign.
pub open spec fn size_of_sample(sample: i16) -> int {
    if sample < 0 {
        -(sample as int)
    } else {
        sample as int
    }
}

/// The size of the loudest 16-bit sample of a buffer, and zero for an empty
/// one.
pub fn loudest(samples: &Vec<i16>) -> (r: u32)
    ensures
        forall|i: int| 0 <= i < samples@.len() ==> size_of_sample(#[trigger] samples@[i]) <= r,
        samples@.len() == 0 ==> r == 0,
        samples@.len() > 0 ==> exists|i: int|
            0 <= i < samples@.len() && size_of_sample(#[trigger] samples@[i]) == r,
        forall|i: int| 0 <= i < samples@.len() ==> -r <= #[trigger] samples@[i] <= r,
        samples@.len() > 0 ==> exists|i: int|
            0 <= i < samples@.len() && (#[trigger] samples@[i] == r || samples@[i] == -r),
{
    let mut r: u32 = 0;
    let mut i: usize = 0;
    while i < samples.len()
        invariant
            i <= samples@.len(),
            forall|j: int| 0 <= j < i ==> size_of_sample(#[trigger] samples@[j]) <= r,
            i == 0 ==> r == 0,
            i > 0 ==> exists|j: int| 0 <= j < i && size_of_sample(#[trigger] samples@[j]) == r,
        decreases samples@.len() - i,
    {
        let sample: i16 = samples[i];
        let size: u32 = if sample < 0 {
            (-(sample as i32)) as u32
        } else {
            sample as u32
        };
        proof {
            assert(size_of_sample(samples@[i as int]) == size);
        }
        if size > r || i == 0 {
            r = size;
        }
        i = i + 1;
    }
    r
}

/// Whether a wake is let through, where the last was at this moment, or there
/// was none and it is zero.
pub open spec fn let_through(last: u64, now: u64) -> bool {
    last == 0 || now - last >= METER_INTERVAL
}

/// Asks for the meters to be drawn no more often than [`METER_INTERVAL`].
///
/// One for the whole application, so the limit is on the window rather than on
/// each meter.
pub struct MeterWake {
    /// When it last woke anyone, with zero for never.
    last: u64,
}

impl MeterWake {
    /// The moment it last woke anyone, and zero where it never has.
    pub closed spec fn last(&self) -> u64 {
        self.last
    }

    /// Whether a wake at this moment is let through.
    pub open spec fn lets_through(&self, now: u64) -> bool {
        let_through(self.last(), now)
    }

    /// A limit that has let nothing through yet.
    pub fn new() -> (r: Self)
        ensures
            r.last() == 0,
    {
        MeterWake { last: 0 }
    }

    /// A moment, from how long ago the limit was made: one more than the
    /// nanoseconds, so that none is zero.
    pub fn now(elapsed_nanos: u128) -> (r: u64)
        ensures
            r == (if elapsed_nanos + 1 > u64::MAX {
                u64::MAX as int
            } else {
                elapsed_nanos + 1
            }),
            r > 0,
    {
        if elapsed_nanos >= u64::MAX as u128 {
            u64::MAX
        } else {
            elapsed_nanos as u64 + 1
        }
    }

    /// Wakes unless someone was woken less than an interval ago. Answers
    /// whether it did.
    pub fn wake(&mut self, now: u64) -> (r: bool)
        ensures
            r == old(self).lets_through(now),
            r == (old(self).last() == 0 || now - old(self).last() >= 50_000_000),
            final(self).last() == (if r {
                now
            } else {
                old(self).last()
            }),
    {
        if self.last != 0 && now.saturating_sub(self.last) < METER_INTERVAL {
            return false;
        }
        self.last = now;
        true
    }

    /// Wakes whatever the interval says, for the wake that must not be
    /// dropped.
    pub fn wake_regardless(&mut self, now: u64)
        ensures
            final(self).last() == now,
    {
        self.last = now;
    }
}

/// A wake that is asked for: when, and whether it must not be dropped.
pub struct Ask {
    pub now: u64,
    pub regardless: bool,
}

/// The moment of the last wake after the first `n` of `asks`, put to a limit
/// that has let nothing through yet; zero for none.
pub open spec fn last_wake(asks: Seq<Ask>, n: int) -> u64
    decreases n,
{
    if n <= 0 {
        0
    } else {
        let ask = asks[n - 1];
        let before = last_wake(asks, n - 1);
        if ask.regardless || let_through(before, ask.now) {
            ask.now
        } else {
            before
        }
    }
}

/// Whether one of them wakes anyone.
pub open spec fn wakes_at(asks: Seq<Ask>, i: int) -> bool {
    asks[i].regardless || let_through(last_wake(asks, i), asks[i].now)
}

/// How many of the first `n` of `asks` wake someone without having to.
pub open spec fn wakes(asks: Seq<Ask>, n: int) -> nat
    decreases n,
{
    if n <= 0 {
        0
    } else if wakes_at(asks, n - 1) && !asks[n - 1].regardless {
        wakes(asks, n - 1) + 1
    } else {
        wakes(asks, n - 1)
    }
}

/// Whether wakes are asked for one after another, on a clock that never goes
/// back.
pub open spec fn in_turn(asks: Seq<Ask>) -> bool {
    &&& forall|i: int| 0 <= i < asks.len() ==> (#[trigger] asks[i]).now > 0
    &&& forall|i: int, j: int|
        0 <= i <= j < asks.len() ==> (#[trigger] asks[i]).now <= (#[trigger] asks[j]).now
}

/// A wake is let through exactly where every wake before it, whichever way it
/// came, is at least an interval ago, so the first always is; and one that
/// must not be dropped never is.
pub proof fn law_a_wake_waits_for_the_interval(asks: Seq<Ask>, i: int)
    requires
        in_turn(asks),
        0 <= i < asks.len(),
    ensures
        asks[i].regardless ==> wakes_at(asks, i),
        !asks[i].regardless ==> (wakes_at(asks, i) <==> forall|j: int|
            0 <= j < i && #[trigger] wakes_at(asks, j) ==> asks[i].now - asks[j].now
                >= METER_INTERVAL),
        wakes_at(asks, 0),
{
    lemma_last_wake(asks, i);
    if i > 0 {
        lemma_first_wakes(asks, i);
        let k = choose|k: int|
            0 <= k < i && #[trigger] wakes_at(asks, k) && last_wake(asks, i) == asks[k].now;
        assert(wakes_at(asks, k));
    }
}

/// The last wake is that of one that woke someone, and none that did is later.
proof fn lemma_last_wake(asks: Seq<Ask>, n: int)
    requires
        in_turn(asks),
        0 <= n <= asks.len(),
    ensures
        forall|j: int|
            0 <= j < n && #[trigger] wakes_at(asks, j) ==> asks[j].now <= last_wake(asks, n),
        last_wake(asks, n) == 0 || exists|k: int|
            0 <= k < n && #[trigger] wakes_at(asks, k) && last_wake(asks, n) == asks[k].now,
    decreases n,
{
    if n > 0 {
        lemma_last_wake(asks, n - 1);
        if wakes_at(asks, n - 1) {
            assert forall|j: int| 0 <= j < n && #[trigger] wakes_at(asks, j) implies asks[j].now
                <= last_wake(asks, n) by {
                assert(asks[j].now <= asks[n - 1].now);
            }
        } else if last_wake(asks, n - 1) != 0 {
            let k = choose|k: int|
                0 <= k < n - 1 && #[trigger] wakes_at(asks, k) && last_wake(asks, n - 1)
                    == asks[k].now;
            assert(wakes_at(asks, k));
        }
    }
}

/// Someone is woken at once, and stays woken.
proof fn lemma_first_wakes(asks: Seq<Ask>, n: int)
    requires
        in_turn(asks),
        0 < n <= asks.len(),
    ensures
        last_wake(asks, n) >= asks[0].now,
        last_wake(asks, n) <= asks[n - 1].now,
    decreases n,
{
    assert(asks[0].now <= asks[n - 1].now);
    if n > 1 {
        lemma_first_wakes(asks, n - 1);
        assert(asks[n - 2].now <= asks[n - 1].now);
    } else {
        assert(last_wake(asks, 0) == 0);
    }
}

/// However many meters move, and however often, no more wakes are let through
/// than the time they span has intervals, and one; and a meter that moved at
/// all is drawn.
pub proof fn law_wakes_keep_their_distance(asks: Seq<Ask>, n: int)
    requires
        in_turn(asks),
        0 < n <= asks.len(),
    ensures
        wakes_at(asks, 0),
        wakes(asks, n) > 0 ==> (wakes(asks, n) - 1) * METER_INTERVAL <= asks[n - 1].now
            - asks[0].now,
        (forall|i: int| 0 <= i < n ==> !(#[trigger] asks[i]).regardless) ==> wakes(asks, n) >= 1,
{
    lemma_wakes_so_far(asks, n);
}

proof fn lemma_wakes_so_far(asks: Seq<Ask>, n: int)
    requires
        in_turn(asks),
        0 < n <= asks.len(),
    ensures
        wakes(asks, n) > 0 ==> last_wake(asks, n) >= asks[0].now + (wakes(asks, n) - 1)
            * METER_INTERVAL,
        last_wake(asks, n) <= asks[n - 1].now,
        !asks[0].regardless ==> wakes(asks, n) >= 1,
    decreases n,
{
    lemma_first_wakes(asks, n);
    if n > 1 {
        lemma_wakes_so_far(asks, n - 1);
        lemma_first_wakes(asks, n - 1);
        assert(asks[n - 2].now <= asks[n - 1].now);
        assert(asks[0].now > 0);
    } else {
        assert(wakes(asks, 0) == 0);
        assert(last_wake(asks, 0) == 0);
    }
}

/// How far a meter falls over a buffer: by how long the buffer lasts.
pub open spec fn fall(samples: u64, rate: u32) -> int {
    DECAY_PER_SECOND * samples / (if rate == 0 {
        1
    } else {
        rate as int
    })
}

/// The larger of two levels.
pub open spec fn louder(a: int, b: int) -> int {
    if a >= b {
        a
    } else {
        b
    }
}

/// What a meter shows after a buffer: its peak at once, or what is left of
/// what it showed before, and never less than the floor.
pub open spec fn shown_after(before: int, peak: int, samples: u64, rate: u32) -> int {
    louder(louder(peak, before - fall(samples, rate)), METER_FLOOR as int)
}

/// Whether a meter that goes from one level to another asks to be drawn: while
/// it shows anything, where the limit lets it through, and once more whatever
/// the limit says when it comes to rest.
pub open spec fn draws(before: int, after: int, last: u64, now: u64) -> bool {
    if after > METER_FLOOR {
        let_through(last, now)
    } else {
        before > METER_FLOOR
    }
}

/// One source's meter: what it shows, and who is woken when that moves.
///
/// Time is counted in samples, not on a clock: a meter that is paused with its
/// source resumes where it stopped.
pub struct Meter {
    shown: i64,
}

impl Meter {
    /// The level shown.
    pub closed spec fn level(&self) -> int {
        self.shown as int
    }

    /// Never below the floor.
    pub open spec fn wf(&self) -> bool {
        self.level() >= METER_FLOOR
    }

    /// A meter at rest.
    pub fn new() -> (r: Self)
        ensures
            r.wf(),
            r.level() == METER_FLOOR,
    {
        Meter { shown: METER_FLOOR }
    }

    /// The level shown.
    pub fn shown(&self) -> (r: i64)
        ensures
            r == self.level(),
    {
        self.shown
    }

    /// Takes in one buffer: its peak, how many samples it has and at what
    /// rate. Answers whether the meters are to be drawn: while the level is
    /// anything but the floor, as often as the limit lets through, and once
    /// more whatever the limit says when it comes to rest.
    pub fn measure(
        &mut self,
        peak: i64,
        samples: u64,
        rate: u32,
        wake: &mut MeterWake,
        now: u64,
    ) -> (r: bool)
        requires
            old(self).wf(),
        ensures
            final(self).wf(),
            final(self).level() == shown_after(old(self).level(), peak as int, samples, rate),
            r == draws(old(self).level(), final(self).level(), old(wake).last(), now),
            final(self).level() >= -60_000_000,
            final(self).level() >= peak,
            final(wake).last() == (if r {
                now
            } else {
                old(wake).last()
            }),
    {
        let before: i64 = self.shown;
        let per: u128 = if rate == 0 {
            1
        } else {
            rate as u128
        };
        proof {
            assert(DECAY_PER_SECOND as int * samples as int <= 20_000_000 * u64::MAX)
                by (nonlinear_arith)
                requires
                    DECAY_PER_SECOND as int == 20_000_000,
                    0 <= samples as int <= u64::MAX,
            ;
        }
        let scaled: u128 = DECAY_PER_SECOND as u128 * samples as u128;
        let fallen: u128 = scaled / per;
        proof {
            assert(fallen as int == fall(samples, rate));
            assert(fallen <= scaled) by (nonlinear_arith)
                requires
                    fallen == scaled / per,
                    per >= 1,
            ;
        }
        let left: i128 = before as i128 - fallen as i128;
        let mut shown: i128 = if peak as i128 >= left {
            peak as i128
        } else {
            left
        };
        if shown < METER_FLOOR as i128 {
            shown = METER_FLOOR as i128;
        }
        self.shown = shown as i64;
        if self.shown > METER_FLOOR {
            wake.wake(now)
        } else if before > METER_FLOOR {
            wake.wake_regardless(now);
            true
        } else {
            false
        }
    }
}

/// A meter shows the largest of the peak it was handed, what is left of what it
/// showed and the floor. At rest it asks for nothing, coming to rest it asks
/// once whatever the limit says, and moving it asks under the limit; and
/// whatever it shows is stored as something measured.
pub proof fn law_a_meter_asks_only_while_it_moves(
    before: int,
    peak: int,
    samples: u64,
    rate: u32,
    last: u64,
    now: u64,
    bits: u32,
)
    requires
        before >= METER_FLOOR,
    ensures
        ({
            let after = shown_after(before, peak, samples, rate);
            let left = before - fall(samples, rate);
            &&& after >= peak && after >= left && after >= METER_FLOOR
            &&& after == peak || after == left || after == METER_FLOOR
            &&& after == METER_FLOOR && before == METER_FLOOR ==> !draws(before, after, last, now)
            &&& after == METER_FLOOR && before > METER_FLOOR ==> draws(before, after, last, now)
            &&& after > METER_FLOOR ==> draws(before, after, last, now) == let_through(last, now)
        }),
        stored(bits) != 0,
{
}

/// A meter at rest that hears nothing stays at rest.
pub proof fn law_silence_stays_silent(samples: u64, rate: u32, peak: int)
    requires
        peak <= METER_FLOOR,
    ensures
        shown_after(METER_FLOOR as int, peak, samples, rate) == METER_FLOOR,
{
    assert(fall(samples, rate) >= 0) by {
        lemma_fall_is_not_negative(samples, rate);
    }
}

proof fn lemma_fall_is_not_negative(samples: u64, rate: u32)
    ensures
        fall(samples, rate) >= 0,
{
    let per = if rate == 0 {
        1int
    } else {
        rate as int
    };
    assert(DECAY_PER_SECOND as int * samples as int / per >= 0) by (nonlinear_arith)
        requires
            DECAY_PER_SECOND as int >= 0,
            samples as int >= 0,
            per >= 1,
    ;
}

/// A meter rises to a peak at once, and falls no faster than by the length of
/// what follows: a loud buffer still shows after a quiet one.
pub proof fn law_a_meter_rises_at_once_and_falls_slowly(
    before: int,
    peak: int,
    samples: u64,
    rate: u32,
)
    requires
        before >= METER_FLOOR,
    ensures
        shown_after(before, peak, samples, rate) >= peak,
        shown_after(before, peak, samples, rate) >= before - fall(samples, rate),
        peak >= before ==> shown_after(before, peak, samples, rate) == peak,
        peak <= before ==> shown_after(before, peak, samples, rate) <= before,
{
    lemma_fall_is_not_negative(samples, rate);
}

/// The counters the meters are read from: one for each source that has a
/// capture running behind it.
pub struct Levels<C> {
    peaks: Table<C>,
}

impl<C> View for Levels<C> {
    type V = Map<i64, C>;

    closed spec fn view(&self) -> Map<i64, C> {
        self.peaks@
    }
}

impl<C> Levels<C> {
    /// No source has two counters.
    pub closed spec fn wf(&self) -> bool {
        self.peaks.wf()
    }

    /// Whether a source has a capture running behind it.
    pub open spec fn runs(&self, id: AudioSourceId) -> bool {
        self@.dom().contains(id.0)
    }

    /// Nothing reported yet.
    pub fn new() -> (r: Self)
        ensures
            r.wf(),
            r@ == Map::<i64, C>::empty(),
    {
        Levels { peaks: Table::new() }
    }

    /// Starts reporting a source, from the counter its capture writes.
    pub fn track(&mut self, id: AudioSourceId, peak: C)
        requires
            old(self).wf(),
        ensures
            final(self).wf(),
            final(self)@ == old(self)@.insert(id.0, peak),
    {
        self.peaks.insert(id.0, peak);
    }

    /// Stops reporting a source.
    pub fn forget(&mut self, id: AudioSourceId)
        requires
            old(self).wf(),
        ensures
            final(self).wf(),
            final(self)@ == old(self)@.remove(id.0),
    {
        self.peaks.remove(id.0);
    }

    /// The counter of a source, where it has one.
    pub fn counter(&self, id: AudioSourceId) -> (r: Option<&C>)
        requires
            self.wf(),
        ensures
            match r {
                Some(peak) => self@.dom().contains(id.0) && *peak == self@[id.0],
                None => !self@.dom().contains(id.0),
            },
    {
        self.peaks.get(id.0)
    }

    /// Whether a source has a capture running behind it.
    pub fn is_running(&self, id: AudioSourceId) -> (r: bool)
        requires
            self.wf(),
        ensures
            r == self.runs(id),
    {
        self.peaks.contains(id.0)
    }
}

impl Levels<u32> {
    /// The bits of the level a source's meter shows: none where it has no
    /// counter, or has measured nothing.
    pub open spec fn shows(&self, id: AudioSourceId) -> Option<u32> {
        if self.runs(id) {
            read_back(self@[id.0])
        } else {
            None
        }
    }

    /// The bits of the level a source's meter shows.
    pub fn peak_db(&self, id: AudioSourceId) -> (r: Option<u32>)
        requires
            self.wf(),
        ensures
            r == self.shows(id),
    {
        match self.counter(id) {
            Some(bits) => reading(*bits),
            None => None,
        }
    }
}

/// A source runs from when it is reported until it is forgotten, and shows
/// nothing exactly while its counter has measured nothing; no other source is
/// touched, and where none is reported none runs.
pub proof fn law_a_source_runs_while_it_is_reported(
    none: Levels<u32>,
    before: Levels<u32>,
    reported: Levels<u32>,
    forgotten: Levels<u32>,
    a: AudioSourceId,
    b: AudioSourceId,
    bits: u32,
)
    requires
        none@ == Map::<i64, u32>::empty(),
        reported@ == before@.insert(a.0, bits),
        forgotten@ == reported@.remove(a.0),
        a != b,
    ensures
        !none.runs(b) && none.shows(b) is None,
        reported.runs(a),
        reported.shows(a) is None <==> bits == 0,
        reported.shows(a) matches Some(shown) ==> shown == bits,
        !forgotten.runs(a) && forgotten.shows(a) is None,
        reported.runs(b) == before.runs(b) && reported.shows(b) == before.shows(b),
        forgotten.runs(b) == before.runs(b) && forgotten.shows(b) == before.shows(b),
{
}

/// Every level that has been measured reads back, full scale among them, whose
/// own bits are those of a counter that has measured nothing.
pub proof fn law_a_measured_level_reads_back(
    levels: Levels<u32>,
    id: AudioSourceId,
    bits: u32,
)
    requires
        levels@.dom().contains(id.0),
        levels@[id.0] == stored(bits),
    ensures
        levels.shows(id) == Some(stored(bits)),
        bits != 0 ==> levels.shows(id) == Some(bits),
        bits == 0 ==> levels.shows(id) == Some(NEGATIVE_ZERO_BITS),
{
}

/// A meter falls twenty decibels in every second it hears nothing, and as much
/// of that as a buffer is of a second; a buffer of no rate counts its samples
/// as seconds.
pub proof fn law_a_meter_falls_twenty_decibels_a_second(
    before: int,
    peak: int,
    samples: u64,
    rate: u32,
)
    requires
        rate > 0,
    ensures
        rate * fall(samples, rate) <= 20_000_000 * samples,
        20_000_000 * samples < rate * (fall(samples, rate) + 1),
        samples == rate ==> fall(samples, rate) == 20_000_000,
        fall(samples, 0) == 20_000_000 * samples,
        samples == rate && before >= -40_000_000 && peak <= before - 20_000_000 ==> shown_after(
            before,
            peak,
            samples,
            rate,
        ) == before - 20_000_000,
{
    let all = 20_000_000 * samples as int;
    let per = rate as int;
    let down = fall(samples, rate);
    assert(down == all / per);
    assert(per * down <= all && all < per * (down + 1)) by (nonlinear_arith)
        requires
            down == all / per,
            per > 0,
    ;
    if samples == rate {
        assert(down == 20_000_000) by (nonlinear_arith)
            requires
                per * down <= 20_000_000 * per,
                20_000_000 * per < per * (down + 1),
                per > 0,
        ;
    }
    assert(fall(samples, 0) == all / 1);
    assert(all / 1 == all);
}

/// What a meter shows is the loudest of three: the peak, what is left, and
/// sixty decibels below full scale.
pub proof fn law_a_meter_shows_the_loudest(before: int, peak: int, samples: u64, rate: u32)
    ensures
        ({
            let after = shown_after(before, peak, samples, rate);
            let left = before - fall(samples, rate);
            &&& after >= peak && after >= left && after >= -60_000_000
            &&& after == peak || after == left || after == -60_000_000
        }),
{
}

/// The meters are drawn at most twenty times a second, and at once the first
/// time; full scale is stored as negative zero, and zero bits read as nothing.
pub proof fn law_meters_are_drawn_twenty_times_a_second(last: u64, now: u64, bits: u32)
    ensures
        let_through(0, now),
        last > 0 ==> (let_through(last, now) <==> now - last >= 50_000_000),
        stored(0) == 0x8000_0000,
        bits != 0 ==> stored(bits) == bits && read_back(bits) == Some(bits),
        read_back(0) is None,
{
}

/// A meter that rests where it rested asks for nothing; one that has just come
/// to rest asks; and one that shows anything asks as often as is allowed.
pub proof fn law_a_meter_at_rest_asks_for_nothing(before: int, after: int, last: u64, now: u64)
    ensures
        after <= -60_000_000 && before <= -60_000_000 ==> !draws(before, after, last, now),
        after <= -60_000_000 && before > -60_000_000 ==> draws(before, after, last, now),
        after > -60_000_000 && last > 0 ==> (draws(before, after, last, now) <==> now - last
            >= 50_000_000),
        after > -60_000_000 ==> draws(before, after, 0, now),
{
}

/// A sample is as loud as it is far from nothing, either way.
pub proof fn law_a_sample_is_as_loud_either_way(sample: i16)
    ensures
        sample >= 0 ==> size_of_sample(sample) == sample,
        sample <= 0 ==> size_of_sample(sample) == -sample,
{
}

} // verus!
