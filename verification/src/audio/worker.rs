//! What reaches the audio thread, and what one pass of it does.
//!
//! Two things move the graph: the project saying what should be running, and
//! the machine saying what it can be run on. Everything that is waiting is
//! taken together before anything is acted on.
use vstd::prelude::*;

use crate::audio::graph::{AudioSnapshot, MixFormat};
use crate::audio::level::AudioSourceId;

verus! {

/// How often the worker looks at what it has open when nothing has woken it,
/// in nanoseconds.
pub const HEALTH_INTERVAL: u64 = 1_000_000_000;

/// What reaches the audio thread.
pub enum AudioCommand {
    /// What the project now holds.
    Project(AudioSnapshot),
    /// One source's gain while its fader is held, in millionths of a decibel.
    Gain(AudioSourceId, i64),
    /// An endpoint appeared, went, or became the default.
    DevicesChanged,
    /// What the mix is to be summed into.
    MixFormat(MixFormat),
    /// Which endpoint monitoring plays to, or `None` for none.
    MonitorDevice(Option<String>),
    /// Ends the worker.
    Shutdown,
}

/// What is to be done about a command before the next one is taken.
pub enum AudioAction {
    SetMixFormat(MixFormat),
    /// Point monitoring at an endpoint, with the format the mix runs at, and
    /// publish whether there is a mix that is played back.
    SetMonitorDevice(Option<String>, MixFormat),
}

/// A gain that is waiting to be handed to a source.
#[derive(Clone, Copy, Debug, PartialEq, Eq, Structural)]
pub struct Gain {
    pub id: AudioSourceId,
    pub gain: i64,
}

/// What the commands taken together in one pass come to.
pub struct Batch {
    pub devices_changed: bool,
    pub project_changed: bool,
    pub ending: bool,
    pub gains: Vec<Gain>,
}

/// What one pass does once everything waiting has been taken.
#[derive(Clone, Copy, Debug, PartialEq, Eq, Structural)]
pub struct AudioPass {
    /// Leave, with nothing done.
    pub end: bool,
    /// Ask the machine again what it has.
    pub refresh_devices: bool,
    /// Bring the sources in line with the project.
    pub apply: bool,
    /// Hand out the gains, publish the counters, and wake whoever draws them.
    pub publish: bool,
}

/// What the worker keeps from one pass to the next.
pub struct AudioWorker {
    /// What the project last said, because a change of endpoints is answered
    /// with it.
    pub project: Option<AudioSnapshot>,
    pub mix_format: MixFormat,
}

/// The gains once one more has been taken: the last for each source wins.
pub open spec fn taken(gains: Seq<Gain>, id: AudioSourceId, gain: i64) -> Seq<Gain> {
    gains.filter(|held: Gain| held.id != id).push(Gain { id, gain })
}

impl Batch {
    /// Nothing taken yet.
    pub fn new() -> (r: Self)
        ensures
            !r.devices_changed,
            !r.project_changed,
            !r.ending,
            r.gains@ == Seq::<Gain>::empty(),
    {
        Batch { devices_changed: false, project_changed: false, ending: false, gains: Vec::new() }
    }

    fn take_gain(&mut self, id: AudioSourceId, gain: i64)
        ensures
            final(self).devices_changed == old(self).devices_changed,
            final(self).project_changed == old(self).project_changed,
            final(self).ending == old(self).ending,
            final(self).gains@ == taken(old(self).gains@, id, gain),
    {
        let ghost other = |held: Gain| held.id != id;
        let mut kept: Vec<Gain> = Vec::new();
        let mut i: usize = 0;
        proof {
            reveal(Seq::filter);
            assert(self.gains@.take(0) =~= Seq::<Gain>::empty());
        }
        while i < self.gains.len()
            invariant
                i <= self.gains@.len(),
                *self == *old(self),
                other == (|held: Gain| held.id != id),
                kept@ == self.gains@.take(i as int).filter(other),
            decreases self.gains@.len() - i,
        {
            let held: Gain = self.gains[i];
            proof {
                assert(self.gains@.take(i + 1) =~= self.gains@.take(i as int).push(held));
                self.gains@.take(i as int).lemma_filter_push(held, other);
            }
            if held.id != id {
                kept.push(held);
            }
            i = i + 1;
        }
        proof {
            assert(self.gains@.take(i as int) =~= self.gains@);
        }
        kept.push(Gain { id, gain });
        self.gains = kept;
    }
}

impl AudioWorker {
    /// A worker that has heard nothing yet.
    pub fn new(format: MixFormat) -> (r: Self)
        ensures
            r.project is None,
            r.mix_format == format,
    {
        AudioWorker { project: None, mix_format: format }
    }

    /// Takes one command into the batch. Answers what it asks for at once.
    pub fn take(&mut self, batch: &mut Batch, command: AudioCommand) -> (r: Option<AudioAction>)
        ensures
            final(self).project == (match command {
                AudioCommand::Project(snapshot) => Some(snapshot),
                _ => old(self).project,
            }),
            final(self).mix_format == (match command {
                AudioCommand::MixFormat(format) => format,
                _ => old(self).mix_format,
            }),
            final(batch).devices_changed == (old(batch).devices_changed
                || command is DevicesChanged),
            final(batch).project_changed == (old(batch).project_changed || command is Project
                || command is MixFormat || command is MonitorDevice),
            final(batch).ending == (old(batch).ending || command is Shutdown),
            final(batch).gains@ == (match command {
                AudioCommand::Gain(id, gain) => taken(old(batch).gains@, id, gain),
                _ => old(batch).gains@,
            }),
            r == (match command {
                AudioCommand::MixFormat(format) => Some(AudioAction::SetMixFormat(format)),
                AudioCommand::MonitorDevice(device) => Some(
                    AudioAction::SetMonitorDevice(device, old(self).mix_format),
                ),
                _ => None,
            }),
    {
        match command {
            AudioCommand::Project(snapshot) => {
                self.project = Some(snapshot);
                batch.project_changed = true;
                None
            },
            AudioCommand::Gain(id, gain) => {
                batch.take_gain(id, gain);
                None
            },
            AudioCommand::DevicesChanged => {
                batch.devices_changed = true;
                None
            },
            AudioCommand::MixFormat(format) => {
                self.mix_format = format;
                batch.project_changed = true;
                Some(AudioAction::SetMixFormat(format))
            },
            AudioCommand::MonitorDevice(device) => {
                batch.project_changed = true;
                Some(AudioAction::SetMonitorDevice(device, self.mix_format))
            },
            AudioCommand::Shutdown => {
                batch.ending = true;
                None
            },
        }
    }

    /// What a pass does, given what was taken, whether it was only time that
    /// passed, and whether a capture was found to have stopped by itself.
    ///
    /// A capture that stopped is a reason to look at the endpoints and at the
    /// project again. A pass that only time brought about and that found
    /// everything running does nothing at all.
    pub fn decide(&self, batch: &Batch, ticked: bool, ended: bool) -> (r: AudioPass)
        ensures
            r.end == batch.ending,
            r.refresh_devices == (!r.end && (batch.devices_changed || ended)),
            r.apply == (!r.end && (batch.devices_changed || batch.project_changed || ended)
                && self.project is Some),
            r.publish == (!r.end && !(ticked && !batch.devices_changed && !batch.project_changed
                && !ended && batch.gains@.len() == 0)),
    {
        if batch.ending {
            return AudioPass {
                end: true,
                refresh_devices: false,
                apply: false,
                publish: false,
            };
        }
        let devices: bool = batch.devices_changed || ended;
        let project: bool = batch.project_changed || ended;
        AudioPass {
            end: false,
            refresh_devices: devices,
            apply: (devices || project) && self.project.is_some(),
            publish: !(ticked && !devices && !project && batch.gains.len() == 0),
        }
    }
}

/// The gains after the first `n` of a run of drags.
pub open spec fn dragged(drags: Seq<Gain>, n: int) -> Seq<Gain>
    decreases n,
{
    if n <= 0 {
        Seq::empty()
    } else {
        taken(dragged(drags, n - 1), drags[n - 1].id, drags[n - 1].gain)
    }
}

/// Whether `j` is the last of the first `n` drags that is for this source.
pub open spec fn last_drag(drags: Seq<Gain>, n: int, id: AudioSourceId, j: int) -> bool {
    &&& 0 <= j < n
    &&& drags[j].id == id
    &&& forall|k: int| j < k < n ==> (#[trigger] drags[k]).id != id
}

/// A fader being dragged is heard once a pass, where it was last: each source
/// dragged has one gain waiting, and it is the last that was sent for it.
pub proof fn law_the_last_drag_wins(drags: Seq<Gain>, n: int)
    requires
        0 <= n <= drags.len(),
    ensures
        forall|i: int, j: int|
            0 <= i < j < dragged(drags, n).len() ==> (#[trigger] dragged(drags, n)[i]).id != (
            #[trigger] dragged(drags, n)[j]).id,
        forall|i: int|
            0 <= i < dragged(drags, n).len() ==> exists|j: int|
                last_drag(drags, n, (#[trigger] dragged(drags, n)[i]).id, j) && drags[j]
                    == dragged(drags, n)[i],
        forall|j: int|
            0 <= j < n ==> exists|i: int|
                0 <= i < dragged(drags, n).len() && (#[trigger] dragged(drags, n)[i]).id == (
                #[trigger] drags[j]).id,
    decreases n,
{
    if n > 0 {
        broadcast use vstd::seq_lib::group_filter_ensures;

        law_the_last_drag_wins(drags, n - 1);
        let before = dragged(drags, n - 1);
        let drag = drags[n - 1];
        let other = |held: Gain| held.id != drag.id;
        let kept = before.filter(other);
        let after = dragged(drags, n);
        assert(after == kept.push(Gain { id: drag.id, gain: drag.gain }));
        lemma_filter_keeps_apart(before, other);
        assert forall|i: int, j: int| 0 <= i < j < after.len() implies (#[trigger] after[i]).id != (
        #[trigger] after[j]).id by {
            if j == kept.len() {
                assert(other(kept[i]));
            }
        }
        assert forall|i: int| 0 <= i < after.len() implies exists|j: int|
            last_drag(drags, n, (#[trigger] after[i]).id, j) && drags[j] == after[i] by {
            if i < kept.len() {
                assert(other(kept[i]));
                assert(before.contains(kept[i])) by {
                    before.lemma_filter_contains_rev(other, kept[i]);
                }
                let b = before.index_of(kept[i]);
                assert(before[b] == kept[i]);
                let j = choose|j: int|
                    last_drag(drags, n - 1, before[b].id, j) && drags[j] == before[b];
                assert(last_drag(drags, n, after[i].id, j));
            } else {
                assert(last_drag(drags, n, drag.id, n - 1));
                assert(after[i] == drag);
            }
        }
        assert forall|j: int| 0 <= j < n implies exists|i: int|
            0 <= i < after.len() && (#[trigger] after[i]).id == (#[trigger] drags[j]).id by {
            if drags[j].id == drag.id {
                assert(after[kept.len() as int].id == drag.id);
            } else {
                let b = choose|i: int|
                    0 <= i < before.len() && (#[trigger] before[i]).id == drags[j].id;
                assert(other(before[b]));
                before.lemma_filter_contains(other, b);
                assert(kept.contains(before[b]));
                let i = kept.index_of(before[b]);
                assert(after[i] == before[b]);
            }
        }
    }
}

proof fn lemma_filter_keeps_apart(gains: Seq<Gain>, other: spec_fn(Gain) -> bool)
    requires
        forall|i: int, j: int| 0 <= i < j < gains.len() ==> (#[trigger] gains[i]).id != (
        #[trigger] gains[j]).id,
    ensures
        forall|i: int, j: int|
            0 <= i < j < gains.filter(other).len() ==> (#[trigger] gains.filter(other)[i]).id != (
            #[trigger] gains.filter(other)[j]).id,
    decreases gains.len(),
{
    reveal(Seq::filter);
    if gains.len() > 0 {
        let front = gains.drop_last();
        let last = gains.last();
        lemma_filter_keeps_apart(front, other);
        assert(gains =~= front.push(last));
        front.lemma_filter_push(last, other);
        let kept = front.filter(other);
        assert forall|i: int| 0 <= i < kept.len() implies (#[trigger] kept[i]).id != last.id by {
            front.lemma_filter_contains_rev(other, kept[i]);
            let j = front.index_of(kept[i]);
            assert(gains[j] == kept[i]);
            assert(gains[gains.len() - 1] == last);
        }
    }
}

/// A gain that is taken stands last, with its source's earlier ones gone and
/// every other source's kept in order.
pub proof fn law_a_gain_replaces_its_sources_earlier_one(
    gains: Seq<Gain>,
    id: AudioSourceId,
    gain: i64,
    held: Gain,
)
    ensures
        taken(gains, id, gain).len() > 0,
        taken(gains, id, gain).last().id == id && taken(gains, id, gain).last().gain == gain,
        taken(gains, id, gain).drop_last() == gains.filter(|other: Gain| other.id != id),
        held.id != id ==> (taken(gains, id, gain).contains(held) <==> gains.contains(held)),
        held.id == id && held.gain != gain ==> !taken(gains, id, gain).contains(held),
{
    let other = |other: Gain| other.id != id;
    let all = taken(gains, id, gain);
    let kept = gains.filter(other);
    assert(all =~= kept.push(Gain { id, gain }));
    assert(all.drop_last() =~= kept);
    kept_by_filter(gains, other, held);
    if kept.contains(held) {
        let i = kept.index_of(held);
        assert(all[i] == held);
    }
    if all.contains(held) && held != (Gain { id, gain }) {
        let i = all.index_of(held);
        assert(kept[i] == held);
    }
}

proof fn kept_by_filter(gains: Seq<Gain>, keep: spec_fn(Gain) -> bool, held: Gain)
    ensures
        gains.filter(keep).contains(held) <==> gains.contains(held) && keep(held),
    decreases gains.len(),
{
    reveal(Seq::filter);
    if gains.len() > 0 {
        let rest = gains.drop_last();
        kept_by_filter(rest, keep, held);
        assert(gains =~= rest.push(gains.last()));
        let before = rest.filter(keep);
        if gains.contains(held) {
            let i = gains.index_of(held);
            if i < rest.len() {
                assert(rest[i] == held);
            }
        }
        if rest.contains(held) {
            let i = rest.index_of(held);
            assert(gains[i] == held);
        }
        if keep(gains.last()) {
            let after = before.push(gains.last());
            if before.contains(held) {
                let i = before.index_of(held);
                assert(after[i] == held);
            }
            if after.contains(held) {
                let i = after.index_of(held);
                if i < before.len() {
                    assert(before[i] == held);
                }
            }
            assert(after[before.len() as int] == gains.last());
            assert(gains[gains.len() - 1] == gains.last());
        }
    }
}

/// The sources are looked at once a second.
pub proof fn law_sources_are_looked_at_once_a_second()
    ensures
        HEALTH_INTERVAL == 1_000_000_000,
{
}

/// A drag is a source's last where it is that source's, and none after it is.
pub proof fn law_a_last_drag_is_the_last(
    drags: Seq<Gain>,
    n: int,
    id: AudioSourceId,
    j: int,
    k: int,
)
    requires
        last_drag(drags, n, id, j),
    ensures
        0 <= j < n && drags[j].id == id,
        j < k < n ==> drags[k].id != id,
{
}

} // verus!
