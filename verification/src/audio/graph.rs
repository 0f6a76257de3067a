//! The audio graph: the mixers, and the sources feeding them.
use vstd::prelude::*;
use vstd::string::*;

use crate::audio::device::{self, device_available, same_device, AudioDeviceTarget, AudioSourceKind};
use crate::audio::level::{AudioSourceId, Levels};
use crate::table::Table;
use crate::text::{self, decimal_of_i64, joined, same};

verus! {

/// What a mix is summed into.
#[derive(Clone, Copy, Debug, PartialEq, Eq, Structural)]
pub struct MixFormat {
    pub sample_rate: u32,
    pub channels: u16,
}

/// One audio source, as the project holds it.
#[derive(Clone, Debug)]
pub struct AudioSourceSnapshot {
    pub id: AudioSourceId,
    pub name: String,
    pub kind: AudioSourceKind,
    pub device: Option<String>,
    /// The fader, in millionths of a decibel.
    pub gain: i64,
    pub muted: bool,
    /// Whether it is played back as well as recorded.
    pub monitored: bool,
}

/// Every audio source the project holds.
pub struct AudioSnapshot {
    pub items: Vec<AudioSourceSnapshot>,
}

/// What the monitor mix knows a source by.
pub fn monitor_registration(name: &str) -> (r: String)
    ensures
        r@ == name@ + "-monitor"@,
{
    joined(name, "-monitor")
}

/// What the mixer knows a source by.
pub fn registration(id: AudioSourceId) -> (r: String)
    ensures
        r@ == "audio-"@ + text::decimal_int(id.0 as int),
{
    let digits = decimal_of_i64(id.0);
    joined("audio-", digits.as_str())
}

/// Whether a source's sound is played back as well as recorded: it asks for
/// it, and there is something to play through.
pub fn monitors(monitored: bool, monitoring: bool) -> (r: bool)
    ensures
        r == (monitored && monitoring),
{
    monitored && monitoring
}

/// One source that is open, and how it was opened.
pub struct OpenAudioSource {
    pub device: Option<String>,
    pub monitored: bool,
}

/// What plays the monitor mix, and what it was built against.
pub struct MonitorOutput {
    pub device: String,
    pub mix_format: MixFormat,
}

/// What is to be done about one source of the project.
#[derive(Clone, Copy, Debug, PartialEq, Eq, Structural)]
pub enum Plan {
    /// Nothing to open it on.
    Close,
    /// Open as it should be: hand it its fader and its mute.
    Tune,
    /// Close it where it is open, and open it, with or without the monitor
    /// mix.
    Reopen { monitored: bool },
}

/// What a change of the monitoring endpoint asks for.
#[derive(Clone, Copy, Debug, PartialEq, Eq, Structural)]
pub struct MonitorStep {
    /// End the branch that plays the mix now.
    pub detach: bool,
    /// Open the endpoint that was named.
    pub attach: bool,
}

/// What a change of format asks for.
#[derive(Clone, Copy, Debug, PartialEq, Eq, Structural)]
pub struct FormatStep {
    /// Tell the mixer.
    pub mixer: bool,
    /// Tell the monitor mix.
    pub monitor: bool,
    /// Rebuild the branch that plays the monitor mix, on the endpoint it is
    /// on.
    pub rebuild: bool,
}

/// The mixers, and the sources feeding them. `C` is the counter a source's
/// meter is read from.
pub struct AudioEngine<C> {
    /// Whether the mixer started.
    pub mixer: bool,
    /// Whether the monitor mix started.
    pub monitor: bool,
    /// What is playing the monitor mix.
    pub monitor_output: Option<MonitorOutput>,
    pub sources: Table<OpenAudioSource>,
    pub levels: Levels<C>,
}

/// Whether the project names this id.
pub open spec fn names(items: Seq<AudioSourceSnapshot>, id: i64) -> bool {
    exists|i: int| 0 <= i < items.len() && (#[trigger] items[i]).id.0 == id
}

/// The ids a list holds.
pub open spec fn ids(list: Seq<AudioSourceId>) -> Set<i64> {
    Set::new(|id: i64| list.contains(AudioSourceId(id)))
}

/// The ids the project names.
pub open spec fn named_ids(items: Seq<AudioSourceSnapshot>) -> Set<i64> {
    Set::new(|id: i64| names(items, id))
}

proof fn lemma_ids_push(list: Seq<AudioSourceId>, id: AudioSourceId)
    ensures
        ids(list.push(id)) == ids(list).insert(id.0),
{
    assert forall|k: i64| #[trigger] ids(list.push(id)).contains(k) <==> ids(list).insert(
        id.0,
    ).contains(k) by {
        let other = AudioSourceId(k);
        if list.contains(other) {
            let j = list.index_of(other);
            assert(list.push(id)[j] == other);
        }
        assert(list.push(id)[list.len() as int] == id);
        if list.push(id).contains(other) {
            let j = list.push(id).index_of(other);
            assert(list.push(id)[j] == other);
            if j < list.len() {
                assert(list[j] == other);
            }
        }
    }
    assert(ids(list.push(id)) =~= ids(list).insert(id.0));
}

fn is_named(items: &Vec<AudioSourceSnapshot>, id: i64) -> (r: bool)
    ensures
        r == names(items@, id),
{
    let mut i: usize = 0;
    while i < items.len()
        invariant
            i <= items@.len(),
            forall|j: int| 0 <= j < i ==> (#[trigger] items@[j]).id.0 != id,
        decreases items@.len() - i,
    {
        if items[i].id.0 == id {
            return true;
        }
        i = i + 1;
    }
    false
}

impl<C> AudioEngine<C> {
    /// Every open source has a counter and every counter a source, and nothing
    /// plays a mix that never started.
    pub open spec fn wf(&self) -> bool {
        &&& self.sources.wf()
        &&& self.levels.wf()
        &&& self.levels@.dom() == self.sources@.dom()
        &&& self.monitor_output is Some ==> self.monitor
    }

    /// What is to be done about one source.
    pub open spec fn plan(
        &self,
        source: AudioSourceSnapshot,
        devices: Seq<AudioDeviceTarget>,
    ) -> Plan {
        let wanted = source.monitored && self.monitor_output is Some;
        if !device::available(devices, source.kind, device::named(source.device)) {
            Plan::Close
        } else if self.sources@.dom().contains(source.id.0) && device::named(
            self.sources@[source.id.0].device,
        ) == device::named(source.device) && self.sources@[source.id.0].monitored == wanted {
            Plan::Tune
        } else {
            Plan::Reopen { monitored: wanted }
        }
    }

    /// An engine with whichever mixers started, and nothing open.
    pub fn new(mixer: bool, monitor: bool) -> (r: Self)
        ensures
            r.wf(),
            r.mixer == mixer,
            r.monitor == monitor,
            r.monitor_output is None,
            r.sources@ == Map::<i64, OpenAudioSource>::empty(),
            r.levels@ == Map::<i64, C>::empty(),
    {
        let r = AudioEngine {
            mixer,
            monitor,
            monitor_output: None,
            sources: Table::new(),
            levels: Levels::new(),
        };
        proof {
            assert(r.levels@.dom() =~= r.sources@.dom());
        }
        r
    }

    /// Whether there is a mix that is played back.
    pub fn monitor_access(&self) -> (r: bool)
        ensures
            r == (self.monitor_output is Some && self.monitor),
    {
        self.monitor_output.is_some() && self.monitor
    }

    /// Whether there is a mixer a recording's track can attach to.
    pub fn mixer_access(&self) -> (r: bool)
        ensures
            r == self.mixer,
    {
        self.mixer
    }

    /// Whether a fader being dragged has a source to reach.
    pub fn set_gain(&self, id: AudioSourceId) -> (r: bool)
        requires
            self.wf(),
        ensures
            r == self.sources@.dom().contains(id.0),
    {
        self.sources.contains(id.0)
    }

    /// Stops one source. Answers whether there was one, whose registrations
    /// are then to be taken back from both mixes.
    pub fn close(&mut self, id: AudioSourceId) -> (r: bool)
        requires
            old(self).wf(),
        ensures
            final(self).wf(),
            final(self).mixer == old(self).mixer,
            final(self).monitor == old(self).monitor,
            final(self).monitor_output == old(self).monitor_output,
            final(self).sources@ == old(self).sources@.remove(id.0),
            final(self).levels@ == old(self).levels@.remove(id.0),
            r == old(self).sources@.dom().contains(id.0),
    {
        let held = self.sources.remove(id.0);
        self.levels.forget(id);
        proof {
            assert(self.levels@.dom() =~= self.sources@.dom());
        }
        held.is_some()
    }

    /// Closes whatever the project no longer holds. Answers which those were.
    pub fn close_dropped(&mut self, snapshot: &AudioSnapshot) -> (closed: Vec<AudioSourceId>)
        requires
            old(self).wf(),
        ensures
            final(self).wf(),
            final(self).mixer == old(self).mixer,
            final(self).monitor == old(self).monitor,
            final(self).monitor_output == old(self).monitor_output,
            final(self).sources@ == old(self).sources@.remove_keys(ids(closed@)),
            final(self).levels@ == old(self).levels@.remove_keys(ids(closed@)),
            ids(closed@) == (if old(self).mixer {
                old(self).sources@.dom().difference(named_ids(snapshot.items@))
            } else {
                Set::empty()
            }),
            !old(self).mixer ==> final(self).sources@ == old(self).sources@,
            old(self).mixer ==> forall|id: i64| #[trigger]
                final(self).sources@.dom().contains(id) <==> old(self).sources@.dom().contains(id)
                    && exists|i: int|
                    0 <= i < snapshot.items@.len() && (#[trigger] snapshot.items@[i]).id.0 == id,
    {
        let mut gone: Vec<AudioSourceId> = Vec::new();
        proof {
            assert(ids(gone@) =~= Set::empty());
            assert(self.sources@.remove_keys(ids(gone@)) =~= self.sources@);
            assert(self.levels@.remove_keys(ids(gone@)) =~= self.levels@);
        }
        if !self.mixer {
            return gone;
        }
        let mut at: usize = 0;
        while at < self.sources.len()
            invariant
                *self == *old(self),
                self.wf(),
                at <= self.sources.keys().len(),
                ids(gone@) =~= Set::new(
                    |id: i64|
                        self.sources.keys().take(at as int).contains(id) && !names(
                            snapshot.items@,
                            id,
                        ),
                ),
            decreases self.sources.keys().len() - at,
        {
            let id: i64 = self.sources.key_at(at);
            let ghost before = gone@;
            if !is_named(&snapshot.items, id) {
                gone.push(AudioSourceId(id));
            }
            proof {
                lemma_ids_push(before, AudioSourceId(id));
                let less = self.sources.keys().take(at as int);
                let more = self.sources.keys().take(at + 1);
                assert(more =~= less.push(id));
                assert forall|k: i64| more.contains(k) <==> (less.contains(k) || k == id) by {
                    if less.contains(k) {
                        let j = less.index_of(k);
                        assert(more[j] == k);
                    }
                    assert(more[at as int] == id);
                }
            }
            at = at + 1;
        }
        proof {
            assert(self.sources.keys().take(at as int) =~= self.sources.keys());
            self.sources.lemma_keys();
            assert(ids(gone@) =~= self.sources@.dom().difference(named_ids(snapshot.items@)));
        }
        self.close_all(&gone);
        gone
    }

    /// Stops every one of these that is open.
    fn close_all(&mut self, list: &Vec<AudioSourceId>)
        requires
            old(self).wf(),
        ensures
            final(self).wf(),
            final(self).mixer == old(self).mixer,
            final(self).monitor == old(self).monitor,
            final(self).monitor_output == old(self).monitor_output,
            final(self).sources@ == old(self).sources@.remove_keys(ids(list@)),
            final(self).levels@ == old(self).levels@.remove_keys(ids(list@)),
    {
        let mut i: usize = 0;
        proof {
            assert(ids(list@.take(0)) =~= Set::empty());
        }
        while i < list.len()
            invariant
                i <= list@.len(),
                self.wf(),
                self.mixer == old(self).mixer,
                self.monitor == old(self).monitor,
                self.monitor_output == old(self).monitor_output,
                self.sources@ =~= old(self).sources@.remove_keys(ids(list@.take(i as int))),
                self.levels@ =~= old(self).levels@.remove_keys(ids(list@.take(i as int))),
            decreases list@.len() - i,
        {
            self.close(list[i]);
            proof {
                assert(list@.take(i + 1) =~= list@.take(i as int).push(list@[i as int]));
                lemma_ids_push(list@.take(i as int), list@[i as int]);
            }
            i = i + 1;
        }
        proof {
            assert(list@.take(list@.len() as int) =~= list@);
        }
    }

    /// Brings one source in line with the project and with what is plugged in.
    ///
    /// Answers what is to be done, and whether it was open and has been
    /// closed. Whatever is to be opened is answered with
    /// [`AudioEngine::opened`].
    pub fn apply(
        &mut self,
        source: &AudioSourceSnapshot,
        devices: &Vec<AudioDeviceTarget>,
    ) -> (r: (Plan, bool))
        requires
            old(self).wf(),
            old(self).mixer,
        ensures
            final(self).wf(),
            final(self).mixer == old(self).mixer,
            final(self).monitor == old(self).monitor,
            final(self).monitor_output == old(self).monitor_output,
            r.0 == old(self).plan(*source, devices@),
            r.1 == (!(r.0 is Tune) && old(self).sources@.dom().contains(source.id.0)),
            r.0 is Tune ==> final(self).sources@ == old(self).sources@ && final(self).levels@
                == old(self).levels@,
            !(r.0 is Tune) ==> final(self).sources@ == old(self).sources@.remove(source.id.0)
                && final(self).levels@ == old(self).levels@.remove(source.id.0),
    {
        if !device_available(devices, source.kind, &source.device) {
            let closed: bool = self.close(source.id);
            return (Plan::Close, closed);
        }
        let wanted: bool = monitors(source.monitored, self.monitor_output.is_some());
        let as_it_should_be: bool = match self.sources.get(source.id.0) {
            Some(open) => same_device(&open.device, &source.device) && open.monitored == wanted,
            None => false,
        };
        if as_it_should_be {
            (Plan::Tune, false)
        } else {
            let closed: bool = self.close(source.id);
            (Plan::Reopen { monitored: wanted }, closed)
        }
    }

    /// Takes what became of opening a source: a counter where it worked. One
    /// that cannot open costs the others nothing.
    pub fn opened(&mut self, source: &AudioSourceSnapshot, monitored: bool, counter: Option<C>)
        requires
            old(self).wf(),
        ensures
            final(self).wf(),
            final(self).mixer == old(self).mixer,
            final(self).monitor == old(self).monitor,
            final(self).monitor_output == old(self).monitor_output,
            match counter {
                Some(counter) => {
                    &&& final(self).levels@ == old(self).levels@.insert(source.id.0, counter)
                    &&& final(self).sources@ == old(self).sources@.insert(
                        source.id.0,
                        OpenAudioSource { device: source.device, monitored },
                    )
                },
                None => final(self).levels@ == old(self).levels@ && final(self).sources@ == old(
                    self,
                ).sources@,
            },
    {
        match counter {
            Some(counter) => {
                self.levels.track(source.id, counter);
                let device = match &source.device {
                    Some(device) => Some(device.clone()),
                    None => None,
                };
                self.sources.insert(source.id.0, OpenAudioSource { device, monitored });
                proof {
                    assert(self.levels@.dom() =~= self.sources@.dom());
                }
            },
            None => {},
        }
    }

    /// Closes every source whose capture has stopped by itself, given which
    /// those are. Answers with the ones that were open.
    pub fn close_ended(&mut self, stopped: &Vec<AudioSourceId>) -> (ended: Vec<AudioSourceId>)
        requires
            old(self).wf(),
        ensures
            final(self).wf(),
            final(self).mixer == old(self).mixer,
            final(self).monitor == old(self).monitor,
            final(self).monitor_output == old(self).monitor_output,
            final(self).sources@ == old(self).sources@.remove_keys(ids(stopped@)),
            final(self).levels@ == old(self).levels@.remove_keys(ids(stopped@)),
            ids(ended@) == old(self).sources@.dom().intersect(ids(stopped@)),
            forall|id: i64| #[trigger]
                ended@.contains(AudioSourceId(id)) <==> stopped@.contains(AudioSourceId(id)) && old(
                    self,
                ).sources@.dom().contains(id),
            forall|id: i64| #[trigger]
                final(self).sources@.dom().contains(id) <==> old(self).sources@.dom().contains(id)
                    && !stopped@.contains(AudioSourceId(id)),
    {
        let mut ended: Vec<AudioSourceId> = Vec::new();
        let mut i: usize = 0;
        proof {
            assert(ids(stopped@.take(0)) =~= Set::empty());
            assert(ids(ended@) =~= Set::empty());
        }
        while i < stopped.len()
            invariant
                i <= stopped@.len(),
                self.wf(),
                *self == *old(self),
                ids(ended@) =~= old(self).sources@.dom().intersect(ids(stopped@.take(i as int))),
            decreases stopped@.len() - i,
        {
            let id: AudioSourceId = stopped[i];
            proof {
                assert(stopped@.take(i + 1) =~= stopped@.take(i as int).push(id));
                lemma_ids_push(stopped@.take(i as int), id);
                lemma_ids_push(ended@, id);
            }
            if self.sources.contains(id.0) {
                ended.push(id);
            }
            i = i + 1;
        }
        proof {
            assert(stopped@.take(stopped@.len() as int) =~= stopped@);
        }
        self.close_all(&ended);
        proof {
            assert(self.sources@ =~= old(self).sources@.remove_keys(ids(stopped@)));
            assert(self.levels@ =~= old(self).levels@.remove_keys(ids(stopped@)));
            assert forall|id: i64| #[trigger]
                ended@.contains(AudioSourceId(id)) <==> stopped@.contains(AudioSourceId(id))
                    && old(self).sources@.dom().contains(id) by {
                assert(ids(ended@).contains(id) == ended@.contains(AudioSourceId(id)));
                assert(ids(stopped@).contains(id) == stopped@.contains(AudioSourceId(id)));
            }
        }
        ended
    }

    /// Whether monitoring already plays where it is asked to.
    pub open spec fn plays_to(&self, device: Option<Seq<char>>, format: MixFormat) -> bool {
        match (self.monitor_output, device) {
            (Some(output), Some(device)) => output.device@ == device && output.mix_format
                == format,
            (None, None) => true,
            _ => false,
        }
    }

    /// Points monitoring at an endpoint, or turns it off with `None`. Answers
    /// what that asks for; what is to be attached is answered with
    /// [`AudioEngine::monitor_attached`].
    pub fn set_monitor_device(&mut self, device: Option<&str>, format: MixFormat) -> (
        r: MonitorStep)
        requires
            old(self).wf(),
        ensures
            final(self).wf(),
            final(self).mixer == old(self).mixer,
            final(self).monitor == old(self).monitor,
            final(self).sources@ == old(self).sources@,
            final(self).levels@ == old(self).levels@,
            ({
                let named = match device {
                    Some(device) => Some(device@),
                    None => None,
                };
                if old(self).plays_to(named, format) {
                    final(self).monitor_output == old(self).monitor_output && !r.detach && !r.attach
                } else {
                    &&& final(self).monitor_output is None
                    &&& r.detach == old(self).monitor_output is Some
                    &&& r.attach == (device is Some && old(self).monitor)
                }
            }),
    {
        let unchanged: bool = match (&self.monitor_output, device) {
            (Some(output), Some(device)) => same(output.device.as_str(), device)
                && output.mix_format == format,
            (None, None) => true,
            _ => false,
        };
        if unchanged {
            return MonitorStep { detach: false, attach: false };
        }
        let detach: bool = self.monitor_output.is_some();
        self.monitor_output = None;
        MonitorStep { detach, attach: device.is_some() && self.monitor }
    }

    /// Takes that an endpoint is playing the monitor mix.
    pub fn monitor_attached(&mut self, device: &str, format: MixFormat)
        requires
            old(self).wf(),
            old(self).monitor,
        ensures
            final(self).wf(),
            final(self).mixer == old(self).mixer,
            final(self).monitor == old(self).monitor,
            final(self).sources@ == old(self).sources@,
            final(self).levels@ == old(self).levels@,
            final(self).monitor_output matches Some(output) && output.device@ == device@
                && output.mix_format == format,
    {
        self.monitor_output = Some(MonitorOutput { device: device.to_owned(), mix_format: format });
    }

    /// Changes what the mixes are summed into, given what each says it runs
    /// at. A mix that runs at it already is not told; the branch that plays
    /// the monitor mix was built for its rate, and is rebuilt.
    pub fn set_mix_format(
        &self,
        format: MixFormat,
        mixer_runs_at: Option<MixFormat>,
        monitor_runs_at: Option<MixFormat>,
    ) -> (r: FormatStep)
        ensures
            r.mixer == (self.mixer && mixer_runs_at != Some(format)),
            r.monitor == (self.monitor && monitor_runs_at != Some(format)),
            r.rebuild == (self.monitor_output matches Some(output) && output.mix_format != format),
    {
        let rebuild: bool = match &self.monitor_output {
            Some(output) => output.mix_format != format,
            None => false,
        };
        FormatStep {
            mixer: self.mixer && mixer_runs_at != Some(format),
            monitor: self.monitor && monitor_runs_at != Some(format),
            rebuild,
        }
    }
}

/// A source that is open as the project asks is left where it is: bringing it
/// in line again hands it its fader and nothing else.
pub proof fn law_applying_twice_reopens_nothing<C>(
    before: AudioEngine<C>,
    after: AudioEngine<C>,
    source: AudioSourceSnapshot,
    devices: Seq<AudioDeviceTarget>,
    monitored: bool,
)
    requires
        before.plan(source, devices) == (Plan::Reopen { monitored }),
        after.monitor_output is Some <==> before.monitor_output is Some,
        after.sources@.dom().contains(source.id.0),
        after.sources@[source.id.0] == (OpenAudioSource { device: source.device, monitored }),
    ensures
        after.plan(source, devices) is Tune,
{
}

/// A source that asks to be monitored where nothing plays is recorded all the
/// same: what it is opened with is only whether it is played back too.
pub proof fn law_a_source_is_recorded_whether_or_not_it_is_monitored<C>(
    engine: AudioEngine<C>,
    source: AudioSourceSnapshot,
    devices: Seq<AudioDeviceTarget>,
)
    requires
        device::available(devices, source.kind, device::named(source.device)),
    ensures
        !(engine.plan(source, devices) is Close),
        engine.plan(source, devices) matches Plan::Reopen { monitored } ==> monitored == (
        source.monitored && engine.monitor_output is Some),
{
}

/// A source is closed exactly where there is nothing to open it on; it is left
/// open, and only tuned, exactly where it is open on the endpoint it stores and
/// plays to the monitor mix exactly where it should; and it is opened anew
/// everywhere else.
pub proof fn law_a_source_is_reopened_where_it_is_not_as_it_should_be<C>(
    engine: AudioEngine<C>,
    source: AudioSourceSnapshot,
    devices: Seq<AudioDeviceTarget>,
)
    ensures
        ({
            let open = engine.sources@.dom().contains(source.id.0);
            let held = engine.sources@[source.id.0];
            let here = device::available(devices, source.kind, device::named(source.device));
            let heard = source.monitored && engine.monitor_output is Some;
            &&& !here <==> engine.plan(source, devices) is Close
            &&& !open && here ==> engine.plan(source, devices) is Reopen
            &&& open && here && device::named(held.device) != device::named(source.device)
                ==> engine.plan(source, devices) is Reopen
            &&& open && here && held.monitored != heard ==> engine.plan(source, devices) is Reopen
            &&& open && here && device::named(held.device) == device::named(source.device)
                && held.monitored == heard ==> engine.plan(source, devices) is Tune
        }),
        engine.plan(source, devices) matches Plan::Reopen { monitored } ==> (monitored
            <==> source.monitored && engine.monitor_output is Some),
{
}

/// The monitor mix plays where it should exactly where it plays nowhere and is
/// to play nowhere, or plays on the endpoint named, in the format asked for.
pub proof fn law_the_monitor_plays_where_it_was_sent<C>(
    engine: AudioEngine<C>,
    output: MonitorOutput,
    device: Seq<char>,
    format: MixFormat,
)
    ensures
        engine.monitor_output is None ==> engine.plays_to(None, format) && !engine.plays_to(
            Some(device),
            format,
        ),
        engine.monitor_output == Some(output) ==> {
            &&& !engine.plays_to(None, format)
            &&& engine.plays_to(Some(device), format) <==> output.device@ == device
                && output.mix_format.sample_rate == format.sample_rate
                && output.mix_format.channels == format.channels
        },
{
}

/// A source is named by a snapshot where one of its items is that source.
pub proof fn law_a_snapshot_names_its_sources(
    items: Seq<AudioSourceSnapshot>,
    list: Seq<AudioSourceId>,
    id: i64,
    i: int,
)
    requires
        0 <= i < items.len(),
    ensures
        items[i].id.0 == id ==> names(items, id) && named_ids(items).contains(id),
        (forall|j: int| 0 <= j < items.len() ==> (#[trigger] items[j]).id.0 != id) ==> !names(
            items,
            id,
        ) && !named_ids(items).contains(id),
        ids(list).contains(id) <==> list.contains(AudioSourceId(id)),
{
}

} // verus!
