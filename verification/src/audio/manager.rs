//! What the application holds of the audio thread: what it asks for, and what
//! it is shown.
use vstd::prelude::*;

use crate::audio::device::AudioDeviceTarget;
use crate::audio::graph::{AudioSnapshot, MixFormat};
use crate::audio::level::{AudioSourceId, Levels};
use crate::audio::worker::{AudioCommand, AudioWorker};

verus! {

/// The application's end of the audio thread. `H` is what a mixer is reached
/// through.
pub struct AudioManager<H> {
    /// What has been asked for and not taken yet, oldest first.
    pub commands: Vec<AudioCommand>,
    /// Whether anything can still be asked for.
    pub listening: bool,
    /// What each capture measures, `None` until something was published.
    pub levels: Option<Levels<u32>>,
    /// Every endpoint the machine has, `None` before they were listed.
    pub devices: Option<Vec<AudioDeviceTarget>>,
    /// Where a recording's sound attaches, `None` where the mixer never
    /// started.
    pub mixer: Option<H>,
    /// The mix that is played back, where there is one.
    pub monitor: Option<H>,
}

impl<H> AudioManager<H> {
    /// No source is shown twice.
    pub open spec fn wf(&self) -> bool {
        self.levels matches Some(levels) ==> levels.wf()
    }

    /// Everything but what has been asked for.
    pub open spec fn shows_as(&self, other: &Self) -> bool {
        &&& self.levels == other.levels
        &&& self.devices == other.devices
        &&& self.mixer == other.mixer
        &&& self.monitor == other.monitor
    }

    /// Both ends of the audio thread as it starts, given what came of starting
    /// the mixer.
    pub fn spawn(format: MixFormat, mixer: Option<H>) -> (r: (Self, AudioWorker))
        ensures
            r.0.wf(),
            r.0.commands@ == Seq::<AudioCommand>::empty(),
            r.0.listening,
            r.0.levels is None,
            r.0.devices is None,
            r.0.mixer == mixer,
            r.0.monitor is None,
            r.1.project is None,
            r.1.mix_format == format,
    {
        let manager = AudioManager {
            commands: Vec::new(),
            listening: true,
            levels: None,
            devices: None,
            mixer,
            monitor: None,
        };
        (manager, AudioWorker::new(format))
    }

    /// What has been asked for once one more command has: nothing is taken
    /// after the end.
    pub open spec fn asking(self, command: AudioCommand) -> Seq<AudioCommand> {
        if self.listening {
            self.commands@.push(command)
        } else {
            self.commands@
        }
    }

    fn send(&mut self, command: AudioCommand)
        ensures
            final(self).commands@ == old(self).asking(command),
            final(self).listening == old(self).listening,
            final(self).shows_as(old(self)),
    {
        if self.listening {
            self.commands.push(command);
        }
    }

    /// Takes everything that has been asked for, oldest first.
    pub fn take(&mut self) -> (r: Vec<AudioCommand>)
        ensures
            r@ == old(self).commands@,
            final(self).commands@ == Seq::<AudioCommand>::empty(),
            final(self).listening == old(self).listening,
            final(self).shows_as(old(self)),
    {
        let mut taken: Vec<AudioCommand> = Vec::new();
        core::mem::swap(&mut taken, &mut self.commands);
        taken
    }

    /// Tells the audio thread to end, which is the last thing it is told.
    pub fn shutdown(&mut self)
        ensures
            final(self).commands@ == old(self).asking(AudioCommand::Shutdown),
            !final(self).listening,
            final(self).shows_as(old(self)),
    {
        self.send(AudioCommand::Shutdown);
        self.listening = false;
    }

    /// Sets one source's gain now, in millionths of a decibel, without waiting for
    /// the project.
    pub fn set_gain_db(&mut self, id: AudioSourceId, gain: i64)
        ensures
            final(self).commands@ == old(self).asking(AudioCommand::Gain(id, gain)),
            final(self).listening == old(self).listening,
            final(self).shows_as(old(self)),
    {
        self.send(AudioCommand::Gain(id, gain));
    }

    /// Tells the audio graph what the project now holds.
    pub fn apply(&mut self, snapshot: AudioSnapshot)
        ensures
            final(self).commands@ == old(self).asking(AudioCommand::Project(snapshot)),
            final(self).listening == old(self).listening,
            final(self).shows_as(old(self)),
    {
        self.send(AudioCommand::Project(snapshot));
    }

    /// Tells the mixer what to sum into from now on.
    pub fn set_mix_format(&mut self, format: MixFormat)
        ensures
            final(self).commands@ == old(self).asking(AudioCommand::MixFormat(format)),
            final(self).listening == old(self).listening,
            final(self).shows_as(old(self)),
    {
        self.send(AudioCommand::MixFormat(format));
    }

    /// Points monitoring at an endpoint, or turns it off with `None`.
    pub fn set_monitor_device(&mut self, device: Option<String>)
        ensures
            final(self).commands@ == old(self).asking(AudioCommand::MonitorDevice(device)),
            final(self).listening == old(self).listening,
            final(self).shows_as(old(self)),
    {
        self.send(AudioCommand::MonitorDevice(device));
    }

    /// The most recent peak for one source, as the bits of a level, or `None`
    /// when nothing is measuring it.
    pub fn peak_db(&self, id: AudioSourceId) -> (r: Option<u32>)
        requires
            self.wf(),
        ensures
            r == (match self.levels {
                Some(levels) => levels.shows(id),
                None => None,
            }),
    {
        match &self.levels {
            Some(levels) => levels.peak_db(id),
            None => None,
        }
    }

    /// Whether this source has a capture running behind it, and `None` while
    /// nothing has been published yet.
    pub fn is_running(&self, id: AudioSourceId) -> (r: Option<bool>)
        requires
            self.wf(),
        ensures
            r == (match self.levels {
                Some(levels) => Some(levels.runs(id)),
                None => None,
            }),
    {
        match &self.levels {
            Some(levels) => Some(levels.is_running(id)),
            None => None,
        }
    }

    /// Where a recording's sound attaches, or `None` where the mixer never
    /// started.
    pub fn mixer(&self) -> (r: &Option<H>)
        ensures
            *r == self.mixer,
    {
        &self.mixer
    }

    /// Every endpoint the machine has, or `None` before they were listed.
    pub fn devices(&self) -> (r: &Option<Vec<AudioDeviceTarget>>)
        ensures
            *r == self.devices,
    {
        &self.devices
    }

    /// The mix that is played back, where there is one now.
    pub fn monitor_publisher(&self) -> (r: &Option<H>)
        ensures
            *r == self.monitor,
    {
        &self.monitor
    }
}

/// What is asked for is asked in turn while anyone listens, and dropped once
/// nobody does.
pub proof fn law_what_is_asked_for_is_asked_in_turn<H>(
    manager: AudioManager<H>,
    command: AudioCommand,
)
    ensures
        manager.listening ==> manager.asking(command) == manager.commands@.push(command),
        !manager.listening ==> manager.asking(command) == manager.commands@,
{
}

/// A manager shows as another where everything it shows is the other's.
pub proof fn law_what_is_shown_alike_is_the_same<H>(a: AudioManager<H>, b: AudioManager<H>)
    ensures
        a.shows_as(&b) <==> a.levels == b.levels && a.devices == b.devices && a.mixer == b.mixer
            && a.monitor == b.monitor,
{
}

} // verus!
