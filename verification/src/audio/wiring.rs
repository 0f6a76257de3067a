//! How a source's sound is wired to the mixes, and the mixes to what plays
//! them.
use vstd::prelude::*;
use vstd::string::*;

use crate::audio::graph::{monitor_registration, registration, MixFormat};
use crate::audio::level::AudioSourceId;
use crate::backend::encode::{self, add_stage, Rational, Stage, StageKind};
use crate::text::{self, joined};

verus! {

/// How many buffers what is played back may fall behind by before it loses
/// one.
pub const MONITOR_QUEUE_DEPTH: usize = 8;

/// Where a source's sound goes, behind its fader.
#[derive(Clone, Copy, Debug, PartialEq, Eq, Structural)]
pub enum AudioBranch {
    /// Its meter.
    Meter,
    /// The mix that is recorded.
    Mix,
    /// The mix that is played back.
    Monitor,
}

/// One branch, by where it goes and what it is called there.
pub struct WiredBranch {
    pub to: AudioBranch,
    pub name: String,
}

impl View for WiredBranch {
    type V = (AudioBranch, Seq<char>);

    open spec fn view(&self) -> (AudioBranch, Seq<char>) {
        (self.to, self.name@)
    }
}

/// How one source is wired. The fader comes before everything: what is
/// measured is what is heard, and pulling a channel down is heard in both
/// mixes.
pub struct SourceWiring {
    /// What its capture is called.
    pub capture: String,
    /// What its fader is called.
    pub volume: String,
    /// What fans out behind the fader.
    pub tee: String,
    pub branches: Vec<WiredBranch>,
}

/// What a source is called.
pub open spec fn source_called(id: AudioSourceId) -> Seq<char> {
    "audio-"@ + text::decimal_int(id.0 as int)
}

/// The branches behind a source's fader: always its meter and the mix that is
/// recorded, and the mix that is played back where it is monitored.
pub open spec fn branches_of(id: AudioSourceId, monitored: bool) -> Seq<(AudioBranch, Seq<char>)> {
    let name = source_called(id);
    seq![(AudioBranch::Meter, name + "-meter"@), (AudioBranch::Mix, name)] + (if monitored {
        seq![(AudioBranch::Monitor, name + "-monitor"@)]
    } else {
        Seq::empty()
    })
}

/// Whether branches are these.
pub open spec fn branches_are(
    branches: Seq<WiredBranch>,
    expected: Seq<(AudioBranch, Seq<char>)>,
) -> bool {
    &&& branches.len() == expected.len()
    &&& forall|i: int| 0 <= i < branches.len() ==> (#[trigger] branches[i])@ == expected[i]
}

/// How a source is wired. `monitor` is whether there is a mix that is played
/// back to put it into.
pub fn open_source(id: AudioSourceId, monitored: bool, monitor: bool) -> (r: SourceWiring)
    ensures
        r.capture@ == source_called(id),
        r.volume@ == source_called(id) + "-volume"@,
        r.tee@ == source_called(id) + "-tee"@,
        branches_are(r.branches@, branches_of(id, monitored && monitor)),
        r.branches@.len() == (if monitored && monitor {
            3int
        } else {
            2int
        }),
        r.branches@[0].to is Meter && r.branches@[0].name@ == r.capture@ + "-meter"@,
        r.branches@[1].to is Mix && r.branches@[1].name@ == r.capture@,
        monitored && monitor ==> r.branches@[2].to is Monitor && r.branches@[2].name@ == r.capture@
            + "-monitor"@,
{
    let name = registration(id);
    let mut branches: Vec<WiredBranch> = Vec::new();
    branches.push(
        WiredBranch { to: AudioBranch::Meter, name: joined(name.as_str(), "-meter") },
    );
    branches.push(WiredBranch { to: AudioBranch::Mix, name: registration(id) });
    if monitored && monitor {
        branches.push(
            WiredBranch { to: AudioBranch::Monitor, name: monitor_registration(name.as_str()) },
        );
    }
    let volume = joined(name.as_str(), "-volume");
    let tee = joined(name.as_str(), "-tee");
    SourceWiring { capture: name, volume, tee, branches }
}

/// A source is always recorded: monitoring it adds a branch and takes none
/// away.
pub proof fn law_monitoring_takes_nothing_from_the_recording(id: AudioSourceId)
    ensures
        branches_of(id, false) =~= branches_of(id, true).take(2),
        branches_of(id, true).len() == 3,
        branches_of(id, false)[1] == (AudioBranch::Mix, source_called(id)),
{
}

/// What one mix is called, and what fans out behind it.
pub struct MixerPlan {
    pub pipeline: String,
    pub mixer: String,
    pub tee: String,
}

/// What a mix is called: the one that is recorded, or the one that is played
/// back.
pub fn start_mixer(monitor: bool) -> (r: MixerPlan)
    ensures
        r.pipeline@ == (if monitor {
            "audio-monitor"@
        } else {
            "audio-mix"@
        }),
        r.mixer@ == r.pipeline@ + "-mixer"@,
        r.tee@ == (if monitor {
            "monitor-tee"@
        } else {
            "mix-tee"@
        }),
{
    let pipeline: &str = if monitor {
        "audio-monitor"
    } else {
        "audio-mix"
    };
    let tee: &str = if monitor {
        "monitor-tee"
    } else {
        "mix-tee"
    };
    MixerPlan {
        pipeline: pipeline.to_owned(),
        mixer: joined(pipeline, "-mixer"),
        tee: tee.to_owned(),
    }
}

/// The branch that plays the monitor mix, and the rate its resampler is built
/// for.
pub struct MonitorPlan {
    pub stages: Vec<Stage>,
    pub time_base: Rational,
}

/// The stages that play the monitor mix: it loses what it cannot play in time,
/// so that it can never hold up what is recorded, and is brought to the format
/// of the endpoint.
pub open spec fn monitor_branch() -> Seq<(StageKind, Seq<char>)> {
    seq![
        (StageKind::DroppingQueue, "monitor"@ + "-queue"@),
        (StageKind::Resample, "monitor"@ + "-resampler"@),
        (StageKind::Render, "monitor"@ + "-renderer"@),
    ]
}

/// How the monitor mix is played, at the format it is summed into.
pub fn attach_monitor_output(format: MixFormat) -> (r: MonitorPlan)
    requires
        format.sample_rate <= i32::MAX,
    ensures
        encode::stages_are(r.stages@, monitor_branch()),
        r.stages@.len() == 3,
        r.stages@[0].kind is DroppingQueue && r.stages@[1].kind is Resample,
        r.stages@[2].kind is Render,
        r.time_base == (Rational { numerator: 1, denominator: format.sample_rate as i32 }),
{
    let mut stages: Vec<Stage> = Vec::new();
    let ghost none = Seq::<(StageKind, Seq<char>)>::empty();
    proof {
        assert(encode::stages_are(stages@, none));
    }
    add_stage(&mut stages, StageKind::DroppingQueue, "monitor", "-queue");
    add_stage(&mut stages, StageKind::Resample, "monitor", "-resampler");
    add_stage(&mut stages, StageKind::Render, "monitor", "-renderer");
    proof {
        let queue = none + seq![(StageKind::DroppingQueue, "monitor"@ + "-queue"@)];
        let resampled = queue + seq![(StageKind::Resample, "monitor"@ + "-resampler"@)];
        assert(resampled + seq![(StageKind::Render, "monitor"@ + "-renderer"@)]
            =~= monitor_branch());
    }
    MonitorPlan {
        stages,
        time_base: Rational { numerator: 1, denominator: format.sample_rate as i32 },
    }
}

/// Everything a source is wired with is named after the source, so no two
/// sources share a name.
pub proof fn law_a_source_is_named_by_its_number(id: AudioSourceId)
    ensures
        source_called(id) == "audio-"@ + text::decimal_int(id.0 as int),
        branches_of(id, true)[0] == (AudioBranch::Meter, source_called(id) + "-meter"@),
        branches_of(id, true)[1] == (AudioBranch::Mix, source_called(id)),
        branches_of(id, true)[2] == (AudioBranch::Monitor, source_called(id) + "-monitor"@),
        branches_of(id, false).len() == 2,
{
}

/// What is played back goes through a queue that drops what is late, is brought
/// to the endpoint's format, and is rendered.
pub proof fn law_what_is_played_back_never_holds_up_the_mix()
    ensures
        monitor_branch().len() == 3,
        monitor_branch()[0] == (StageKind::DroppingQueue, "monitor"@ + "-queue"@),
        monitor_branch()[1] == (StageKind::Resample, "monitor"@ + "-resampler"@),
        monitor_branch()[2] == (StageKind::Render, "monitor"@ + "-renderer"@),
{
}

/// Branches are what was expected where there are as many, and each goes where
/// it should under the name it should.
pub proof fn law_branches_are_what_was_expected(
    branches: Seq<WiredBranch>,
    expected: Seq<(AudioBranch, Seq<char>)>,
    i: int,
)
    requires
        branches_are(branches, expected),
    ensures
        branches.len() == expected.len(),
        0 <= i < branches.len() ==> branches[i].to == expected[i].0 && branches[i].name@
            == expected[i].1,
{
    if 0 <= i < branches.len() {
        assert(branches[i]@ == expected[i]);
    }
}

/// What is played back holds at most eight buffers.
pub proof fn law_what_is_played_back_is_kept_short()
    ensures
        MONITOR_QUEUE_DEPTH == 8,
{
}

} // verus!
