//! Turning a channel's stored filters into the elements of its chain.
//!
//! A filter that is off is left out of the chain rather than kept in it doing
//! nothing, so turning one on or off, adding, removing and reordering refill
//! the rack; only settings go through a handle.
use vstd::prelude::*;
use vstd::string::*;

use crate::text::{self, decimal_of_i64};

verus! {

/// The least ratio a compressor takes: one, which compresses nothing.
pub const LEAST_RATIO: i64 = 1_000_000;

/// The one rate noise suppression takes.
pub const NOISE_SUPPRESSOR_SAMPLE_RATE: u32 = 48_000;

/// Names one filter of a channel.
#[derive(Clone, Copy, Debug, PartialEq, Eq, Hash, Structural)]
pub struct AudioFilterId(pub i64);

/// The kinds of filter a channel can have.
#[derive(Clone, Copy, Debug, PartialEq, Eq, Structural)]
pub enum AudioFilterKind {
    NoiseSuppression,
    NoiseGate,
    Compressor,
    Limiter,
}

/// A gate's settings, as they are stored. Levels are millionths of a decibel.
#[derive(Clone, Copy, Debug, PartialEq, Eq, Structural)]
pub struct NoiseGateSettings {
    pub open_threshold: i64,
    pub close_threshold: i64,
    pub attack_ms: u32,
    pub hold_ms: u32,
    pub release_ms: u32,
}

/// A compressor's settings, as they are stored. The ratio is in millionths.
#[derive(Clone, Copy, Debug, PartialEq, Eq, Structural)]
pub struct CompressorSettings {
    pub threshold: i64,
    pub ratio: i64,
    pub attack_ms: u32,
    pub release_ms: u32,
    pub output_gain: i64,
}

/// A limiter's settings, as they are stored.
#[derive(Clone, Copy, Debug, PartialEq, Eq, Structural)]
pub struct LimiterSettings {
    pub threshold: i64,
    pub release_ms: u32,
}

/// What one filter is set to.
#[derive(Clone, Copy, Debug, PartialEq, Eq, Structural)]
pub enum AudioFilterSettings {
    NoiseSuppression,
    NoiseGate(NoiseGateSettings),
    Compressor(CompressorSettings),
    Limiter(LimiterSettings),
}

impl NoiseGateSettings {
    /// The same settings with the close threshold at or below the open one.
    pub open spec fn in_range(self) -> NoiseGateSettings {
        NoiseGateSettings {
            close_threshold: if self.close_threshold > self.open_threshold {
                self.open_threshold
            } else {
                self.close_threshold
            },
            ..self
        }
    }

    /// Brought into the range a gate takes: a close threshold left above the
    /// open one comes down to it, which leaves a gate that closes where it
    /// opens.
    pub fn sanitised(self) -> (r: NoiseGateSettings)
        ensures
            r == self.in_range(),
    {
        let close_threshold: i64 = if self.close_threshold > self.open_threshold {
            self.open_threshold
        } else {
            self.close_threshold
        };
        NoiseGateSettings { close_threshold, ..self }
    }
}

impl CompressorSettings {
    /// The same settings with the ratio at one or above.
    pub open spec fn in_range(self) -> CompressorSettings {
        CompressorSettings {
            ratio: if self.ratio < LEAST_RATIO {
                LEAST_RATIO
            } else {
                self.ratio
            },
            ..self
        }
    }

    /// Brought into the range a compressor takes: a ratio below one, which
    /// would be an expander's, becomes one.
    pub fn sanitised(self) -> (r: CompressorSettings)
        ensures
            r == self.in_range(),
    {
        let ratio: i64 = if self.ratio < LEAST_RATIO {
            LEAST_RATIO
        } else {
            self.ratio
        };
        CompressorSettings { ratio, ..self }
    }
}

impl AudioFilterSettings {
    /// What kind of filter these are for.
    pub open spec fn of_kind(&self) -> AudioFilterKind {
        match self {
            AudioFilterSettings::NoiseSuppression => AudioFilterKind::NoiseSuppression,
            AudioFilterSettings::NoiseGate(_) => AudioFilterKind::NoiseGate,
            AudioFilterSettings::Compressor(_) => AudioFilterKind::Compressor,
            AudioFilterSettings::Limiter(_) => AudioFilterKind::Limiter,
        }
    }

    /// What kind of filter these are for.
    pub fn kind(&self) -> (r: AudioFilterKind)
        ensures
            r == self.of_kind(),
    {
        match self {
            AudioFilterSettings::NoiseSuppression => AudioFilterKind::NoiseSuppression,
            AudioFilterSettings::NoiseGate(_) => AudioFilterKind::NoiseGate,
            AudioFilterSettings::Compressor(_) => AudioFilterKind::Compressor,
            AudioFilterSettings::Limiter(_) => AudioFilterKind::Limiter,
        }
    }
}

/// One filter of a channel, as it is stored.
#[derive(Clone, Copy, Debug, PartialEq, Eq, Structural)]
pub struct AudioFilter {
    pub id: AudioFilterId,
    pub enabled: bool,
    pub settings: AudioFilterSettings,
}

/// How a sample is stored.
#[derive(Clone, Copy, Debug, PartialEq, Eq, Structural)]
pub enum SampleFormat {
    F32,
    I16,
    Other,
}

/// What a capture delivers.
#[derive(Clone, Copy, Debug, PartialEq, Eq, Structural)]
pub struct AudioFormat {
    pub sample_format: SampleFormat,
    pub sample_rate: u32,
    pub channels: u16,
}

/// A gate's options, with times in nanoseconds.
#[derive(Clone, Copy, Debug, PartialEq, Eq, Structural)]
pub struct AudioGateOptions {
    pub open_threshold: i64,
    pub close_threshold: i64,
    pub attack: u64,
    pub hold: u64,
    pub release: u64,
}

/// A compressor's options, with times in nanoseconds.
#[derive(Clone, Copy, Debug, PartialEq, Eq, Structural)]
pub struct AudioCompressorOptions {
    pub threshold: i64,
    pub ratio: i64,
    pub attack: u64,
    pub release: u64,
    pub output_gain: i64,
}

/// A limiter's options, with times in nanoseconds.
#[derive(Clone, Copy, Debug, PartialEq, Eq, Structural)]
pub struct AudioLimiterOptions {
    pub threshold: i64,
    pub release: u64,
}

/// What one element of a chain is made as.
#[derive(Clone, Copy, Debug, PartialEq, Eq, Structural)]
pub enum ElementOptions {
    /// Converts to this format, from samples counted at this rate.
    Resampler(AudioFormat, u32),
    NoiseSuppressor,
    Gate(AudioGateOptions),
    Compressor(AudioCompressorOptions),
    Limiter(AudioLimiterOptions),
}

/// One element of a chain.
pub struct ChainElement {
    pub name: String,
    pub options: ElementOptions,
}

/// One filter of a chain: which, and of what kind.
#[derive(Clone, Copy, Debug, PartialEq, Eq, Structural)]
pub struct Shaped {
    pub id: AudioFilterId,
    pub kind: AudioFilterKind,
}

/// The filters that are on, in their order.
pub open spec fn turned_on(filters: Seq<AudioFilter>) -> Seq<AudioFilter> {
    filters.filter(|filter: AudioFilter| filter.enabled)
}

/// What identifies the chain that should be running: the filters that are on,
/// of which kinds, in which order.
pub open spec fn shape_of(filters: Seq<AudioFilter>) -> Seq<Shaped> {
    turned_on(filters).map_values(
        |filter: AudioFilter| Shaped { id: filter.id, kind: filter.settings.of_kind() },
    )
}

/// The filters that are on, in their order.
pub fn on(filters: &Vec<AudioFilter>) -> (r: Vec<AudioFilter>)
    ensures
        r@ == turned_on(filters@),
{
    let ghost enabled = |filter: AudioFilter| filter.enabled;
    let mut r: Vec<AudioFilter> = Vec::new();
    let mut i: usize = 0;
    proof {
        reveal(Seq::filter);
        assert(filters@.take(0) =~= Seq::<AudioFilter>::empty());
    }
    while i < filters.len()
        invariant
            i <= filters@.len(),
            enabled == (|filter: AudioFilter| filter.enabled),
            r@ == filters@.take(i as int).filter(enabled),
        decreases filters@.len() - i,
    {
        let filter: AudioFilter = filters[i];
        proof {
            assert(filters@.take(i + 1) =~= filters@.take(i as int).push(filter));
            filters@.take(i as int).lemma_filter_push(filter, enabled);
        }
        if filter.enabled {
            r.push(filter);
        }
        i = i + 1;
    }
    proof {
        assert(filters@.take(i as int) =~= filters@);
    }
    r
}

/// What identifies the chain that should be running.
pub fn shape(filters: &Vec<AudioFilter>) -> (r: Vec<Shaped>)
    ensures
        r@ == shape_of(filters@),
{
    let chain = on(filters);
    let mut r: Vec<Shaped> = Vec::new();
    let mut i: usize = 0;
    while i < chain.len()
        invariant
            i <= chain@.len(),
            chain@ == turned_on(filters@),
            r@.len() == i,
            forall|j: int|
                0 <= j < i ==> r@[j] == (Shaped {
                    id: chain@[j].id,
                    kind: chain@[j].settings.of_kind(),
                }),
        decreases chain@.len() - i,
    {
        r.push(Shaped { id: chain[i].id, kind: chain[i].settings.kind() });
        i = i + 1;
    }
    proof {
        assert(r@ =~= shape_of(filters@));
    }
    r
}

fn same_shape(a: &Vec<Shaped>, b: &Vec<Shaped>) -> (r: bool)
    ensures
        r == (a@ == b@),
{
    if a.len() != b.len() {
        return false;
    }
    let mut i: usize = 0;
    while i < a.len()
        invariant
            i <= a@.len(),
            a@.len() == b@.len(),
            forall|j: int| 0 <= j < i ==> a@[j] == b@[j],
        decreases a@.len() - i,
    {
        if a[i] != b[i] {
            return false;
        }
        i = i + 1;
    }
    proof {
        assert(a@ =~= b@);
    }
    true
}

/// Whether any of these filters suppresses noise.
pub open spec fn suppresses(chain: Seq<AudioFilter>) -> bool {
    exists|i: int|
        0 <= i < chain.len() && (#[trigger] chain[i]).settings.of_kind()
            == AudioFilterKind::NoiseSuppression
}

/// The format a bridge at the head of a chain converts to: every filter takes
/// `f32`, noise suppression one rate only, and a capture that is both already
/// is not converted.
pub open spec fn bridged(capture: AudioFormat, chain: Seq<AudioFilter>) -> Option<AudioFormat> {
    let rate = if suppresses(chain) {
        NOISE_SUPPRESSOR_SAMPLE_RATE
    } else {
        capture.sample_rate
    };
    if chain.len() == 0 || (capture.sample_format == SampleFormat::F32 && rate
        == capture.sample_rate) {
        None
    } else {
        Some(
            AudioFormat {
                sample_format: SampleFormat::F32,
                sample_rate: rate,
                channels: capture.channels,
            },
        )
    }
}

/// The format a bridge at the head of the chain converts to, or `None` when
/// the capture's own will do for every filter that is on.
pub fn bridge(capture: AudioFormat, chain: &Vec<AudioFilter>) -> (r: Option<AudioFormat>)
    ensures
        r == bridged(capture, chain@),
{
    if chain.len() == 0 {
        return None;
    }
    let mut suppressing: bool = false;
    let mut i: usize = 0;
    while i < chain.len()
        invariant
            i <= chain@.len(),
            suppressing == exists|j: int|
                0 <= j < i && (#[trigger] chain@[j]).settings.of_kind()
                    == AudioFilterKind::NoiseSuppression,
        decreases chain@.len() - i,
    {
        if chain[i].settings.kind() == AudioFilterKind::NoiseSuppression {
            suppressing = true;
        }
        i = i + 1;
    }
    let rate: u32 = if suppressing {
        NOISE_SUPPRESSOR_SAMPLE_RATE
    } else {
        capture.sample_rate
    };
    if capture.sample_format == SampleFormat::F32 && rate == capture.sample_rate {
        return None;
    }
    Some(
        AudioFormat {
            sample_format: SampleFormat::F32,
            sample_rate: rate,
            channels: capture.channels,
        },
    )
}

/// Milliseconds as nanoseconds.
pub open spec fn millis(ms: u32) -> u64 {
    (ms * 1_000_000) as u64
}

fn nanos(ms: u32) -> (r: u64)
    ensures
        r == millis(ms),
{
    ms as u64 * 1_000_000
}

/// A gate's options for settings in range.
pub open spec fn gate_options_of(settings: NoiseGateSettings) -> AudioGateOptions {
    AudioGateOptions {
        open_threshold: settings.open_threshold,
        close_threshold: settings.close_threshold,
        attack: millis(settings.attack_ms),
        hold: millis(settings.hold_ms),
        release: millis(settings.release_ms),
    }
}

/// A compressor's options for settings in range.
pub open spec fn compressor_options_of(settings: CompressorSettings) -> AudioCompressorOptions {
    AudioCompressorOptions {
        threshold: settings.threshold,
        ratio: settings.ratio,
        attack: millis(settings.attack_ms),
        release: millis(settings.release_ms),
        output_gain: settings.output_gain,
    }
}

/// A limiter's options. Every level that can be stored is one it takes.
pub open spec fn limiter_options_of(settings: LimiterSettings) -> AudioLimiterOptions {
    AudioLimiterOptions { threshold: settings.threshold, release: millis(settings.release_ms) }
}

/// A gate's options, for what is stored.
pub fn gate_options(settings: NoiseGateSettings) -> (r: AudioGateOptions)
    ensures
        r == gate_options_of(settings.in_range()),
        r.close_threshold <= r.open_threshold,
        settings.close_threshold <= settings.open_threshold ==> r == gate_options_of(settings),
        r.open_threshold == settings.open_threshold,
        settings.close_threshold <= settings.open_threshold ==> r.close_threshold
            == settings.close_threshold,
        settings.close_threshold > settings.open_threshold ==> r.close_threshold
            == settings.open_threshold,
        r.attack == settings.attack_ms * 1_000_000,
        r.hold == settings.hold_ms * 1_000_000,
        r.release == settings.release_ms * 1_000_000,
{
    let settings = settings.sanitised();
    AudioGateOptions {
        open_threshold: settings.open_threshold,
        close_threshold: settings.close_threshold,
        attack: nanos(settings.attack_ms),
        hold: nanos(settings.hold_ms),
        release: nanos(settings.release_ms),
    }
}

/// A compressor's options, for what is stored.
pub fn compressor_options(settings: CompressorSettings) -> (r: AudioCompressorOptions)
    ensures
        r == compressor_options_of(settings.in_range()),
        r.ratio >= LEAST_RATIO,
        settings.ratio >= LEAST_RATIO ==> r == compressor_options_of(settings),
        r.threshold == settings.threshold,
        settings.ratio >= 1_000_000 ==> r.ratio == settings.ratio,
        settings.ratio < 1_000_000 ==> r.ratio == 1_000_000,
        r.attack == settings.attack_ms * 1_000_000,
        r.release == settings.release_ms * 1_000_000,
        r.output_gain == settings.output_gain,
{
    let settings = settings.sanitised();
    AudioCompressorOptions {
        threshold: settings.threshold,
        ratio: settings.ratio,
        attack: nanos(settings.attack_ms),
        release: nanos(settings.release_ms),
        output_gain: settings.output_gain,
    }
}

/// A limiter's options, for what is stored.
pub fn limiter_options(settings: LimiterSettings) -> (r: AudioLimiterOptions)
    ensures
        r == limiter_options_of(settings),
        r.threshold == settings.threshold,
        r.release == settings.release_ms * 1_000_000,
{
    AudioLimiterOptions { threshold: settings.threshold, release: nanos(settings.release_ms) }
}

/// What a filter's element is made as.
pub open spec fn options_of(settings: AudioFilterSettings) -> ElementOptions {
    match settings {
        AudioFilterSettings::NoiseSuppression => ElementOptions::NoiseSuppressor,
        AudioFilterSettings::NoiseGate(settings) => ElementOptions::Gate(
            gate_options_of(settings.in_range()),
        ),
        AudioFilterSettings::Compressor(settings) => ElementOptions::Compressor(
            compressor_options_of(settings.in_range()),
        ),
        AudioFilterSettings::Limiter(settings) => ElementOptions::Limiter(
            limiter_options_of(settings),
        ),
    }
}

/// What an element can be made as: a gate closes no higher than it opens, and
/// a compressor never expands.
pub open spec fn taken(options: ElementOptions) -> bool {
    match options {
        ElementOptions::Gate(gate) => gate.close_threshold <= gate.open_threshold,
        ElementOptions::Compressor(compressor) => compressor.ratio >= LEAST_RATIO,
        _ => true,
    }
}

/// What a filter's element is made as.
pub fn element_options(settings: AudioFilterSettings) -> (r: ElementOptions)
    ensures
        r == options_of(settings),
{
    match settings {
        AudioFilterSettings::NoiseSuppression => ElementOptions::NoiseSuppressor,
        AudioFilterSettings::NoiseGate(settings) => ElementOptions::Gate(gate_options(settings)),
        AudioFilterSettings::Compressor(settings) => ElementOptions::Compressor(
            compressor_options(settings),
        ),
        AudioFilterSettings::Limiter(settings) => ElementOptions::Limiter(
            limiter_options(settings),
        ),
    }
}

/// What a filter's element is called after.
pub open spec fn role_of(kind: AudioFilterKind) -> Seq<char> {
    match kind {
        AudioFilterKind::NoiseSuppression => "-denoise-"@,
        AudioFilterKind::NoiseGate => "-gate-"@,
        AudioFilterKind::Compressor => "-compressor-"@,
        AudioFilterKind::Limiter => "-limiter-"@,
    }
}

/// What a filter's element is called.
pub open spec fn name_of(rack: Seq<char>, filter: AudioFilter) -> Seq<char> {
    rack + role_of(filter.settings.of_kind()) + text::decimal_int(filter.id.0 as int)
}

fn element_name(rack: &str, filter: &AudioFilter) -> (r: String)
    ensures
        r@ == name_of(rack@, *filter),
{
    let role: &str = match filter.settings.kind() {
        AudioFilterKind::NoiseSuppression => "-denoise-",
        AudioFilterKind::NoiseGate => "-gate-",
        AudioFilterKind::Compressor => "-compressor-",
        AudioFilterKind::Limiter => "-limiter-",
    };
    let mut r: String = rack.to_owned();
    r.append(role);
    let id = decimal_of_i64(filter.id.0);
    r.append(id.as_str());
    r
}

/// Whether these are the elements of a chain: a bridge at the head where one
/// is needed, and then one for each filter that is on, in order.
pub open spec fn is_chain(
    elements: Seq<ChainElement>,
    rack: Seq<char>,
    capture: AudioFormat,
    chain: Seq<AudioFilter>,
) -> bool {
    let head = if bridged(capture, chain) is Some {
        1int
    } else {
        0int
    };
    &&& elements.len() == head + chain.len()
    &&& bridged(capture, chain) matches Some(target) ==> elements[0].name@ == rack
        + "-filter-format"@ && elements[0].options == ElementOptions::Resampler(
        target,
        capture.sample_rate,
    )
    &&& forall|i: int|
        head <= i < elements.len() ==> (#[trigger] elements[i]).name@ == name_of(
            rack,
            chain[i - head],
        ) && elements[i].options == options_of(chain[i - head].settings)
}

/// What bringing a rack in line comes to.
pub enum RackStep {
    /// The chain is the one that is wanted: hand each of these its options.
    Retune(Vec<Tuning>),
    /// Another chain is wanted: build these, and put them in together.
    Replace(Vec<ChainElement>),
}

/// Options for one filter that is running.
#[derive(Clone, Copy, Debug, PartialEq, Eq, Structural)]
pub struct Tuning {
    pub id: AudioFilterId,
    pub options: ElementOptions,
}

/// A channel's rack: what the capture delivers, and what is running in it.
pub struct AudioFilterRack {
    pub name: String,
    pub capture: AudioFormat,
    /// What is in the rack now.
    pub running: Vec<Shaped>,
}

/// What kind of filter is reached under an id, among the first `n` that are
/// running: the last that takes settings at all.
pub open spec fn tuner_of(running: Seq<Shaped>, id: AudioFilterId, n: int) -> Option<
    AudioFilterKind,
>
    decreases n,
{
    if n <= 0 {
        None
    } else if running[n - 1].id == id && running[n - 1].kind != AudioFilterKind::NoiseSuppression {
        Some(running[n - 1].kind)
    } else {
        tuner_of(running, id, n - 1)
    }
}

/// Whether a running filter can take these settings: it is there, and is of
/// their kind.
pub open spec fn tunable(
    running: Seq<Shaped>,
    id: AudioFilterId,
    settings: AudioFilterSettings,
) -> bool {
    tuner_of(running, id, running.len() as int) == Some(settings.of_kind())
}

/// The options handed to the running filters, over the first `n` stored ones.
pub open spec fn tunings(running: Seq<Shaped>, filters: Seq<AudioFilter>, n: int) -> Seq<Tuning>
    decreases n,
{
    if n <= 0 {
        Seq::empty()
    } else {
        let before = tunings(running, filters, n - 1);
        let filter = filters[n - 1];
        if tunable(running, filter.id, filter.settings) {
            before.push(Tuning { id: filter.id, options: options_of(filter.settings) })
        } else {
            before
        }
    }
}

impl AudioFilterRack {
    /// A channel's rack, empty.
    pub fn new(name: &str, capture: AudioFormat) -> (r: Self)
        ensures
            r.name@ == name@,
            r.capture == capture,
            r.running@ == Seq::<Shaped>::empty(),
    {
        AudioFilterRack { name: name.to_owned(), capture, running: Vec::new() }
    }

    /// One filter's new options, where it is running and takes any.
    pub fn retune(&self, id: AudioFilterId, settings: AudioFilterSettings) -> (r: Option<
        ElementOptions,
    >)
        ensures
            r == (if tunable(self.running@, id, settings) {
                Some(options_of(settings))
            } else {
                None
            }),
    {
        let mut tuner: Option<AudioFilterKind> = None;
        let mut i: usize = 0;
        while i < self.running.len()
            invariant
                i <= self.running@.len(),
                tuner == tuner_of(self.running@, id, i as int),
            decreases self.running@.len() - i,
        {
            let here: Shaped = self.running[i];
            if here.id == id && here.kind != AudioFilterKind::NoiseSuppression {
                tuner = Some(here.kind);
            }
            i = i + 1;
        }
        match tuner {
            Some(kind) => {
                if kind == settings.kind() {
                    Some(element_options(settings))
                } else {
                    None
                }
            },
            None => None,
        }
    }

    /// The elements of a chain, for the filters that are on.
    pub fn build(&self, filters: &Vec<AudioFilter>) -> (r: Vec<ChainElement>)
        ensures
            is_chain(r@, self.name@, self.capture, turned_on(filters@)),
    {
        let chain = on(filters);
        let mut elements: Vec<ChainElement> = Vec::new();
        let ghost head = if bridged(self.capture, chain@) is Some {
            1int
        } else {
            0int
        };
        match bridge(self.capture, &chain) {
            Some(target) => {
                let mut name: String = self.name.clone();
                name.append("-filter-format");
                elements.push(
                    ChainElement {
                        name,
                        options: ElementOptions::Resampler(target, self.capture.sample_rate),
                    },
                );
            },
            None => {},
        }
        let mut i: usize = 0;
        while i < chain.len()
            invariant
                i <= chain@.len(),
                head == (if bridged(self.capture, chain@) is Some {
                    1int
                } else {
                    0int
                }),
                elements@.len() == head + i,
                bridged(self.capture, chain@) matches Some(target) ==> elements@[0].name@
                    == self.name@ + "-filter-format"@ && elements@[0].options
                    == ElementOptions::Resampler(target, self.capture.sample_rate),
                forall|j: int|
                    head <= j < elements@.len() ==> (#[trigger] elements@[j]).name@ == name_of(
                        self.name@,
                        chain@[j - head],
                    ) && elements@[j].options == options_of(chain@[j - head].settings),
            decreases chain@.len() - i,
        {
            let filter = &chain[i];
            let name = element_name(self.name.as_str(), filter);
            let options = element_options(filter.settings);
            elements.push(ChainElement { name, options });
            i = i + 1;
        }
        elements
    }

    /// Brings the rack in line with what the project holds: a refill only when
    /// which filters are on, or their order, has changed. What was put in is
    /// answered with [`AudioFilterRack::replaced`]; until then the rack runs
    /// what it ran.
    pub fn apply(&self, filters: &Vec<AudioFilter>) -> (r: RackStep)
        ensures
            match r {
                RackStep::Retune(list) => shape_of(filters@) == self.running@ && list@ == tunings(
                    self.running@,
                    filters@,
                    filters@.len() as int,
                ),
                RackStep::Replace(elements) => shape_of(filters@) != self.running@ && is_chain(
                    elements@,
                    self.name@,
                    self.capture,
                    turned_on(filters@),
                ),
            },
    {
        let wanted = shape(filters);
        if !same_shape(&wanted, &self.running) {
            return RackStep::Replace(self.build(filters));
        }
        let mut list: Vec<Tuning> = Vec::new();
        let mut i: usize = 0;
        while i < filters.len()
            invariant
                i <= filters@.len(),
                list@ == tunings(self.running@, filters@, i as int),
            decreases filters@.len() - i,
        {
            match self.retune(filters[i].id, filters[i].settings) {
                Some(options) => {
                    list.push(Tuning { id: filters[i].id, options });
                },
                None => {},
            }
            i = i + 1;
        }
        RackStep::Retune(list)
    }

    /// Takes that a chain was put in.
    pub fn replaced(&mut self, filters: &Vec<AudioFilter>)
        ensures
            final(self).running@ == shape_of(filters@),
            final(self).name == old(self).name,
            final(self).capture == old(self).capture,
    {
        self.running = shape(filters);
    }
}

/// What is stored is always something an element takes: nothing a chain is
/// built of and nothing a running filter is handed can be refused, whatever
/// the settings were left at, and settings already in range are kept.
pub proof fn law_no_setting_is_refused(
    elements: Seq<ChainElement>,
    rack: Seq<char>,
    capture: AudioFormat,
    running: Seq<Shaped>,
    filters: Seq<AudioFilter>,
    n: int,
)
    requires
        is_chain(elements, rack, capture, turned_on(filters)),
        0 <= n <= filters.len(),
    ensures
        forall|i: int| 0 <= i < elements.len() ==> taken((#[trigger] elements[i]).options),
        forall|i: int|
            0 <= i < tunings(running, filters, n).len() ==> taken(
                (#[trigger] tunings(running, filters, n)[i]).options,
            ),
        forall|gate: NoiseGateSettings|
            gate.close_threshold <= gate.open_threshold ==> #[trigger] gate.in_range() == gate,
        forall|compressor: CompressorSettings|
            compressor.ratio >= LEAST_RATIO ==> #[trigger] compressor.in_range() == compressor,
    decreases n,
{
    if n > 0 {
        law_no_setting_is_refused(elements, rack, capture, running, filters, n - 1);
    }
}

/// Settings do not decide a refill: filters that differ only in what they are
/// set to are the same chain.
pub proof fn law_retuning_is_no_refill(before: Seq<AudioFilter>, after: Seq<AudioFilter>)
    requires
        before.len() == after.len(),
        forall|i: int|
            0 <= i < before.len() ==> {
                &&& (#[trigger] before[i]).id == after[i].id
                &&& before[i].enabled == after[i].enabled
                &&& before[i].settings.of_kind() == after[i].settings.of_kind()
            },
    ensures
        shape_of(before) == shape_of(after),
    decreases before.len(),
{
    reveal(Seq::filter);
    let enabled = |filter: AudioFilter| filter.enabled;
    if before.len() > 0 {
        let (b, a) = (before.drop_last(), after.drop_last());
        assert forall|i: int| 0 <= i < b.len() implies (#[trigger] b[i]).id == a[i].id
            && b[i].enabled == a[i].enabled && b[i].settings.of_kind()
            == a[i].settings.of_kind() by {
            assert(before[i] == b[i]);
        }
        law_retuning_is_no_refill(b, a);
        let last = before.len() - 1;
        assert(before =~= b.push(before[last]));
        assert(after =~= a.push(after[last]));
        b.lemma_filter_push(before[last], enabled);
        a.lemma_filter_push(after[last], enabled);
        assert(before[last].enabled == after[last].enabled);
        assert(shape_of(before) =~= shape_of(after)) by {
            assert(shape_of(b).len() == shape_of(a).len());
            assert(turned_on(b).len() == turned_on(a).len());
            assert forall|i: int| 0 <= i < shape_of(before).len() implies shape_of(before)[i]
                == shape_of(after)[i] by {
                if i < shape_of(b).len() {
                    assert(shape_of(before)[i] == shape_of(b)[i]);
                    assert(shape_of(after)[i] == shape_of(a)[i]);
                }
            }
        }
    } else {
        assert(shape_of(before) =~= shape_of(after));
    }
}

/// Every setting reaches its element: thresholds, ratio and gain as they are
/// set, and times as nanoseconds, a million to the millisecond.
pub proof fn law_every_setting_reaches_its_element(
    gate: NoiseGateSettings,
    compressor: CompressorSettings,
    limiter: LimiterSettings,
)
    requires
        gate.close_threshold <= gate.open_threshold,
        compressor.ratio >= 1_000_000,
    ensures
        options_of(AudioFilterSettings::NoiseSuppression) == ElementOptions::NoiseSuppressor,
        options_of(AudioFilterSettings::NoiseGate(gate)) matches ElementOptions::Gate(options) && {
            &&& options.open_threshold == gate.open_threshold
            &&& options.close_threshold == gate.close_threshold
            &&& options.attack == gate.attack_ms * 1_000_000
            &&& options.hold == gate.hold_ms * 1_000_000
            &&& options.release == gate.release_ms * 1_000_000
        },
        options_of(AudioFilterSettings::Compressor(compressor)) matches ElementOptions::Compressor(
            options,
        ) && {
            &&& options.threshold == compressor.threshold
            &&& options.ratio == compressor.ratio
            &&& options.attack == compressor.attack_ms * 1_000_000
            &&& options.release == compressor.release_ms * 1_000_000
            &&& options.output_gain == compressor.output_gain
        },
        options_of(AudioFilterSettings::Limiter(limiter)) matches ElementOptions::Limiter(options)
            && {
            &&& options.threshold == limiter.threshold
            &&& options.release == limiter.release_ms * 1_000_000
        },
{
}

/// No two settings in range make the same element: whatever is set otherwise is
/// heard otherwise.
pub proof fn law_other_settings_are_other_options(
    a: AudioFilterSettings,
    b: AudioFilterSettings,
)
    requires
        a != b,
        a matches AudioFilterSettings::NoiseGate(gate) ==> gate.close_threshold
            <= gate.open_threshold,
        b matches AudioFilterSettings::NoiseGate(gate) ==> gate.close_threshold
            <= gate.open_threshold,
        a matches AudioFilterSettings::Compressor(compressor) ==> compressor.ratio >= 1_000_000,
        b matches AudioFilterSettings::Compressor(compressor) ==> compressor.ratio >= 1_000_000,
    ensures
        options_of(a) != options_of(b),
{
}

/// What goes into the rack is decided filter by filter, in order: one that is
/// on follows what is there, and one that is off leaves it as it is.
pub proof fn law_only_what_is_on_goes_in(filters: Seq<AudioFilter>, filter: AudioFilter)
    ensures
        turned_on(Seq::empty()) == Seq::<AudioFilter>::empty(),
        filter.enabled ==> turned_on(filters.push(filter)) == turned_on(filters).push(filter),
        !filter.enabled ==> turned_on(filters.push(filter)) == turned_on(filters),
        shape_of(filters).len() == turned_on(filters).len(),
        forall|i: int|
            0 <= i < shape_of(filters).len() ==> (#[trigger] shape_of(filters)[i]).id
                == turned_on(filters)[i].id,
{
    reveal(Seq::filter);
    let longer = filters.push(filter);
    assert(longer.drop_last() =~= filters);
    assert(longer.last() == filter);
}

/// Filters work in floating point, and noise suppression at 48 kHz: what a
/// capture hands on is converted exactly where it is not that already, and
/// keeps its channels. Without filters nothing is converted.
pub proof fn law_a_capture_is_converted_for_its_filters(
    capture: AudioFormat,
    chain: Seq<AudioFilter>,
    i: int,
)
    requires
        0 <= i < chain.len(),
    ensures
        bridged(capture, Seq::empty()) is None,
        bridged(capture, chain) matches Some(format) ==> format.sample_format == SampleFormat::F32
            && format.channels == capture.channels,
        !(capture.sample_format is F32) ==> bridged(capture, chain) is Some,
        chain[i].settings is NoiseSuppression ==> (bridged(capture, chain) is None
            <==> capture.sample_format is F32 && capture.sample_rate == 48_000),
        chain[i].settings is NoiseSuppression ==> (bridged(capture, chain) matches Some(format)
            ==> format.sample_rate == 48_000),
        (forall|j: int| 0 <= j < chain.len() ==> !((#[trigger] chain[j]).settings
            is NoiseSuppression)) ==> (bridged(capture, chain) is None
            <==> capture.sample_format is F32),
        (forall|j: int| 0 <= j < chain.len() ==> !((#[trigger] chain[j]).settings
            is NoiseSuppression)) ==> (bridged(capture, chain) matches Some(format)
            ==> format.sample_rate == capture.sample_rate),
{
    if chain[i].settings is NoiseSuppression {
        assert(chain[i].settings.of_kind() == AudioFilterKind::NoiseSuppression);
        assert(suppresses(chain));
    }
    if forall|j: int| 0 <= j < chain.len() ==> !((#[trigger] chain[j]).settings
        is NoiseSuppression) {
        assert(!suppresses(chain));
    }
}

/// What is built is what is on, in order, behind the one conversion where there
/// is one: each element named after its filter and given its settings.
pub proof fn law_a_chain_is_its_filters(
    elements: Seq<ChainElement>,
    rack: Seq<char>,
    capture: AudioFormat,
    chain: Seq<AudioFilter>,
    i: int,
)
    requires
        is_chain(elements, rack, capture, chain),
        0 <= i < chain.len(),
    ensures
        bridged(capture, chain) is None ==> elements.len() == chain.len(),
        bridged(capture, chain) is Some ==> elements.len() == chain.len() + 1,
        bridged(capture, chain) matches Some(format) ==> elements[0].name@ == rack
            + "-filter-format"@ && elements[0].options == ElementOptions::Resampler(
            format,
            capture.sample_rate,
        ),
        ({
            let element = elements[elements.len() - chain.len() + i];
            let number = text::decimal_int(chain[i].id.0 as int);
            &&& element.options == options_of(chain[i].settings)
            &&& match chain[i].settings {
                AudioFilterSettings::NoiseSuppression => element.name@ == rack + "-denoise-"@
                    + number,
                AudioFilterSettings::NoiseGate(_) => element.name@ == rack + "-gate-"@ + number,
                AudioFilterSettings::Compressor(_) => element.name@ == rack + "-compressor-"@
                    + number,
                AudioFilterSettings::Limiter(_) => element.name@ == rack + "-limiter-"@ + number,
            }
        }),
{
    let element = elements[elements.len() - chain.len() + i];
    assert(element.name@ == name_of(rack, chain[i]));
}

/// A running element takes settings of its own kind and of no other; noise
/// suppression has none to take.
pub proof fn law_an_element_is_retuned_with_its_own_kind(
    running: Seq<Shaped>,
    i: int,
    settings: AudioFilterSettings,
)
    requires
        0 <= i < running.len(),
        forall|j: int|
            0 <= j < running.len() && j != i ==> (#[trigger] running[j]).id != running[i].id,
    ensures
        tunable(running, running[i].id, settings) <==> match settings {
            AudioFilterSettings::NoiseSuppression => false,
            AudioFilterSettings::NoiseGate(_) => running[i].kind is NoiseGate,
            AudioFilterSettings::Compressor(_) => running[i].kind is Compressor,
            AudioFilterSettings::Limiter(_) => running[i].kind is Limiter,
        },
        !tunable(Seq::empty(), running[i].id, settings),
{
    lemma_tuner(running, i, running.len() as int);
}

proof fn lemma_tuner(running: Seq<Shaped>, i: int, n: int)
    requires
        0 <= i < running.len(),
        0 <= n <= running.len(),
        forall|j: int|
            0 <= j < running.len() && j != i ==> (#[trigger] running[j]).id != running[i].id,
    ensures
        tuner_of(running, running[i].id, n) == (if i < n && running[i].kind
            != AudioFilterKind::NoiseSuppression {
            Some(running[i].kind)
        } else {
            None
        }),
    decreases n,
{
    if n > 0 {
        lemma_tuner(running, i, n - 1);
        if n - 1 != i {
            assert(running[n - 1].id != running[i].id);
        }
    }
}

/// Retuning hands every element that takes it its filter's settings, in order,
/// and nothing to any other.
pub proof fn law_every_element_that_takes_it_is_retuned(
    running: Seq<Shaped>,
    filters: Seq<AudioFilter>,
    filter: AudioFilter,
)
    ensures
        ({
            let n = filters.len() as int;
            let after = tunings(running, filters.push(filter), n + 1);
            let before = tunings(running, filters, n);
            &&& tunable(running, filter.id, filter.settings) ==> after == before.push(
                Tuning { id: filter.id, options: options_of(filter.settings) },
            )
            &&& !tunable(running, filter.id, filter.settings) ==> after == before
        }),
        tunings(running, filters, 0).len() == 0,
{
    lemma_tunings_on(running, filters, filter, filters.len() as int);
}

proof fn lemma_tunings_on(
    running: Seq<Shaped>,
    filters: Seq<AudioFilter>,
    filter: AudioFilter,
    n: int,
)
    requires
        0 <= n <= filters.len(),
    ensures
        tunings(running, filters.push(filter), n) == tunings(running, filters, n),
    decreases n,
{
    if n > 0 {
        lemma_tunings_on(running, filters, filter, n - 1);
        assert(filters.push(filter)[n - 1] == filters[n - 1]);
    }
}

} // verus!
