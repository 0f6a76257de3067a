//! The recording and the broadcast: which is running, what is told of it, and
//! what happens when one of them fails.
//!
//! Moments are nanoseconds on the engine's own clock.
use vstd::prelude::*;

use crate::settings::{RecordingAudioCodec, RecordingSettings, StreamingSettings};

verus! {

/// Where the broadcast stands.
#[derive(Clone, Copy, Debug, PartialEq, Eq, Structural)]
pub enum Broadcast {
    Off,
    /// Asked for, and not answered yet.
    Connecting,
    Live,
    /// Dropped, and to be tried again.
    Waiting { retry_at: u64 },
}

impl Broadcast {
    /// Whether anyone still wants it.
    pub open spec fn is_wanted(&self) -> bool {
        !(self is Off)
    }

    /// Whether anyone still wants it.
    pub fn wanted(&self) -> (r: bool)
        ensures
            r == self.is_wanted(),
    {
        match self {
            Broadcast::Off => false,
            _ => true,
        }
    }
}

/// What an output is opened from, and which are open.
pub struct OutputState {
    /// What the next recording is written as.
    pub settings: RecordingSettings,
    /// Where the next broadcast is published, and how.
    pub streaming: StreamingSettings,
    /// The audio codecs that can be opened here.
    pub audio_codecs: Vec<RecordingAudioCodec>,
    /// Whether a recording is running.
    pub running: bool,
    pub broadcast: Broadcast,
}

/// What is shown of the outputs.
pub struct Published {
    /// When the running recording started, moved on by every pause.
    pub recording_since: Option<u64>,
    /// When the running recording was paused, where it is.
    pub recording_paused_at: Option<u64>,
    /// Why the last recording failed, where it did.
    pub recording_error: Option<String>,
    /// When the running broadcast went live.
    pub streaming_since: Option<u64>,
    /// Why the last broadcast failed, where it did.
    pub streaming_error: Option<String>,
    /// Whether a dropped broadcast is to be tried again.
    pub streaming_reconnecting: bool,
}

/// What is asked of whatever runs the outputs.
#[derive(Clone, Copy, Debug, PartialEq, Eq, Structural)]
pub enum OutputAction {
    /// Connect a broadcast, at this rate.
    Connect(u32),
    /// End the broadcast that is live.
    StopBroadcast,
    /// End a broadcast that connected after nobody wanted it any more.
    DiscardBroadcast,
    StartRecording,
    SetRecordingPaused(bool),
    StopRecording,
    /// Make the compositor run at this rate.
    SetFrameRate(u32),
    /// Find out which audio codecs can be opened now.
    ProbeAudioCodecs,
    SetPreviewVisible(bool),
}

/// What a running output reported of itself.
pub enum Trouble {
    Broadcast(String),
    Recording(String),
}

impl Published {
    /// Nothing shown yet.
    pub fn new() -> (r: Self)
        ensures
            r.recording_since is None,
            r.recording_paused_at is None,
            r.recording_error is None,
            r.streaming_since is None,
            r.streaming_error is None,
            !r.streaming_reconnecting,
    {
        Published {
            recording_since: None,
            recording_paused_at: None,
            recording_error: None,
            streaming_since: None,
            streaming_error: None,
            streaming_reconnecting: false,
        }
    }

    /// No moment shown is in the future, and a pause comes after its start.
    pub open spec fn timely(&self, now: u64) -> bool {
        &&& self.recording_since matches Some(since) ==> since <= now
        &&& self.recording_paused_at matches Some(paused) ==> paused <= now
        &&& self.streaming_since matches Some(since) ==> since <= now
        &&& (self.recording_since matches Some(since) && self.recording_paused_at matches Some(
            paused,
        )) ==> self.recording_since->0 <= self.recording_paused_at->0
    }

    /// How long the running recording's file is.
    pub open spec fn recorded(&self, now: u64) -> Option<int> {
        match self.recording_since {
            None => None,
            Some(since) => {
                let until = match self.recording_paused_at {
                    Some(paused) => paused,
                    None => now,
                };
                Some(if until >= since {
                    until - since
                } else {
                    0
                })
            },
        }
    }

    /// How long the running recording's file is, which leaves every pause out.
    pub fn recording(&self, now: u64) -> (r: Option<u64>)
        ensures
            r is Some <==> self.recorded(now) is Some,
            r matches Some(length) ==> self.recorded(now) == Some(length as int),
    {
        match self.recording_since {
            None => None,
            Some(since) => match self.recording_paused_at {
                Some(paused) => Some(paused.saturating_sub(since)),
                None => Some(now.saturating_sub(since)),
            },
        }
    }

    /// How long the running broadcast has been live.
    pub fn streaming(&self, now: u64) -> (r: Option<u64>)
        ensures
            r == (match self.streaming_since {
                None => None,
                Some(since) => Some(
                    if now >= since {
                        (now - since) as u64
                    } else {
                        0
                    },
                ),
            }),
    {
        match self.streaming_since {
            None => None,
            Some(since) => Some(now.saturating_sub(since)),
        }
    }
}

impl OutputState {
    /// Whether the moment a dropped broadcast would be tried again at can be
    /// written down.
    pub open spec fn can_wait(&self, now: u64) -> bool {
        self.streaming.reconnect matches Some(interval) ==> now + interval <= u64::MAX
    }
}

/// The outputs and what is shown of them, together with what has been asked
/// for so far.
pub struct Outputs {
    pub state: OutputState,
    pub published: Published,
}

impl Outputs {
    /// The outputs once a connect has been asked for: nothing changes where
    /// one is on its way or live already.
    pub open spec fn requested(self) -> Outputs {
        if self.state.broadcast is Connecting || self.state.broadcast is Live {
            self
        } else {
            Outputs {
                state: OutputState { broadcast: Broadcast::Connecting, ..self.state },
                published: Published { streaming_reconnecting: false, ..self.published },
            }
        }
    }

    /// What asking for a connect comes to.
    pub open spec fn request_actions(self, fps: u32) -> Seq<OutputAction> {
        if self.state.broadcast is Connecting || self.state.broadcast is Live {
            Seq::empty()
        } else {
            seq![OutputAction::Connect(fps)]
        }
    }

    /// The outputs once there is no broadcast any more: it waits to be tried
    /// again where the settings ask for that and someone still wants it, and
    /// is off otherwise.
    pub open spec fn dropped(self, now: u64) -> Outputs {
        match self.state.streaming.reconnect {
            Some(interval) if self.state.broadcast.is_wanted() => Outputs {
                state: OutputState {
                    broadcast: Broadcast::Waiting { retry_at: (now + interval) as u64 },
                    ..self.state
                },
                published: Published {
                    streaming_since: None,
                    streaming_reconnecting: true,
                    ..self.published
                },
            },
            _ => Outputs {
                state: OutputState { broadcast: Broadcast::Off, ..self.state },
                published: Published {
                    streaming_since: None,
                    streaming_reconnecting: false,
                    ..self.published
                },
            },
        }
    }

    /// The outputs once a failure of the broadcast is shown.
    pub open spec fn broadcast_failed(self, reason: String, now: u64) -> Outputs {
        Outputs {
            published: Published { streaming_error: Some(reason), ..self.published },
            ..self
        }.dropped(now)
    }

    /// The outputs once a connect has been answered.
    pub open spec fn connected(self, opened: Result<(), String>, now: u64) -> Outputs {
        match opened {
            Ok(_) => if self.state.broadcast.is_wanted() {
                Outputs {
                    state: OutputState { broadcast: Broadcast::Live, ..self.state },
                    published: Published {
                        streaming_since: Some(now),
                        streaming_reconnecting: false,
                        streaming_error: None,
                        ..self.published
                    },
                }
            } else {
                self
            },
            Err(reason) => self.broadcast_failed(reason, now),
        }
    }

    /// The outputs once one report has been acted on.
    ///
    /// Both tracks of a broadcast go at once, so it reports twice; the second
    /// finds nothing live and changes nothing.
    pub open spec fn troubled(self, trouble: Trouble, now: u64) -> Outputs {
        match trouble {
            Trouble::Broadcast(reason) => if self.state.broadcast is Live {
                self.broadcast_failed(reason, now)
            } else {
                self
            },
            Trouble::Recording(reason) => Outputs {
                state: OutputState { running: false, ..self.state },
                published: Published {
                    recording_since: None,
                    recording_paused_at: None,
                    recording_error: Some(reason),
                    ..self.published
                },
            },
        }
    }

    /// What acting on one report asks for.
    pub open spec fn trouble_actions(self, trouble: Trouble) -> Seq<OutputAction> {
        match trouble {
            Trouble::Broadcast(_) => if self.state.broadcast is Live {
                seq![OutputAction::StopBroadcast]
            } else {
                Seq::empty()
            },
            Trouble::Recording(_) => if self.state.running {
                seq![OutputAction::StopRecording]
            } else {
                Seq::empty()
            },
        }
    }

    /// The outputs once the first `n` reports have been acted on.
    pub open spec fn all_troubled(self, troubles: Seq<Trouble>, now: u64, n: int) -> Outputs
        decreases n,
    {
        if n <= 0 {
            self
        } else {
            self.all_troubled(troubles, now, n - 1).troubled(troubles[n - 1], now)
        }
    }

    /// What acting on the first `n` reports asks for.
    pub open spec fn all_trouble_actions(self, troubles: Seq<Trouble>, now: u64, n: int) -> Seq<
        OutputAction,
    >
        decreases n,
    {
        if n <= 0 {
            Seq::empty()
        } else {
            self.all_trouble_actions(troubles, now, n - 1) + self.all_troubled(
                troubles,
                now,
                n - 1,
            ).trouble_actions(troubles[n - 1])
        }
    }

    /// Whether a broadcast has waited long enough to be tried again.
    pub open spec fn retry_due(self, now: u64) -> bool {
        self.state.broadcast matches Broadcast::Waiting { retry_at } && now >= retry_at
    }

    /// The outputs once everything reported has been acted on, and a broadcast
    /// whose wait is over has been asked for again.
    pub open spec fn watched(self, troubles: Seq<Trouble>, now: u64) -> Outputs {
        let after = self.all_troubled(troubles, now, troubles.len() as int);
        if after.retry_due(now) {
            after.requested()
        } else {
            after
        }
    }

    /// What watching the outputs asks for.
    pub open spec fn watch_actions(self, troubles: Seq<Trouble>, now: u64, fps: u32) -> Seq<
        OutputAction,
    > {
        let after = self.all_troubled(troubles, now, troubles.len() as int);
        self.all_trouble_actions(troubles, now, troubles.len() as int) + (if after.retry_due(now) {
            after.request_actions(fps)
        } else {
            Seq::empty()
        })
    }

    /// Asks for a connect, unless one is on its way or live already.
    pub fn request_broadcast(&mut self, fps: u32) -> (actions: Vec<OutputAction>)
        ensures
            *final(self) == old(self).requested(),
            actions@ == old(self).request_actions(fps),
    {
        let mut actions: Vec<OutputAction> = Vec::new();
        match self.state.broadcast {
            Broadcast::Connecting | Broadcast::Live => {},
            _ => {
                self.state.broadcast = Broadcast::Connecting;
                self.published.streaming_reconnecting = false;
                actions.push(OutputAction::Connect(fps));
            },
        }
        proof {
            assert(actions@ =~= old(self).request_actions(fps));
        }
        actions
    }

    /// Puts the broadcast into whichever state a failure leaves it in.
    pub fn broadcast_dropped(&mut self, now: u64)
        requires
            old(self).state.can_wait(now),
        ensures
            *final(self) == old(self).dropped(now),
    {
        self.published.streaming_since = None;
        let wanted: bool = self.state.broadcast.wanted();
        match self.state.streaming.reconnect {
            Some(interval) if wanted => {
                self.state.broadcast = Broadcast::Waiting { retry_at: now + interval };
                self.published.streaming_reconnecting = true;
            },
            _ => {
                self.state.broadcast = Broadcast::Off;
                self.published.streaming_reconnecting = false;
            },
        }
    }

    /// Takes what a connect came out as. A broadcast that arrives after Stop
    /// was pressed is ended again rather than shown.
    pub fn finish_broadcast(&mut self, opened: Result<(), String>, now: u64) -> (actions: Vec<
        OutputAction,
    >)
        requires
            old(self).state.can_wait(now),
        ensures
            *final(self) == old(self).connected(opened, now),
            actions@ == (if opened is Ok && !old(self).state.broadcast.is_wanted() {
                seq![OutputAction::DiscardBroadcast]
            } else {
                Seq::empty()
            }),
    {
        let mut actions: Vec<OutputAction> = Vec::new();
        match opened {
            Ok(_) => {
                if self.state.broadcast.wanted() {
                    self.state.broadcast = Broadcast::Live;
                    self.published.streaming_since = Some(now);
                    self.published.streaming_reconnecting = false;
                    self.published.streaming_error = None;
                } else {
                    actions.push(OutputAction::DiscardBroadcast);
                    proof {
                        assert(actions@ =~= seq![OutputAction::DiscardBroadcast]);
                    }
                }
            },
            Err(reason) => {
                self.published.streaming_error = Some(reason);
                self.broadcast_dropped(now);
            },
        }
        actions
    }

    /// Acts on one report.
    pub fn take_trouble(&mut self, trouble: &Trouble, now: u64) -> (actions: Vec<OutputAction>)
        requires
            old(self).state.can_wait(now),
        ensures
            *final(self) == old(self).troubled(*trouble, now),
            actions@ == old(self).trouble_actions(*trouble),
    {
        let mut actions: Vec<OutputAction> = Vec::new();
        match trouble {
            Trouble::Broadcast(reason) => {
                if let Broadcast::Live = self.state.broadcast {
                    actions.push(OutputAction::StopBroadcast);
                    self.published.streaming_error = Some(reason.clone());
                    self.broadcast_dropped(now);
                }
            },
            Trouble::Recording(reason) => {
                self.published.recording_since = None;
                self.published.recording_paused_at = None;
                if self.state.running {
                    self.state.running = false;
                    actions.push(OutputAction::StopRecording);
                }
                self.published.recording_error = Some(reason.clone());
            },
        }
        proof {
            assert(actions@ =~= old(self).trouble_actions(*trouble));
        }
        actions
    }

    /// Acts on what the outputs reported, and tries a broadcast again whose
    /// wait is over.
    pub fn watch_outputs(&mut self, troubles: &Vec<Trouble>, now: u64, fps: u32) -> (actions: Vec<
        OutputAction,
    >)
        requires
            old(self).state.can_wait(now),
        ensures
            *final(self) == old(self).watched(troubles@, now),
            actions@ == old(self).watch_actions(troubles@, now, fps),
            old(self).published.timely(now) ==> final(self).published.timely(now),
    {
        let mut actions: Vec<OutputAction> = Vec::new();
        let mut i: usize = 0;
        while i < troubles.len()
            invariant
                i <= troubles@.len(),
                self.state.can_wait(now),
                old(self).published.timely(now) ==> self.published.timely(now),
                *self == old(self).all_troubled(troubles@, now, i as int),
                actions@ == old(self).all_trouble_actions(troubles@, now, i as int),
            decreases troubles@.len() - i,
        {
            let ghost acted = actions@;
            let mut more = self.take_trouble(&troubles[i], now);
            actions.append(&mut more);
            i = i + 1;
        }
        let due: bool = match self.state.broadcast {
            Broadcast::Waiting { retry_at } => now >= retry_at,
            _ => false,
        };
        if due {
            let mut more = self.request_broadcast(fps);
            actions.append(&mut more);
        }
        proof {
            assert(actions@ =~= old(self).watch_actions(troubles@, now, fps));
        }
        actions
    }
}

/// What is shown when a recording is asked for while one runs.
pub const ALREADY_RECORDING: &'static str = "a recording is already running";

impl Outputs {
    /// The outputs once a recording that started is shown.
    pub open spec fn recording_opened(self, opened: Result<(), String>, now: u64) -> Outputs {
        match opened {
            Ok(_) => Outputs {
                state: OutputState { running: true, ..self.state },
                published: Published { recording_since: Some(now), ..self.published },
            },
            Err(reason) => Outputs {
                published: Published { recording_error: Some(reason), ..self.published },
                ..self
            },
        }
    }

    /// The outputs once a pause has been asked for or taken back. Pausing
    /// stops the clock where it is; resuming moves its start on by however
    /// long the pause lasted.
    pub open spec fn paused(self, paused: bool, now: u64) -> Outputs {
        if !self.state.running {
            self
        } else {
            Outputs {
                published: Published {
                    recording_paused_at: if paused {
                        if self.published.recording_paused_at is None {
                            Some(now)
                        } else {
                            self.published.recording_paused_at
                        }
                    } else {
                        None
                    },
                    recording_since: match (
                        self.published.recording_since,
                        self.published.recording_paused_at,
                    ) {
                        (Some(since), Some(at)) if !paused => Some((since + (now - at)) as u64),
                        _ => self.published.recording_since,
                    },
                    ..self.published
                },
                ..self
            }
        }
    }

    /// The outputs once the recording has been ended.
    pub open spec fn recording_ended(self) -> Outputs {
        Outputs {
            state: OutputState { running: false, ..self.state },
            published: Published {
                recording_since: None,
                recording_paused_at: None,
                ..self.published
            },
        }
    }

    /// The outputs once the broadcast has been ended, and with it a connect on
    /// its way and a retry that was pending.
    pub open spec fn streaming_ended(self) -> Outputs {
        Outputs {
            state: OutputState { broadcast: Broadcast::Off, ..self.state },
            published: Published {
                streaming_since: None,
                streaming_reconnecting: false,
                ..self.published
            },
        }
    }

    /// The outputs once a recording has been asked for, and why it is refused
    /// where it is. A recording that runs goes on as it was, paused where it
    /// was paused.
    pub open spec fn asked_to_record(self, refusal: Option<String>) -> Outputs {
        Outputs {
            published: Published {
                recording_error: refusal,
                recording_paused_at: if self.state.running {
                    self.published.recording_paused_at
                } else {
                    None
                },
                ..self.published
            },
            ..self
        }
    }

    /// The outputs with nothing said of an earlier failure of the broadcast.
    pub open spec fn streaming_cleared(self) -> Outputs {
        Outputs { published: Published { streaming_error: None, ..self.published }, ..self }
    }

    /// Asks for a recording, unless one is running already, which then goes on
    /// as it was. What was shown of an earlier attempt is cleared first.
    pub fn start_recording(&mut self) -> (actions: Vec<OutputAction>)
        ensures
            *final(self) == old(self).asked_to_record(final(self).published.recording_error),
            old(self).state.running ==> (final(self).published.recording_error matches Some(reason)
                && reason@ == ALREADY_RECORDING@),
            !old(self).state.running ==> final(self).published.recording_error is None,
            actions@ == (if old(self).state.running {
                Seq::empty()
            } else {
                seq![OutputAction::StartRecording]
            }),
    {
        let mut actions: Vec<OutputAction> = Vec::new();
        if self.state.running {
            self.published.recording_error = Some(ALREADY_RECORDING.to_owned());
        } else {
            self.published.recording_error = None;
            self.published.recording_paused_at = None;
            actions.push(OutputAction::StartRecording);
        }
        proof {
            assert(!old(self).state.running ==> actions@ =~= seq![OutputAction::StartRecording]);
        }
        actions
    }

    /// Takes what became of starting a recording. The moment is shown only
    /// where it worked.
    pub fn recording_started(&mut self, opened: Result<(), String>, now: u64)
        ensures
            *final(self) == old(self).recording_opened(opened, now),
    {
        match opened {
            Ok(_) => {
                self.state.running = true;
                self.published.recording_since = Some(now);
            },
            Err(reason) => {
                self.published.recording_error = Some(reason);
            },
        }
    }

    /// Pauses or resumes the running recording.
    pub fn pause_recording(&mut self, paused: bool, now: u64) -> (actions: Vec<OutputAction>)
        requires
            old(self).published.timely(now),
        ensures
            *final(self) == old(self).paused(paused, now),
            final(self).published.timely(now),
            actions@ == (if old(self).state.running {
                seq![OutputAction::SetRecordingPaused(paused)]
            } else {
                Seq::empty()
            }),
    {
        let mut actions: Vec<OutputAction> = Vec::new();
        if !self.state.running {
            return actions;
        }
        actions.push(OutputAction::SetRecordingPaused(paused));
        match self.published.recording_paused_at {
            None => {
                if paused {
                    self.published.recording_paused_at = Some(now);
                }
            },
            Some(at) => {
                if !paused {
                    match self.published.recording_since {
                        Some(since) => {
                            self.published.recording_since = Some(since + (now - at));
                        },
                        None => {},
                    }
                    self.published.recording_paused_at = None;
                }
            },
        }
        proof {
            assert(actions@ =~= seq![OutputAction::SetRecordingPaused(paused)]);
        }
        actions
    }

    /// Ends the recording. The clock is cleared whatever comes of it.
    pub fn stop_recording(&mut self) -> (actions: Vec<OutputAction>)
        ensures
            *final(self) == old(self).recording_ended(),
            actions@ == (if old(self).state.running {
                seq![OutputAction::StopRecording]
            } else {
                Seq::empty()
            }),
    {
        let mut actions: Vec<OutputAction> = Vec::new();
        self.published.recording_since = None;
        self.published.recording_paused_at = None;
        if self.state.running {
            self.state.running = false;
            actions.push(OutputAction::StopRecording);
            proof {
                assert(actions@ =~= seq![OutputAction::StopRecording]);
            }
        }
        actions
    }

    /// Keeps what the next recording is written as. The compositor follows the
    /// rate, but not while a recording made at another is running.
    pub fn set_recording_settings(&mut self, settings: RecordingSettings, frame_rate: u32) -> (
        actions: Vec<OutputAction>)
        ensures
            *final(self) == (Outputs {
                state: OutputState { settings, ..old(self).state },
                ..*old(self)
            }),
            actions@ == (if !old(self).state.running && settings.fps != frame_rate {
                seq![OutputAction::SetFrameRate(settings.fps), OutputAction::ProbeAudioCodecs]
            } else {
                seq![OutputAction::ProbeAudioCodecs]
            }),
    {
        let mut actions: Vec<OutputAction> = Vec::new();
        let change: bool = !self.state.running && settings.fps != frame_rate;
        if change {
            actions.push(OutputAction::SetFrameRate(settings.fps));
        }
        actions.push(OutputAction::ProbeAudioCodecs);
        proof {
            if change {
                assert(actions@ =~= seq![
                    OutputAction::SetFrameRate(settings.fps),
                    OutputAction::ProbeAudioCodecs,
                ]);
            } else {
                assert(actions@ =~= seq![OutputAction::ProbeAudioCodecs]);
            }
        }
        self.state.settings = settings;
        actions
    }

    /// Asks for a broadcast, with nothing said of an earlier failure.
    pub fn start_streaming(&mut self, fps: u32) -> (actions: Vec<OutputAction>)
        ensures
            *final(self) == old(self).streaming_cleared().requested(),
            actions@ == old(self).request_actions(fps),
    {
        self.published.streaming_error = None;
        self.request_broadcast(fps)
    }

    /// Ends the broadcast, a connect on its way, and any retry.
    pub fn stop_streaming(&mut self) -> (actions: Vec<OutputAction>)
        ensures
            *final(self) == old(self).streaming_ended(),
            actions@ == (if old(self).state.broadcast is Live {
                seq![OutputAction::StopBroadcast]
            } else {
                Seq::empty()
            }),
    {
        let mut actions: Vec<OutputAction> = Vec::new();
        self.published.streaming_since = None;
        self.published.streaming_reconnecting = false;
        if let Broadcast::Live = self.state.broadcast {
            actions.push(OutputAction::StopBroadcast);
            proof {
                assert(actions@ =~= seq![OutputAction::StopBroadcast]);
            }
        }
        self.state.broadcast = Broadcast::Off;
        actions
    }
}

/// The second report of a broadcast that went is not acted on: it neither
/// replaces the reason shown nor starts the wait over.
pub proof fn law_a_broadcast_drops_once(
    outputs: Outputs,
    first: String,
    second: String,
    at: u64,
    later: u64,
)
    ensures
        outputs.troubled(Trouble::Broadcast(first), at).troubled(
            Trouble::Broadcast(second),
            later,
        ) == outputs.troubled(Trouble::Broadcast(first), at),
        outputs.troubled(Trouble::Broadcast(first), at).trouble_actions(
            Trouble::Broadcast(second),
        ) == Seq::<OutputAction>::empty(),
{
}

/// Pressing Start twice opens one broadcast: the second press changes nothing
/// and asks for nothing.
pub proof fn law_a_broadcast_is_asked_for_once(outputs: Outputs, fps: u32)
    ensures
        outputs.requested().requested() == outputs.requested(),
        outputs.requested().request_actions(fps) == Seq::<OutputAction>::empty(),
{
}

/// A broadcast that connects after Stop was pressed is not shown: the outputs
/// stay as Stop left them.
pub proof fn law_stop_wins_over_a_late_connect(outputs: Outputs, now: u64)
    ensures
        outputs.streaming_ended().connected(Ok(()), now) == outputs.streaming_ended(),
{
}

/// What Stop left off is not tried again by a failure that comes later.
pub proof fn law_stop_cancels_the_retry(outputs: Outputs, reason: String, now: u64, later: u64)
    ensures
        outputs.streaming_ended().connected(Err(reason), now).state.broadcast is Off,
        !outputs.streaming_ended().connected(Err(reason), now).retry_due(later),
{
}

/// A dropped broadcast that is to be tried again is shown as reconnecting, for
/// exactly as long as it waits.
pub open spec fn shows_the_wait(outputs: Outputs) -> bool {
    outputs.published.streaming_reconnecting <==> outputs.state.broadcast is Waiting
}

/// A broadcast is shown as live exactly while it is.
pub open spec fn shows_what_is_live(outputs: Outputs) -> bool {
    outputs.published.streaming_since is Some <==> outputs.state.broadcast is Live
}

/// Whatever happens to the broadcast, what is shown of it is what it is: a
/// clock while it is live, and a notice while it waits to be tried again.
pub proof fn law_what_is_shown_of_a_broadcast_is_true(
    outputs: Outputs,
    opened: Result<(), String>,
    trouble: Trouble,
    now: u64,
)
    requires
        shows_the_wait(outputs),
        shows_what_is_live(outputs),
    ensures
        shows_the_wait(outputs.requested()) && shows_what_is_live(outputs.requested()),
        shows_the_wait(outputs.connected(opened, now)),
        shows_what_is_live(outputs.connected(opened, now)),
        shows_the_wait(outputs.troubled(trouble, now)),
        shows_what_is_live(outputs.troubled(trouble, now)),
        shows_the_wait(outputs.streaming_ended()),
        shows_what_is_live(outputs.streaming_ended()),
{
}

/// The clock of a recording counts the file: a pause is not in it. Paused at
/// one moment and resumed at another, it reads what it read at the first plus
/// what has passed since the second.
pub proof fn law_a_pause_is_not_recorded(
    outputs: Outputs,
    since: u64,
    pause: u64,
    resume: u64,
    now: u64,
)
    requires
        outputs.state.running,
        outputs.published.recording_since == Some(since),
        outputs.published.recording_paused_at is None,
        since <= pause <= resume <= now,
    ensures
        outputs.paused(true, pause).published.recorded(now) == Some(pause - since),
        outputs.paused(true, pause).paused(false, resume).published.recorded(now) == Some(
            (pause - since) + (now - resume),
        ),
{
}

/// A recording is shown as running exactly while it is, and as paused only
/// while one is running.
pub open spec fn shows_the_recording(outputs: Outputs) -> bool {
    &&& outputs.published.recording_since is Some <==> outputs.state.running
    &&& outputs.published.recording_paused_at is Some ==> outputs.state.running
}

/// What is shown of a recording is true, wherever it was before, through every
/// start, pause, stop and failure: it is shown as running exactly while it is,
/// and as paused from when it was paused until it is resumed or over.
pub proof fn law_what_is_shown_of_a_recording_is_true(
    outputs: Outputs,
    refusal: Option<String>,
    opened: Result<(), String>,
    trouble: Trouble,
    now: u64,
)
    requires
        shows_the_recording(outputs),
        outputs.state.running ==> opened is Err,
    ensures
        shows_the_recording(outputs.asked_to_record(refusal)),
        shows_the_recording(outputs.recording_opened(opened, now)),
        shows_the_recording(outputs.troubled(trouble, now)),
        shows_the_recording(outputs.recording_ended()),
        shows_the_recording(outputs.paused(true, now)),
        shows_the_recording(outputs.paused(false, now)),
        outputs.state.running ==> outputs.paused(true, now).published.recording_paused_at is Some,
        outputs.paused(false, now).published.recording_paused_at is None,
        trouble is Broadcast ==> outputs.troubled(trouble, now).published.recording_paused_at
            == outputs.published.recording_paused_at,
{
}

/// A start that is refused because a recording is running leaves that one as
/// it is: it is shown as it was, paused where it was, and its clock reads the
/// same.
pub proof fn law_a_refused_start_disturbs_nothing(
    outputs: Outputs,
    refusal: Option<String>,
    now: u64,
)
    requires
        outputs.state.running,
    ensures
        ({
            let after = outputs.asked_to_record(refusal);
            &&& after.state == outputs.state
            &&& after.published.recording_since == outputs.published.recording_since
            &&& after.published.recording_paused_at == outputs.published.recording_paused_at
            &&& after.published.recorded(now) == outputs.published.recorded(now)
        }),
{
}

/// A connect that is asked for is asked for once and at the rate that is
/// composited: where nothing is on its way and nothing is live it is on its way
/// now, and otherwise nothing is asked.
pub proof fn law_asking_for_a_broadcast_connects_one(outputs: Outputs, fps: u32)
    ensures
        outputs.state.broadcast is Off || outputs.state.broadcast is Waiting ==> {
            &&& outputs.requested().state.broadcast == Broadcast::Connecting
            &&& !outputs.requested().published.streaming_reconnecting
            &&& outputs.request_actions(fps) == seq![OutputAction::Connect(fps)]
        },
        outputs.state.broadcast is Connecting || outputs.state.broadcast is Live ==> {
            &&& outputs.requested() == outputs
            &&& outputs.request_actions(fps).len() == 0
        },
{
}

/// A broadcast that connects while it is wanted is live from that moment, with
/// nothing said of an earlier failure; and how long it has been live counts
/// from there.
pub proof fn law_a_broadcast_that_connects_is_live(outputs: Outputs, now: u64)
    requires
        outputs.state.broadcast is Connecting,
    ensures
        ({
            let after = outputs.connected(Ok(()), now);
            &&& after.state.broadcast == Broadcast::Live
            &&& after.published.streaming_since == Some(now)
            &&& after.published.streaming_error is None
            &&& !after.published.streaming_reconnecting
        }),
{
}

/// A broadcast that fails says why, whether it never connected or dropped while
/// it was live: it is tried again once as long has passed as the settings say,
/// and is off for good where they say it is given up.
pub proof fn law_a_broadcast_that_fails_waits_as_long_as_was_set(
    outputs: Outputs,
    reason: String,
    now: u64,
)
    requires
        outputs.state.broadcast is Connecting || outputs.state.broadcast is Live,
        outputs.state.streaming.reconnect matches Some(interval) ==> now + interval
            <= 0xffff_ffff_ffff_ffff,
    ensures
        ({
            let after = if outputs.state.broadcast is Live {
                outputs.troubled(Trouble::Broadcast(reason), now)
            } else {
                outputs.connected(Err(reason), now)
            };
            &&& after.published.streaming_error == Some(reason)
            &&& after.published.streaming_since is None
            &&& outputs.state.streaming.reconnect matches Some(interval) ==> {
                &&& after.state.broadcast is Waiting
                &&& after.state.broadcast->retry_at == now + interval
                &&& after.published.streaming_reconnecting
            }
            &&& outputs.state.streaming.reconnect is None ==> {
                &&& after.state.broadcast == Broadcast::Off
                &&& !after.published.streaming_reconnecting
            }
            &&& outputs.state.broadcast is Live ==> outputs.trouble_actions(
                Trouble::Broadcast(reason),
            ) == seq![OutputAction::StopBroadcast]
        }),
{
}

/// A broadcast waits exactly until its time: before it nothing is asked, and
/// from then on it is connected again.
pub proof fn law_a_waiting_broadcast_is_tried_when_its_time_comes(
    outputs: Outputs,
    retry_at: u64,
    now: u64,
    fps: u32,
)
    requires
        outputs.state.broadcast == (Broadcast::Waiting { retry_at }),
    ensures
        now < retry_at ==> outputs.watched(Seq::empty(), now) == outputs && outputs.watch_actions(
            Seq::empty(),
            now,
            fps,
        ).len() == 0,
        now >= retry_at ==> outputs.watched(Seq::empty(), now).state.broadcast
            == Broadcast::Connecting && outputs.watch_actions(Seq::empty(), now, fps) == seq![
            OutputAction::Connect(fps),
        ],
{
    reveal_with_fuel(Outputs::all_troubled, 1);
    reveal_with_fuel(Outputs::all_trouble_actions, 1);
    if now >= retry_at {
        assert(outputs.watch_actions(Seq::empty(), now, fps) =~= seq![OutputAction::Connect(fps)]);
    }
}

/// A recording that fails is over and says why, and is ended where it was
/// running.
pub proof fn law_a_recording_that_fails_is_over(outputs: Outputs, reason: String, now: u64)
    ensures
        ({
            let after = outputs.troubled(Trouble::Recording(reason), now);
            &&& !after.state.running
            &&& after.published.recording_since is None
            &&& after.published.recording_paused_at is None
            &&& after.published.recording_error == Some(reason)
            &&& after.state.broadcast == outputs.state.broadcast
            &&& after.published.streaming_since == outputs.published.streaming_since
            &&& after.published.streaming_error == outputs.published.streaming_error
        }),
        outputs.state.running ==> outputs.trouble_actions(Trouble::Recording(reason)) == seq![
            OutputAction::StopRecording,
        ],
        !outputs.state.running ==> outputs.trouble_actions(Trouble::Recording(reason)).len() == 0,
{
}

/// Reports are acted on one after another, each on what the ones before it
/// left: acting on two lists is acting on the first and then on the second.
pub proof fn law_reports_are_acted_on_in_turn(
    outputs: Outputs,
    first: Seq<Trouble>,
    second: Seq<Trouble>,
    one: Trouble,
    now: u64,
)
    ensures
        outputs.all_troubled(first + second, now, (first.len() + second.len()) as int)
            == outputs.all_troubled(first, now, first.len() as int).all_troubled(
            second,
            now,
            second.len() as int,
        ),
        outputs.all_trouble_actions(first + second, now, (first.len() + second.len()) as int)
            == outputs.all_trouble_actions(first, now, first.len() as int) + outputs.all_troubled(
            first,
            now,
            first.len() as int,
        ).all_trouble_actions(second, now, second.len() as int),
        outputs.all_troubled(seq![one], now, 1) == outputs.troubled(one, now),
        outputs.all_trouble_actions(seq![one], now, 1) == outputs.trouble_actions(one),
{
    lemma_reports_on(outputs, first, second, now, second.len() as int);
    reveal_with_fuel(Outputs::all_troubled, 2);
    reveal_with_fuel(Outputs::all_trouble_actions, 2);
    assert(seq![one][0] == one);
    assert(outputs.all_trouble_actions(seq![one], now, 1) =~= outputs.trouble_actions(one));
}

proof fn lemma_reports_on(
    outputs: Outputs,
    first: Seq<Trouble>,
    second: Seq<Trouble>,
    now: u64,
    n: int,
)
    requires
        0 <= n <= second.len(),
    ensures
        ({
            let x = first.len() as int;
            let after = outputs.all_troubled(first, now, x);
            &&& outputs.all_troubled(first + second, now, x + n) == after.all_troubled(
                second,
                now,
                n,
            )
            &&& outputs.all_trouble_actions(first + second, now, x + n)
                == outputs.all_trouble_actions(first, now, x) + after.all_trouble_actions(
                second,
                now,
                n,
            )
        }),
    decreases n,
{
    let x = first.len() as int;
    let all = first + second;
    let after = outputs.all_troubled(first, now, x);
    if n > 0 {
        lemma_reports_on(outputs, first, second, now, n - 1);
        assert(all[x + n - 1] == second[n - 1]);
        assert(outputs.all_trouble_actions(all, now, x + n) =~= outputs.all_trouble_actions(
            first,
            now,
            x,
        ) + after.all_trouble_actions(second, now, n));
    } else {
        lemma_reports_first(outputs, first, all, now, x);
        assert(outputs.all_trouble_actions(all, now, x) =~= outputs.all_trouble_actions(
            first,
            now,
            x,
        ) + after.all_trouble_actions(second, now, 0));
    }
}

proof fn lemma_reports_first(
    outputs: Outputs,
    some: Seq<Trouble>,
    all: Seq<Trouble>,
    now: u64,
    n: int,
)
    requires
        n <= some.len() <= all.len(),
        forall|i: int| 0 <= i < n ==> #[trigger] all[i] == some[i],
    ensures
        outputs.all_troubled(all, now, n) == outputs.all_troubled(some, now, n),
        outputs.all_trouble_actions(all, now, n) == outputs.all_trouble_actions(some, now, n),
    decreases n,
{
    if n > 0 {
        lemma_reports_first(outputs, some, all, now, n - 1);
        assert(all[n - 1] == some[n - 1]);
    }
}

/// A recording that starts runs from that moment, and its length is the time
/// since; one that does not says why, and nothing else of it changes.
pub proof fn law_a_recording_counts_from_its_start(
    outputs: Outputs,
    reason: String,
    start: u64,
    now: u64,
)
    requires
        outputs.published.recording_paused_at is None,
        start <= now,
    ensures
        ({
            let after = outputs.recording_opened(Ok(()), start);
            &&& after.state.running
            &&& after.published.recording_since == Some(start)
            &&& after.published.recorded(now) == Some(now - start)
        }),
        ({
            let after = outputs.recording_opened(Err(reason), start);
            &&& after.published.recording_error == Some(reason)
            &&& after.state == outputs.state
            &&& after.published.recording_since == outputs.published.recording_since
        }),
        !outputs.recording_ended().state.running,
        outputs.recording_ended().published.recorded(now) is None,
{
}

/// Pausing twice is pausing once, from the first moment; resuming what is not
/// paused changes nothing; and where nothing is recorded neither does anything.
pub proof fn law_pausing_is_pausing_once(outputs: Outputs, first: u64, second: u64)
    ensures
        outputs.paused(true, first).paused(true, second) == outputs.paused(true, first),
        outputs.published.recording_paused_at is None ==> outputs.paused(false, first) == outputs,
        !outputs.state.running ==> outputs.paused(true, first) == outputs && outputs.paused(
            false,
            first,
        ) == outputs,
        outputs.state.running && outputs.published.recording_paused_at is None ==> outputs.paused(
            true,
            first,
        ).published.recording_paused_at == Some(first),
{
}

/// What the outputs are set to is nobody's to change but the settings': asking,
/// connecting, failing, pausing and ending keep it.
pub proof fn law_what_happens_changes_no_setting(
    outputs: Outputs,
    opened: Result<(), String>,
    trouble: Trouble,
    refusal: Option<String>,
    paused: bool,
    now: u64,
)
    ensures
        same_settings(outputs.requested(), outputs),
        same_settings(outputs.connected(opened, now), outputs),
        same_settings(outputs.troubled(trouble, now), outputs),
        same_settings(outputs.recording_opened(opened, now), outputs),
        same_settings(outputs.paused(paused, now), outputs),
        same_settings(outputs.recording_ended(), outputs),
        same_settings(outputs.streaming_ended(), outputs),
        same_settings(outputs.asked_to_record(refusal), outputs),
        same_settings(outputs.streaming_cleared(), outputs),
{
}

/// Whether two outputs are set to the same.
pub open spec fn same_settings(a: Outputs, b: Outputs) -> bool {
    &&& a.state.settings == b.state.settings
    &&& a.state.streaming == b.state.streaming
    &&& a.state.audio_codecs == b.state.audio_codecs
}

/// Ending the broadcast leaves it off, shown as neither live nor waiting, and
/// asking for one says nothing of an earlier failure.
pub proof fn law_a_broadcast_that_is_ended_is_off(outputs: Outputs)
    ensures
        outputs.streaming_ended().state.broadcast == Broadcast::Off,
        outputs.streaming_ended().published.streaming_since is None,
        !outputs.streaming_ended().published.streaming_reconnecting,
        outputs.streaming_ended().state.running == outputs.state.running,
        outputs.streaming_ended().published.recording_since == outputs.published.recording_since,
        outputs.streaming_cleared().published.streaming_error is None,
        outputs.streaming_cleared().state == outputs.state,
{
}

/// Two outputs are set to the same where both their settings and the codecs
/// they offer are the same.
pub proof fn law_settings_are_the_same_where_each_is(a: Outputs, b: Outputs)
    requires
        same_settings(a, b),
    ensures
        a.state.settings == b.state.settings && a.state.streaming == b.state.streaming,
        a.state.audio_codecs == b.state.audio_codecs,
{
}

/// What is shown of a broadcast is true where a notice is shown exactly while it
/// waits, and a clock exactly while it is live.
pub proof fn law_a_notice_means_a_wait(outputs: Outputs)
    ensures
        shows_the_wait(outputs) <==> outputs.published.streaming_reconnecting
            == outputs.state.broadcast is Waiting,
        shows_what_is_live(outputs) <==> outputs.published.streaming_since is Some
            == outputs.state.broadcast is Live,
{
}

} // verus!
