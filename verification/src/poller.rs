//! The background poller's control state and per-iteration decisions. The
//! loop itself runs on the host's async executor; this module owns what the
//! loop decides: whether a start or stop call is accepted, whether an
//! iteration runs or the loop exits, how long the iteration sleeps, and what
//! to do for each discovered installation. Only one loop instance may run at
//! a time: a start while running is rejected rather than spawning a second
//! loop.
use vstd::prelude::*;

verus! {

/// Configuration of the background service, persisted as a single document.
#[derive(Clone, Debug)]
pub struct BackgroundServiceConfig {
    /// Whether the service runs at all.
    pub enabled: bool,
    /// Minutes between iterations.
    pub check_interval_minutes: u64,
    /// Language the iterations check.
    pub language: String,
}

impl Default for BackgroundServiceConfig {
    /// The defaults used when no configuration document exists: disabled,
    /// five-minute interval, French.
    fn default() -> (r: Self)
        ensures
            r.enabled == false,
            r.check_interval_minutes == 5,
            r.language@ == "fr"@,
    {
        proof {
            reveal_strlit("fr");
        }
        BackgroundServiceConfig {
            enabled: false,
            check_interval_minutes: 5,
            language: ("fr").to_owned(),
        }
    }
}

/// The poller's in-memory control state: whether a loop instance is running,
/// and whether an unconsumed cancellation handle exists for it.
#[derive(PartialEq, Eq, Structural, Clone, Copy, Debug)]
pub struct BackgroundServiceState {
    pub is_running: bool,
    pub cancel_pending: bool,
}

/// The `start` transition: rejected while running; otherwise the service is
/// marked running with a fresh cancellation handle.
pub open spec fn spec_start(s: BackgroundServiceState) -> (BackgroundServiceState, bool) {
    if s.is_running {
        (s, false)
    } else {
        (BackgroundServiceState { is_running: true, cancel_pending: true }, true)
    }
}

/// The `stop` transition: rejected while stopped; otherwise the cancellation
/// handle is consumed and the service marked stopped.
pub open spec fn spec_stop(s: BackgroundServiceState) -> (BackgroundServiceState, bool) {
    if !s.is_running {
        (s, false)
    } else {
        (BackgroundServiceState { is_running: false, cancel_pending: false }, true)
    }
}

impl BackgroundServiceState {
    /// The state before any start: stopped, no cancellation handle.
    pub fn new() -> (r: Self)
        ensures
            r.is_running == false,
            r.cancel_pending == false,
    {
        BackgroundServiceState { is_running: false, cancel_pending: false }
    }

    /// Start the service. Rejected exactly when a loop instance is already
    /// running, so no second loop can ever be spawned.
    pub fn start(&mut self) -> (r: Result<(), String>)
        ensures
            *final(self) == spec_start(*old(self)).0,
            r is Ok <==> spec_start(*old(self)).1,
            r is Err <==> old(self).is_running,
    {
        if self.is_running {
            Err(("service is already running").to_owned())
        } else {
            self.is_running = true;
            self.cancel_pending = true;
            Ok(())
        }
    }

    /// Stop the service. Rejected exactly when no loop instance is running;
    /// a consumed handle is cleared so a second stop reports not running.
    pub fn stop(&mut self) -> (r: Result<(), String>)
        ensures
            *final(self) == spec_stop(*old(self)).0,
            r is Ok <==> spec_stop(*old(self)).1,
            r is Err <==> !old(self).is_running,
    {
        if !self.is_running {
            Err(("service is not running").to_owned())
        } else {
            self.is_running = false;
            self.cancel_pending = false;
            Ok(())
        }
    }

    /// The loop's own exit (configuration observed disabled, or the
    /// cancellation signal won the race): the service is stopped.
    pub fn on_loop_exit(&mut self)
        ensures
            final(self).is_running == false,
            final(self).cancel_pending == old(self).cancel_pending,
    {
        self.is_running = false;
    }
}

/// Poller exclusivity: a second `start` without an intervening `stop` is
/// rejected, and a `stop` of an already-stopped poller is rejected.
pub proof fn lemma_poller_exclusivity(s: BackgroundServiceState)
    ensures
        spec_start(s).1 ==> !spec_start(spec_start(s).0).1,
        !s.is_running ==> !spec_stop(s).1,
        spec_stop(s).1 ==> !spec_stop(spec_stop(s).0).1,
{
}

/// What one iteration of the loop does, decided from the configuration read
/// at its top.
#[derive(PartialEq, Eq, Structural, Clone, Copy, Debug)]
pub enum TickPlan {
    /// Configuration observed disabled: leave the loop.
    Leave,
    /// Run the checks, then sleep this many seconds before the next
    /// iteration.
    RunAndSleep { sleep_seconds: u64 },
}

/// The iteration sleep in seconds: the configured minutes, saturating at the
/// largest representable count.
pub open spec fn spec_sleep_seconds(minutes: u64) -> u64 {
    if minutes * 60 > u64::MAX {
        u64::MAX
    } else {
        (minutes * 60) as u64
    }
}

pub open spec fn spec_plan_tick(c: BackgroundServiceConfig) -> TickPlan {
    if c.enabled {
        TickPlan::RunAndSleep { sleep_seconds: spec_sleep_seconds(c.check_interval_minutes) }
    } else {
        TickPlan::Leave
    }
}

/// Decide one iteration from the configuration read at its top: leave when
/// disabled, otherwise run and sleep for the configured interval.
pub fn plan_tick(config: &BackgroundServiceConfig) -> (r: TickPlan)
    ensures
        r == spec_plan_tick(*config),
{
    if !config.enabled {
        TickPlan::Leave
    } else {
        let sleep_seconds = match config.check_interval_minutes.checked_mul(60) {
            Some(v) => v,
            None => u64::MAX,
        };
        TickPlan::RunAndSleep { sleep_seconds }
    }
}

/// Configuration mutation latency: the sleep of a running iteration is fixed
/// by the configuration snapshot read at its top; a change made while the
/// loop sleeps leaves that sleep untouched and governs only the following
/// iteration, which re-reads the configuration.
pub proof fn lemma_config_mutation_latency(
    at_tick: BackgroundServiceConfig,
    changed: BackgroundServiceConfig,
)
    requires
        at_tick.enabled,
    ensures
        spec_plan_tick(at_tick) == (TickPlan::RunAndSleep {
            sleep_seconds: spec_sleep_seconds(at_tick.check_interval_minutes),
        }),
        changed.enabled ==> spec_plan_tick(changed) == (TickPlan::RunAndSleep {
            sleep_seconds: spec_sleep_seconds(changed.check_interval_minutes),
        }),
        !changed.enabled ==> spec_plan_tick(changed) == TickPlan::Leave,
{
}

/// What one iteration does for one discovered installation.
#[derive(PartialEq, Eq, Structural, Clone, Copy, Debug)]
pub enum SyncAction {
    /// No translation source is configured for the channel.
    NoSource,
    /// A source is configured but no translation is installed.
    NotInstalled,
    /// The installed translation matches the remote source.
    AlreadyCurrent,
    /// The installed translation is stale: update it and notify on success.
    DoUpdate,
}

pub open spec fn spec_plan_sync(has_link: bool, translated: bool, up_to_date: bool) -> SyncAction {
    if !has_link {
        SyncAction::NoSource
    } else if !translated {
        SyncAction::NotInstalled
    } else if up_to_date {
        SyncAction::AlreadyCurrent
    } else {
        SyncAction::DoUpdate
    }
}

/// Decide what an iteration does for one installation, from whether its
/// channel has a configured source link, whether a translation is installed,
/// and whether that translation is up to date.
pub fn plan_sync(has_link: bool, translated: bool, up_to_date: bool) -> (r: SyncAction)
    ensures
        r == spec_plan_sync(has_link, translated, up_to_date),
{
    if !has_link {
        SyncAction::NoSource
    } else if !translated {
        SyncAction::NotInstalled
    } else if up_to_date {
        SyncAction::AlreadyCurrent
    } else {
        SyncAction::DoUpdate
    }
}

} // verus!
