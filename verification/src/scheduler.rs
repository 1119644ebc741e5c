//! The background scheduler's control state and decisions: start, stop and
//! configuration changes, the loop's per-iteration snapshot, which
//! installations a pass checks, when an update is performed, and the event
//! emitted afterwards.
//!
//! The hosting application owns the lock around this state and performs the
//! spawning, sleeping and I/O; every decision it acts on is computed — and
//! verified — here.

use vstd::prelude::*;

use crate::config::{default_config, BackgroundServiceConfig};
use crate::locator::{entries_view, VersionPaths};
use crate::prefs::{link_for, TranslationsSelected};

verus! {

/// The scheduler's shared state: the current configuration and whether the
/// loop task is (supposed to be) running. `is_running` is the loop's sole
/// cancellation signal.
#[derive(Clone, Copy, Debug, PartialEq, Eq, Structural)]
pub struct BackgroundServiceState {
    pub config: BackgroundServiceConfig,
    pub is_running: bool,
}

impl Default for BackgroundServiceState {
    fn default() -> (s: Self)
        ensures
            s.config == default_config(),
            !s.is_running,
    {
        BackgroundServiceState { config: BackgroundServiceConfig::default(), is_running: false }
    }
}

/// What a configuration change asks the caller to do afterwards.
#[derive(Clone, Copy, Debug, PartialEq, Eq, Structural)]
pub enum ServiceAction {
    Start,
    Stop,
}

/// The follow-up work of a configuration change: reconcile the login-item
/// registration, then start or stop the service.
#[derive(Clone, Copy, Debug, PartialEq, Eq, Structural)]
pub struct ReconcilePlan {
    pub autostart_enable: bool,
    pub action: ServiceAction,
}

/// `start`: the state after, and whether a new loop task must be spawned.
pub open spec fn start_spec(s: BackgroundServiceState) -> (BackgroundServiceState, bool) {
    (BackgroundServiceState { config: s.config, is_running: true }, !s.is_running)
}

/// `stop`: clears the running flag and nothing else.
pub open spec fn stop_spec(s: BackgroundServiceState) -> BackgroundServiceState {
    BackgroundServiceState { config: s.config, is_running: false }
}

/// `set_config`: replaces the configuration and tells the caller what to do
/// next. The state is committed before the returned action is carried out.
pub open spec fn set_config_spec(s: BackgroundServiceState, c: BackgroundServiceConfig) -> (
    BackgroundServiceState,
    ReconcilePlan,
) {
    (
        BackgroundServiceState { config: c, is_running: s.is_running },
        ReconcilePlan {
            autostart_enable: c.start_with_windows,
            action: if c.enabled {
                ServiceAction::Start
            } else {
                ServiceAction::Stop
            },
        },
    )
}

/// The loop's per-iteration snapshot: whether to go on, and the interval.
pub open spec fn tick_spec(s: BackgroundServiceState) -> (bool, u64) {
    (s.is_running, s.config.check_interval_minutes)
}

impl BackgroundServiceState {
    /// The current configuration.
    pub fn get_config(&self) -> (c: BackgroundServiceConfig)
        ensures
            c == self.config,
    {
        self.config
    }

    /// Starts the service. Returns whether a loop task must be spawned:
    /// starting an already running service is a no-op.
    pub fn start(&mut self) -> (spawn: bool)
        ensures
            *final(self) == start_spec(*old(self)).0,
            spawn == start_spec(*old(self)).1,
    {
        let was_running = self.is_running;
        self.is_running = true;
        !was_running
    }

    /// Stops the service: clears the flag the loop reads at the top of each
    /// iteration. No task is aborted.
    pub fn stop(&mut self)
        ensures
            *final(self) == stop_spec(*old(self)),
    {
        self.is_running = false;
    }

    /// Replaces the configuration and returns the follow-up work: reconcile
    /// the login item to the new setting, then start or stop according to
    /// `enabled`. The new configuration is committed before either happens.
    pub fn set_config(&mut self, c: BackgroundServiceConfig) -> (plan: ReconcilePlan)
        ensures
            *final(self) == set_config_spec(*old(self), c).0,
            plan == set_config_spec(*old(self), c).1,
    {
        self.config = c;
        ReconcilePlan {
            autostart_enable: c.start_with_windows,
            action: if c.enabled {
                ServiceAction::Start
            } else {
                ServiceAction::Stop
            },
        }
    }

    /// The loop's snapshot at the top of an iteration: taken in one step so
    /// no lock is held during the pass itself.
    pub fn loop_tick(&self) -> (r: (bool, u64))
        ensures
            r == tick_spec(*self),
    {
        (self.is_running, self.config.check_interval_minutes)
    }
}

/// How long the loop sleeps between passes.
pub fn sleep_seconds(interval_minutes: u64) -> (s: u64)
    requires
        interval_minutes <= u64::MAX / 60,
    ensures
        s == interval_minutes * 60,
{
    interval_minutes * 60
}

/// Whether a pass updates one installation: it must have a configured link,
/// carry the overlay already, be stale, and automatic updates must be on.
/// The scheduler never performs first-time installs.
pub fn should_update(has_link: bool, installed: bool, current: bool, auto_update: bool) -> (r:
    bool)
    ensures
        r == (has_link && installed && !current && auto_update),
{
    has_link && installed && !current && auto_update
}

/// One installation a pass will look at: its channel, its path and the
/// remote asset link configured for the channel.
pub struct PlannedCheck {
    pub channel: String,
    pub path: String,
    pub link: String,
}

/// The (channel, path, link) triples of a pass plan.
pub open spec fn plan_view(v: Seq<PlannedCheck>) -> Seq<(Seq<char>, Seq<char>, Seq<char>)> {
    v.map_values(|p: PlannedCheck| (p.channel@, p.path@, p.link@))
}

/// The installations one pass checks: every discovered version whose channel
/// has a configured link, in discovery order, with that link.
pub open spec fn pass_plan(
    entries: Seq<(Seq<char>, Seq<char>)>,
    prefs: TranslationsSelected,
) -> Seq<(Seq<char>, Seq<char>, Seq<char>)>
    decreases entries.len(),
{
    if entries.len() == 0 {
        Seq::empty()
    } else {
        let e = entries.first();
        match link_for(prefs, e.0) {
            Some(l) => seq![(e.0, e.1, l@)] + pass_plan(entries.drop_first(), prefs),
            None => pass_plan(entries.drop_first(), prefs),
        }
    }
}

/// Plans one pass of the loop over the discovered versions.
pub fn plan_pass(versions: &VersionPaths, prefs: &TranslationsSelected) -> (r: Vec<PlannedCheck>)
    ensures
        plan_view(r@) == pass_plan(entries_view(versions.versions@), *prefs),
{
    let mut r: Vec<PlannedCheck> = Vec::new();
    let n = versions.versions.len();
    let mut i: usize = 0;
    let ghost ev = entries_view(versions.versions@);
    proof {
        assert(ev.skip(0) =~= ev);
        assert(plan_view(r@) =~= Seq::<(Seq<char>, Seq<char>, Seq<char>)>::empty());
        assert(plan_view(r@) + pass_plan(ev, *prefs) =~= pass_plan(ev, *prefs));
    }
    while i < n
        invariant
            i <= n,
            n == versions.versions@.len(),
            ev == entries_view(versions.versions@),
            pass_plan(ev, *prefs) == plan_view(r@) + pass_plan(ev.skip(i as int), *prefs),
        decreases n - i,
    {
        let ghost pre = plan_view(r@);
        let ghost rest = ev.skip(i as int);
        proof {
            assert(rest.len() > 0);
            assert(rest.first() == ev[i as int]);
            assert(rest.drop_first() =~= ev.skip(i + 1));
            assert(ev[i as int].0 == versions.versions@[i as int].0@);
            assert(ev[i as int].1 == versions.versions@[i as int].1.path@);
        }
        let entry = &versions.versions[i];
        match prefs.get_link(entry.0.as_str()) {
            Some(link) => {
                let planned = PlannedCheck {
                    channel: entry.0.clone(),
                    path: entry.1.path.clone(),
                    link,
                };
                r.push(planned);
                proof {
                    assert(pass_plan(rest, *prefs) == seq![
                        (ev[i as int].0, ev[i as int].1, link_for(*prefs, ev[i as int].0).unwrap()@),
                    ] + pass_plan(ev.skip(i + 1), *prefs));
                    assert(plan_view(r@) =~= pre.push(
                        (ev[i as int].0, ev[i as int].1, link_for(*prefs, ev[i as int].0).unwrap()@),
                    ));
                    assert(pre + pass_plan(rest, *prefs) =~= plan_view(r@) + pass_plan(
                        ev.skip(i + 1),
                        *prefs,
                    ));
                }
            },
            None => {
                proof {
                    assert(pass_plan(rest, *prefs) == pass_plan(ev.skip(i + 1), *prefs));
                }
            },
        }
        i += 1;
    }
    proof {
        assert(ev.skip(n as int) =~= Seq::<(Seq<char>, Seq<char>)>::empty());
        assert(plan_view(r@) + pass_plan(ev.skip(n as int), *prefs) =~= plan_view(r@));
    }
    r
}

/// The event emitted after one attempted update: the channel it concerned,
/// whether it succeeded, and the error text when it failed.
pub struct UpdateEvent {
    pub version: String,
    pub success: bool,
    pub error: Option<String>,
}

/// Builds the `translation_updated` event for one attempted update.
pub fn update_event(channel: &str, outcome: &Result<(), String>) -> (e: UpdateEvent)
    ensures
        e.version@ == channel@,
        e.success == (outcome is Ok),
        outcome is Ok ==> e.error is None,
        outcome is Err ==> e.error is Some && e.error.unwrap()@ == outcome->Err_0@,
{
    match outcome {
        Ok(_) => UpdateEvent { version: channel.to_owned(), success: true, error: None },
        Err(m) => UpdateEvent {
            version: channel.to_owned(),
            success: false,
            error: Some(m.clone()),
        },
    }
}

// ---------------------------------------------------------------------------
// Laws
// ---------------------------------------------------------------------------

/// Starting twice spawns exactly one loop task: the first call spawns one
/// exactly when the service was stopped, the second is a no-op that spawns
/// none and leaves the state as the first call left it. Both calls succeed.
pub proof fn lemma_start_idempotent(s: BackgroundServiceState)
    ensures
        ({
            let (s1, spawn1) = start_spec(s);
            let (s2, spawn2) = start_spec(s1);
            &&& s1.is_running
            &&& spawn1 == !s.is_running
            &&& !spawn2
            &&& s2 == s1
        }),
{
}

/// Stopping clears the running flag and nothing else, and the loop's next
/// snapshot tells it to exit: the loop observes a stop within one polling
/// granularity.
pub proof fn lemma_stop_halts_loop(s: BackgroundServiceState)
    ensures
        !stop_spec(s).is_running,
        stop_spec(s).config == s.config,
        !tick_spec(stop_spec(s)).0,
{
}

/// A configuration change commits the new configuration before anything
/// else: a read after `set_config` sees the new value, whatever the
/// follow-up start or stop has done so far.
pub proof fn lemma_set_config_commits(s: BackgroundServiceState, c: BackgroundServiceConfig)
    ensures
        set_config_spec(s, c).0.config == c,
        set_config_spec(s, c).1.autostart_enable == c.start_with_windows,
        set_config_spec(s, c).1.action == (if c.enabled {
            ServiceAction::Start
        } else {
            ServiceAction::Stop
        }),
{
}

/// Disabling via `set_config` stops a running scheduler without a separate
/// stop call: the returned action is `Stop`, and carrying it out leaves the
/// scheduler stopped, under the new configuration.
pub proof fn lemma_disable_stops(s: BackgroundServiceState, c: BackgroundServiceConfig)
    requires
        !c.enabled,
    ensures
        ({
            let (s1, plan) = set_config_spec(s, c);
            &&& plan.action == ServiceAction::Stop
            &&& !stop_spec(s1).is_running
            &&& stop_spec(s1).config == c
        }),
{
}

} // verus!
