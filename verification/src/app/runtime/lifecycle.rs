//! When an app's worker may be stopped, and what is kept while it is.

use vstd::prelude::*;
use crate::protocol::AgentInteraction;
use crate::text;
use vstd::string::*;

verus! {

/// The name of the file with what is kept of a stopped app.
pub const RESUME_FILE: &'static str = "resume.json";

/// How many seconds an app stays idle before it is stopped, unless told otherwise.
pub const DEFAULT_IDLE_SECS: u64 = 300;

/// The variable that tells otherwise.
pub const RUBBERDUX_APP_IDLE_SECS_ENV: &'static str = "RUBBERDUX_APP_IDLE_SECS";

/// The idle time in nanoseconds that a setting asks for: its number of seconds, and the default
/// where there is no setting or it is no number.
pub open spec fn window_of(setting: Option<Seq<char>>) -> int {
    let secs = match setting {
        Some(s) => match text::unsigned_value_upto(s, u64::MAX as int) {
            Some(n) => n,
            None => DEFAULT_IDLE_SECS as int,
        },
        None => DEFAULT_IDLE_SECS as int,
    };
    secs * 1_000_000_000
}

/// The idle time in nanoseconds that a setting asks for.
pub fn idle_window(setting: &Option<String>) -> (nanos: u128)
    ensures
        nanos == window_of(text::opt_view(*setting)),
{
    let secs: u64 = match setting {
        Some(s) => match text::read_unsigned(s.as_str(), u64::MAX) {
            Some(n) => n,
            None => DEFAULT_IDLE_SECS,
        },
        None => DEFAULT_IDLE_SECS,
    };
    secs as u128 * 1_000_000_000
}

/// Whether an app runs.
#[derive(Debug, Clone, Copy, PartialEq, Eq, Structural)]
pub enum LifecyclePhase {
    Active,
    Tombstoned,
}

/// What is known of an app's activity. Times are nanoseconds since some start.
#[derive(Debug, Clone, Copy)]
pub struct AppLifecycle {
    phase: LifecyclePhase,
    last_activity: u128,
    turn_in_flight: bool,
    has_pending_interaction: bool,
}

/// What is known of an app's activity.
pub struct LifecycleView {
    pub phase: LifecyclePhase,
    pub last_activity: int,
    pub turn_in_flight: bool,
    pub has_pending_interaction: bool,
}

impl View for AppLifecycle {
    type V = LifecycleView;

    closed spec fn view(&self) -> LifecycleView {
        LifecycleView {
            phase: self.phase,
            last_activity: self.last_activity as int,
            turn_in_flight: self.turn_in_flight,
            has_pending_interaction: self.has_pending_interaction,
        }
    }
}

/// A running app that nothing keeps busy and that has been quiet for the whole window. Time that
/// ran backwards counts as none.
pub open spec fn evictable(app: LifecycleView, now: int, window: int) -> bool {
    let quiet = if now >= app.last_activity {
        now - app.last_activity
    } else {
        0
    };
    &&& app.phase == LifecyclePhase::Active
    &&& !app.turn_in_flight
    &&& !app.has_pending_interaction
    &&& quiet >= window
}

impl AppLifecycle {
    /// An app that has just become active.
    pub fn active(now: u128) -> (r: Self)
        ensures
            r@ == (LifecycleView {
                phase: LifecyclePhase::Active,
                last_activity: now as int,
                turn_in_flight: false,
                has_pending_interaction: false,
            }),
    {
        AppLifecycle {
            phase: LifecyclePhase::Active,
            last_activity: now,
            turn_in_flight: false,
            has_pending_interaction: false,
        }
    }

    pub fn phase(&self) -> (r: LifecyclePhase)
        ensures
            r == self@.phase,
    {
        self.phase
    }

    /// Something happened.
    pub fn touched(self, now: u128) -> (r: Self)
        ensures
            r@ == (LifecycleView { last_activity: now as int, ..self@ }),
    {
        AppLifecycle { last_activity: now, ..self }
    }

    /// A turn began.
    pub fn turn_started(self, now: u128) -> (r: Self)
        ensures
            r@ == (LifecycleView { last_activity: now as int, turn_in_flight: true, ..self@ }),
    {
        AppLifecycle { last_activity: now, turn_in_flight: true, ..self }
    }

    /// A turn ended.
    pub fn turn_finished(self, now: u128) -> (r: Self)
        ensures
            r@ == (LifecycleView { last_activity: now as int, turn_in_flight: false, ..self@ }),
    {
        AppLifecycle { last_activity: now, turn_in_flight: false, ..self }
    }

    /// A question to the user is open, or none is.
    pub fn with_pending_interaction(self, has_pending: bool) -> (r: Self)
        ensures
            r@ == (LifecycleView { has_pending_interaction: has_pending, ..self@ }),
    {
        AppLifecycle { has_pending_interaction: has_pending, ..self }
    }

    /// The app was stopped.
    pub fn tombstoned(self) -> (r: Self)
        ensures
            r@ == (LifecycleView {
                phase: LifecyclePhase::Tombstoned,
                turn_in_flight: false,
                ..self@
            }),
    {
        AppLifecycle { phase: LifecyclePhase::Tombstoned, turn_in_flight: false, ..self }
    }

    /// The app runs again.
    pub fn restored(self, now: u128) -> (r: Self)
        ensures
            r@ == (LifecycleView {
                phase: LifecyclePhase::Active,
                last_activity: now as int,
                turn_in_flight: false,
                ..self@
            }),
    {
        AppLifecycle {
            phase: LifecyclePhase::Active,
            last_activity: now,
            turn_in_flight: false,
            ..self
        }
    }

    /// Whether the app may be stopped for being idle.
    pub fn is_idle_evictable(&self, now: u128, idle_window: u128) -> (r: bool)
        ensures
            r == evictable(self@, now as int, idle_window as int),
    {
        let quiet: u128 = if now >= self.last_activity {
            now - self.last_activity
        } else {
            0
        };
        self.phase == LifecyclePhase::Active && !self.turn_in_flight
            && !self.has_pending_interaction && quiet >= idle_window
    }
}

/// A stopped app, an app in the middle of a turn and an app with an open question are never
/// stopped for being idle.
pub proof fn busy_or_stopped_is_never_evictable(app: LifecycleView, now: int, window: int)
    requires
        app.phase == LifecyclePhase::Tombstoned || app.turn_in_flight
            || app.has_pending_interaction,
    ensures
        !evictable(app, now, window),
{
}

/// Right after an activity an app is not stopped, and it stays so until the window has passed.
pub proof fn activity_restarts_the_clock(app: LifecycleView, at: int, now: int, window: int)
    requires
        app.last_activity == at,
        window > 0,
        now < at + window,
    ensures
        !evictable(app, now, window),
{
}

/// A quiet app becomes evictable exactly when the window has passed, and stays so.
pub proof fn quiet_app_becomes_evictable(app: LifecycleView, now: int, window: int)
    requires
        app.phase == LifecyclePhase::Active,
        !app.turn_in_flight,
        !app.has_pending_interaction,
        window > 0,
    ensures
        evictable(app, now, window) <==> now >= app.last_activity + window,
{
}

/// What is kept of a stopped app.
#[derive(Debug, Clone, PartialEq)]
pub struct ResumeState {
    pub pending_interactions: Vec<AgentInteraction>,
    pub undelivered_peer_messages: Vec<String>,
}

impl Default for ResumeState {
    fn default() -> (r: Self)
        ensures
            r.pending_interactions@.len() == 0,
            r.undelivered_peer_messages@.len() == 0,
    {
        ResumeState { pending_interactions: Vec::new(), undelivered_peer_messages: Vec::new() }
    }
}

impl ResumeState {
    /// Where it is kept.
    pub fn path_in(app_dir: &str) -> (r: String)
        ensures
            r@ == text::path_join(app_dir@, RESUME_FILE@),
    {
        text::joined_path(app_dir, RESUME_FILE)
    }

    /// What is kept of an app that is stopped now: its open questions.
    pub fn of_pending(pending: Vec<AgentInteraction>) -> (r: Self)
        ensures
            r.pending_interactions == pending,
            r.undelivered_peer_messages@.len() == 0,
    {
        ResumeState { pending_interactions: pending, undelivered_peer_messages: Vec::new() }
    }

    /// What to go on with: what was read, and nothing where the record is missing or cannot be
    /// read.
    pub fn from_read(read: Option<ResumeState>) -> (r: Self)
        ensures
            match read {
                Some(state) => r == state,
                None => r.pending_interactions@.len() == 0 && r.undelivered_peer_messages@.len()
                    == 0,
            },
    {
        match read {
            Some(state) => state,
            None => ResumeState::default(),
        }
    }
}

/// The window is the seconds that are set, in nanoseconds; without a number it is the default.
pub proof fn window_is_read(n: u64, setting: Seq<char>)
    ensures
        setting == text::decimal(n as nat) ==> window_of(Some(setting)) == n * 1_000_000_000,
        window_of(None) == DEFAULT_IDLE_SECS * 1_000_000_000,
        text::integer_value(setting) is None ==> window_of(Some(setting)) == DEFAULT_IDLE_SECS
            * 1_000_000_000,
{
    text::whole_number_is_read_back(n as int);
}

/// Whoever waits longer, or asks for a shorter window, finds no fewer apps to stop.
pub proof fn more_time_stops_no_fewer(
    app: LifecycleView,
    now: int,
    later: int,
    window: int,
    shorter: int,
)
    requires
        now <= later,
        shorter <= window,
        evictable(app, now, window),
    ensures
        evictable(app, later, shorter),
{
}

} // verus!
