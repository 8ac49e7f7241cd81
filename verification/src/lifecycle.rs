//! The life of a user from login to logout, and what happens when it fails.
use crate::auth::LoginError;
use crate::text::joined;
use vstd::prelude::*;

verus! {

// ── Outcomes ────────────────────────────────────────────────────────────

/// Why a run has failed, with a description.
#[derive(Debug)]
pub enum RunUserError {
    /// The server does not know the user, or lacks the interface.
    Fatal(String),
    /// Anything else.
    Other(String),
}

impl RunUserError {
    /// The text that describes the error.
    pub open spec fn text(self) -> Seq<char> {
        match self {
            RunUserError::Fatal(e) => "fatal: "@ + e@,
            RunUserError::Other(e) => e@,
        }
    }

    /// An error that is not fatal.
    pub fn other(e: String) -> (r: Self)
        ensures
            r == RunUserError::Other(e),
    {
        RunUserError::Other(e)
    }

    /// A description of the error for people.
    pub fn message(&self) -> (r: String)
        ensures
            r@ == self.text(),
    {
        match self {
            RunUserError::Fatal(e) => joined("fatal: ", e.as_str()),
            RunUserError::Other(e) => e.clone(),
        }
    }
}

/// How a run has ended.
#[derive(Debug)]
pub enum RunUserOutcome {
    /// The program is being stopped.
    Shutdown,
    /// The run has failed and is to be started again.
    Failed(RunUserError),
}

/// Whether a status code tells that the server does not know the user or the
/// interface.
pub open spec fn is_fatal_code(code: u16) -> bool {
    code == 401 || code == 404
}

/// Whether a failed synchronisation is fatal. The status code is that of the
/// API error, or else that of another reply, or else that of the transport.
pub fn is_fatal_sync_status(api: Option<u16>, other: Option<u16>, transport: Option<u16>) -> (r:
    bool)
    ensures
        r == (match (api, other, transport) {
            (Some(code), _, _) => is_fatal_code(code),
            (None, Some(code), _) => is_fatal_code(code),
            (None, None, Some(code)) => is_fatal_code(code),
            (None, None, None) => false,
        }),
{
    match (api, other, transport) {
        (Some(code), _, _) => code == 401 || code == 404,
        (None, Some(code), _) => code == 401 || code == 404,
        (None, None, Some(code)) => code == 401 || code == 404,
        (None, None, None) => false,
    }
}

/// Whether a failed login is fatal: the registration interface is missing.
pub open spec fn is_fatal_login(error: LoginError) -> bool {
    error matches LoginError::Registration(e) && e.status == Some(404u16)
}

/// Whether a failed login is fatal: the registration interface is missing.
pub fn login_is_fatal(error: &LoginError) -> (r: bool)
    ensures
        r == is_fatal_login(*error),
{
    match error {
        LoginError::Registration(e) => e.is_missing_api(),
        _ => false,
    }
}

// ── The run of a user ───────────────────────────────────────────────────

/// Seconds between two looks at the account while waiting for another device.
pub const WAIT_STEP: u64 = 2;

/// Seconds after which waiting for another device is given up.
pub const MAX_WAIT: u64 = 120;

/// The state of the account's recovery.
#[derive(Debug, Clone, Copy, PartialEq, Eq, Structural)]
pub enum RecoveryStatus {
    Unknown,
    Enabled,
    Disabled,
    Incomplete,
}

impl RecoveryStatus {
    /// Whether there are secrets to import.
    pub open spec fn importable(self) -> bool {
        self is Enabled || self is Incomplete
    }

    /// Whether there are secrets to import.
    pub fn is_importable(&self) -> (r: bool)
        ensures
            r == self.importable(),
    {
        match self {
            RecoveryStatus::Enabled => true,
            RecoveryStatus::Incomplete => true,
            _ => false,
        }
    }
}

/// What a run is doing.
#[derive(Debug)]
pub enum Stage {
    /// Making the client.
    Build,
    /// Logging in.
    Login,
    /// The first synchronisation.
    Sync,
    /// Joining the rooms that the user is invited to.
    JoinInvites,
    /// The synchronisation after joining.
    SyncJoined,
    /// Finding out whether our device is the first one, and the state of the
    /// account's recovery.
    Elect,
    /// Importing the account's secrets.
    Import,
    /// Creating the account's identity for cross-signing.
    Bootstrap,
    /// Creating backup and secret storage.
    EnableRecovery,
    /// Looking whether the first device has created the secrets, after having
    /// waited for as many seconds.
    AwaitSecrets { waited: u64 },
    /// Pausing before the next look.
    Pause { waited: u64 },
    /// Checking rooms, sending and receiving, round after round.
    Rounds,
    /// Waiting for the upload of keys.
    Backup,
    /// Logging out.
    Logout,
    /// Nothing more: this is the outcome.
    Ended(RunUserOutcome),
}

/// What has come of a stage.
#[derive(Debug)]
pub enum StageEvent {
    /// It was completed.
    Done,
    /// It has failed.
    Failed(String),
    /// The login has failed.
    LoginFailed { fatal: bool, error: String },
    /// The synchronisation has failed.
    SyncFailed { fatal: bool, error: String },
    /// The synchronisation was completed, with as many invitations to accept.
    Invited(usize),
    /// The result of the election and the state of recovery.
    Elected { primary: bool, recovery: RecoveryStatus },
    /// The state of recovery after a synchronisation.
    Synced(RecoveryStatus),
    /// The synchronisation in the background has met a fatal error.
    FatalSync,
    /// The program is to stop.
    Stop,
}

/// Whether the event can come of the stage.
pub open spec fn stage_fits(stage: Stage, event: StageEvent) -> bool {
    match stage {
        Stage::Build => event is Done || event is Failed,
        Stage::Login => event is Done || event is LoginFailed,
        Stage::Sync => event is Invited || event is SyncFailed,
        Stage::JoinInvites => event is Done,
        Stage::SyncJoined => event is Done || event is SyncFailed,
        Stage::Elect => event is Elected,
        Stage::Import => event is Done || event is Failed,
        Stage::Bootstrap => event is Done || event is Failed,
        Stage::EnableRecovery => event is Done || event is Failed,
        Stage::AwaitSecrets { .. } => event is Synced || event is SyncFailed || event is Stop,
        Stage::Pause { .. } => event is Done || event is Stop,
        Stage::Rounds => event is Stop || event is FatalSync,
        Stage::Backup => event is Done || event is Failed,
        Stage::Logout => event is Done || event is Failed,
        Stage::Ended(_) => false,
    }
}

/// Whether the run has failed with an error that is not fatal.
pub open spec fn ended_other(stage: Stage, error: Seq<char>) -> bool {
    stage matches Stage::Ended(RunUserOutcome::Failed(RunUserError::Other(e))) && e@ == error
}

/// Whether the run has failed with a fatal error.
pub open spec fn ended_fatal(stage: Stage, error: Seq<char>) -> bool {
    stage matches Stage::Ended(RunUserOutcome::Failed(RunUserError::Fatal(e))) && e@ == error
}

/// Whether the run was stopped.
pub open spec fn ended_by_stop(stage: Stage) -> bool {
    stage matches Stage::Ended(RunUserOutcome::Shutdown)
}

/// Whether the run has failed as the flag says.
pub open spec fn ended_with(stage: Stage, fatal: bool, error: Seq<char>) -> bool {
    if fatal {
        ended_fatal(stage, error)
    } else {
        ended_other(stage, error)
    }
}

/// Whether `next` follows an event of a stage.
pub open spec fn stage_follows(stage: Stage, event: StageEvent, next: Stage) -> bool {
    match (stage, event) {
        (Stage::Build, StageEvent::Done) => next is Login,
        (Stage::Login, StageEvent::Done) => next is Sync,
        (Stage::Login, StageEvent::LoginFailed { fatal, error }) => ended_with(next, fatal, error@),
        (Stage::Sync, StageEvent::Invited(n)) => if n > 0 {
            next is JoinInvites
        } else {
            next is Elect
        },
        (Stage::JoinInvites, StageEvent::Done) => next is SyncJoined,
        (Stage::SyncJoined, StageEvent::Done) => next is Elect,
        (Stage::Elect, StageEvent::Elected { primary, recovery }) => {
            if recovery.importable() {
                next is Import
            } else if primary {
                next is Bootstrap
            } else {
                next == Stage::AwaitSecrets { waited: 0 }
            }
        },
        (Stage::Bootstrap, StageEvent::Done) => next is EnableRecovery,
        (Stage::Import, StageEvent::Done) => next is Rounds,
        (Stage::EnableRecovery, StageEvent::Done) => next is Rounds,
        (Stage::AwaitSecrets { waited }, StageEvent::Synced(recovery)) => {
            if recovery.importable() {
                next is Import
            } else if waited >= MAX_WAIT {
                ended_other(
                    next,
                    "timed out waiting for the primary device to enable recovery"@,
                )
            } else {
                next == Stage::Pause { waited }
            }
        },
        (Stage::Pause { waited }, StageEvent::Done) => next == Stage::AwaitSecrets {
            waited: (waited + WAIT_STEP) as u64,
        },
        (Stage::AwaitSecrets { .. }, StageEvent::Stop) => next is Backup,
        (Stage::Pause { .. }, StageEvent::Stop) => next is Backup,
        (Stage::Sync, StageEvent::SyncFailed { fatal, error })
        | (Stage::SyncJoined, StageEvent::SyncFailed { fatal, error })
        | (Stage::AwaitSecrets { .. }, StageEvent::SyncFailed { fatal, error }) => ended_with(
            next,
            fatal,
            error@,
        ),
        (Stage::Rounds, StageEvent::Stop) => next is Backup,
        (Stage::Rounds, StageEvent::FatalSync) => ended_fatal(next, "sync returned 401 or 404"@),
        (Stage::Backup, _) => next is Logout,
        (Stage::Logout, _) => ended_by_stop(next),
        (Stage::Build, StageEvent::Failed(e))
        | (Stage::Import, StageEvent::Failed(e))
        | (Stage::Bootstrap, StageEvent::Failed(e))
        | (Stage::EnableRecovery, StageEvent::Failed(e)) => ended_other(next, e@),
        _ => false,
    }
}

/// The end of a run that has failed.
fn failed(fatal: bool, error: String) -> (r: Stage)
    ensures
        ended_with(r, fatal, error@),
{
    if fatal {
        Stage::Ended(RunUserOutcome::Failed(RunUserError::Fatal(error)))
    } else {
        Stage::Ended(RunUserOutcome::Failed(RunUserError::other(error)))
    }
}

impl Stage {
    /// A wait does not outlast its limit by more than a step.
    pub open spec fn valid(self) -> bool {
        match self {
            Stage::AwaitSecrets { waited } => waited < MAX_WAIT + WAIT_STEP,
            Stage::Pause { waited } => waited < MAX_WAIT,
            _ => true,
        }
    }

    /// What follows an event that came of this stage.
    pub fn next(&self, event: StageEvent) -> (r: Stage)
        requires
            self.valid(),
            stage_fits(*self, event),
        ensures
            r.valid(),
            stage_follows(*self, event, r),
    {
        match (self, event) {
            (Stage::Build, StageEvent::Done) => Stage::Login,
            (Stage::Login, StageEvent::Done) => Stage::Sync,
            (_, StageEvent::LoginFailed { fatal, error }) => failed(fatal, error),
            (_, StageEvent::SyncFailed { fatal, error }) => failed(fatal, error),
            (_, StageEvent::Invited(n)) => if n > 0 {
                Stage::JoinInvites
            } else {
                Stage::Elect
            },
            (Stage::JoinInvites, _) => Stage::SyncJoined,
            (Stage::SyncJoined, _) => Stage::Elect,
            (_, StageEvent::Elected { primary, recovery }) => {
                if recovery.is_importable() {
                    Stage::Import
                } else if primary {
                    Stage::Bootstrap
                } else {
                    Stage::AwaitSecrets { waited: 0 }
                }
            },
            (Stage::Bootstrap, StageEvent::Done) => Stage::EnableRecovery,
            (Stage::Import, StageEvent::Done) => Stage::Rounds,
            (Stage::EnableRecovery, StageEvent::Done) => Stage::Rounds,
            (Stage::AwaitSecrets { waited }, StageEvent::Synced(recovery)) => {
                if recovery.is_importable() {
                    Stage::Import
                } else if *waited >= MAX_WAIT {
                    failed(
                        false,
                        "timed out waiting for the primary device to enable recovery".to_owned(),
                    )
                } else {
                    Stage::Pause { waited: *waited }
                }
            },
            (Stage::Pause { waited }, StageEvent::Done) => Stage::AwaitSecrets {
                waited: *waited + WAIT_STEP,
            },
            (Stage::AwaitSecrets { .. }, _) => Stage::Backup,
            (Stage::Pause { .. }, _) => Stage::Backup,
            (Stage::Rounds, StageEvent::Stop) => Stage::Backup,
            (Stage::Rounds, _) => failed(true, "sync returned 401 or 404".to_owned()),
            (Stage::Backup, _) => Stage::Logout,
            (Stage::Logout, _) => Stage::Ended(RunUserOutcome::Shutdown),
            (_, StageEvent::Failed(e)) => failed(false, e),
            _ => failed(false, String::new()),
        }
    }
}

/// What ends the rounds, if anything: a stop comes before a fatal error of the
/// synchronisation in the background.
pub fn rounds_event(stop: bool, fatal_sync: bool) -> (r: Option<StageEvent>)
    ensures
        match r {
            Some(event) => {
                &&& stop || fatal_sync
                &&& stage_fits(Stage::Rounds, event)
                &&& stop ==> event is Stop
                &&& !stop ==> event is FatalSync
            },
            None => !stop && !fatal_sync,
        },
{
    if stop {
        Some(StageEvent::Stop)
    } else if fatal_sync {
        Some(StageEvent::FatalSync)
    } else {
        None
    }
}

/// What the synchronisation in the background does next.
#[derive(Debug, Clone, Copy, PartialEq, Eq, Structural)]
pub enum NextSync {
    /// Synchronise again at once.
    Again,
    /// Synchronise again after a pause.
    AfterPause,
    /// Report a fatal error and end.
    ReportFatal,
    /// End.
    End,
}

/// What follows a synchronisation in the background: it was stopped, or it was
/// completed, or it has failed, perhaps fatally.
pub fn after_sync(stopped: bool, failure: Option<bool>) -> (r: NextSync)
    ensures
        r == (if stopped {
            NextSync::End
        } else {
            match failure {
                None => NextSync::Again,
                Some(true) => NextSync::ReportFatal,
                Some(false) => NextSync::AfterPause,
            }
        }),
{
    if stopped {
        NextSync::End
    } else {
        match failure {
            None => NextSync::Again,
            Some(fatal) => if fatal {
                NextSync::ReportFatal
            } else {
                NextSync::AfterPause
            },
        }
    }
}

// ── What holds of every run ─────────────────────────────────────────────

/// Only the first device creates the account's secrets: every other device
/// imports them or waits for them.
pub proof fn only_primary_bootstraps(stage: Stage, event: StageEvent, next: Stage)
    requires
        stage_fits(stage, event),
        stage_follows(stage, event, next),
        next is Bootstrap,
    ensures
        event matches StageEvent::Elected { primary: true, recovery } && !recovery.importable(),
{
}

/// A user is ready only after the account's secrets were imported or created.
pub proof fn ready_after_recovery(stage: Stage, event: StageEvent, next: Stage)
    requires
        stage_fits(stage, event),
        stage_follows(stage, event, next),
        next is Rounds,
    ensures
        stage is Import || stage is EnableRecovery,
        event is Done,
{
}

/// A user that is stopped, in its rounds or while it waits for another device,
/// waits for the upload of its keys and logs out, whether or not these succeed,
/// and the run ends as stopped.
pub proof fn stop_logs_out(
    stage: Stage,
    a: StageEvent,
    b: StageEvent,
    first: Stage,
    second: Stage,
    third: Stage,
)
    requires
        stage_fits(stage, StageEvent::Stop),
        stage_follows(stage, StageEvent::Stop, first),
        stage_fits(first, a),
        stage_follows(first, a, second),
        stage_fits(second, b),
        stage_follows(second, b, third),
    ensures
        first is Backup && second is Logout && ended_by_stop(third),
{
}

/// No run ends as stopped without having logged out.
pub proof fn stopped_after_logout(stage: Stage, event: StageEvent, next: Stage)
    requires
        stage_fits(stage, event),
        stage_follows(stage, event, next),
        ended_by_stop(next),
    ensures
        stage is Logout,
{
}

/// How many more stages a run can pass through on the way to its rounds, or to
/// its end.
pub open spec fn stages_left(stage: Stage) -> int {
    match stage {
        Stage::Build => 200,
        Stage::Login => 199,
        Stage::Sync => 198,
        Stage::JoinInvites => 197,
        Stage::SyncJoined => 196,
        Stage::Elect => 195,
        Stage::AwaitSecrets { waited } => 190 - waited,
        Stage::Pause { waited } => 189 - waited,
        Stage::Bootstrap => 6,
        Stage::Import => 5,
        Stage::EnableRecovery => 5,
        Stage::Rounds => 4,
        Stage::Backup => 3,
        Stage::Logout => 2,
        Stage::Ended(_) => 1,
    }
}

/// Every run comes to its rounds or to its end: each event leads closer to
/// them, and waiting for another device ends after two minutes.
pub proof fn run_makes_progress(stage: Stage, event: StageEvent, next: Stage)
    requires
        stage.valid(),
        stage_fits(stage, event),
        stage_follows(stage, event, next),
    ensures
        0 < stages_left(next) < stages_left(stage),
        next.valid(),
{
}

} // verus!
