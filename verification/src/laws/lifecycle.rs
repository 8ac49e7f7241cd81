//! The life of a user.
use crate::auth::LoginError;
use crate::lifecycle::after_sync;
use crate::lifecycle::is_fatal_sync_status;
use crate::lifecycle::login_is_fatal;
use crate::lifecycle::rounds_event;
use crate::lifecycle::NextSync;
use crate::lifecycle::RecoveryStatus;
use crate::lifecycle::RunUserError;
use crate::lifecycle::RunUserOutcome;
use crate::lifecycle::Stage;
use crate::lifecycle::StageEvent;
use vstd::prelude::*;

verus! {

// ── The way to the rounds ───────────────────────────────────────────────

/// A client that is made logs in, and one that is logged in synchronises. If
/// there are invitations they are accepted, and what was joined is synchronised,
/// before anything else.
pub proof fn users_log_in_and_join(
    built: Stage,
    logged_in: Stage,
    invitations: usize,
    synced: Stage,
    joined: Stage,
    again: Stage,
)
    requires
        call_ensures(Stage::next, (&Stage::Build, StageEvent::Done), built),
        call_ensures(Stage::next, (&Stage::Login, StageEvent::Done), logged_in),
        call_ensures(Stage::next, (&Stage::Sync, StageEvent::Invited(invitations)), synced),
        call_ensures(Stage::next, (&Stage::JoinInvites, StageEvent::Done), joined),
        call_ensures(Stage::next, (&Stage::SyncJoined, StageEvent::Done), again),
    ensures
        built is Login,
        logged_in is Sync,
        invitations > 0 ==> synced is JoinInvites,
        invitations == 0 ==> synced is Elect,
        joined is SyncJoined,
        again is Elect,
{
}

/// Secrets that exist are imported, by whichever device. Where there are none,
/// the first device creates them and the others wait for that.
pub proof fn secrets_are_imported_or_created(
    primary: bool,
    recovery: RecoveryStatus,
    elected: Stage,
    imported: Stage,
    bootstrapped: Stage,
    enabled: Stage,
    exist: bool,
)
    requires
        call_ensures(
            Stage::next,
            (&Stage::Elect, StageEvent::Elected { primary, recovery }),
            elected,
        ),
        call_ensures(Stage::next, (&Stage::Import, StageEvent::Done), imported),
        call_ensures(Stage::next, (&Stage::Bootstrap, StageEvent::Done), bootstrapped),
        call_ensures(Stage::next, (&Stage::EnableRecovery, StageEvent::Done), enabled),
        call_ensures(RecoveryStatus::is_importable, (&recovery,), exist),
    ensures
        exist <==> recovery is Enabled || recovery is Incomplete,
        exist ==> elected is Import,
        !exist && primary ==> elected is Bootstrap,
        !exist && !primary ==> elected == (Stage::AwaitSecrets { waited: 0 }),
        imported is Rounds,
        bootstrapped is EnableRecovery,
        enabled is Rounds,
{
}

/// A device that waits imports the secrets as soon as they exist, and gives up
/// once it has waited for two minutes.
pub proof fn waiting_ends_after_two_minutes(waited: u64, recovery: RecoveryStatus, r: Stage)
    requires
        waited < 122,
        call_ensures(
            Stage::next,
            (&Stage::AwaitSecrets { waited }, StageEvent::Synced(recovery)),
            r,
        ),
    ensures
        recovery is Enabled || recovery is Incomplete ==> r is Import,
        recovery is Unknown || recovery is Disabled ==> {
            &&& waited < 120 ==> r == (Stage::Pause { waited })
            &&& waited >= 120 ==> (r matches Stage::Ended(
                RunUserOutcome::Failed(RunUserError::Other(e)),
            ) && e@ == "timed out waiting for the primary device to enable recovery"@)
        },
{
}

/// Between two looks a device pauses for two seconds.
pub proof fn waiting_goes_by_two_seconds(waited: u64, r: Stage)
    requires
        waited < 120,
        call_ensures(Stage::next, (&Stage::Pause { waited }, StageEvent::Done), r),
    ensures
        r matches Stage::AwaitSecrets { waited: longer } && longer == waited + 2,
{
}

/// Every wait that can come about can be taken further.
pub proof fn waits_can_be_taken_further(waited: u64, recovery: RecoveryStatus)
    ensures
        waited < 122 ==> call_requires(
            Stage::next,
            (&Stage::AwaitSecrets { waited }, StageEvent::Synced(recovery)),
        ),
        waited < 122 ==> call_requires(
            Stage::next,
            (&Stage::AwaitSecrets { waited }, StageEvent::Stop),
        ),
        waited < 120 ==> call_requires(Stage::next, (&Stage::Pause { waited }, StageEvent::Done)),
        waited < 120 ==> call_requires(Stage::next, (&Stage::Pause { waited }, StageEvent::Stop)),
{
}

// ── Failures ────────────────────────────────────────────────────────────

/// A login that fails ends the run with its error, which is fatal or not; so does
/// a synchronisation that fails on the way to the rounds.
pub proof fn failures_keep_their_weight(
    fatal: bool,
    error: String,
    waited: u64,
    login: Stage,
    sync: Stage,
    joined: Stage,
    waiting: Stage,
)
    requires
        waited < 122,
        call_ensures(
            Stage::next,
            (&Stage::Login, StageEvent::LoginFailed { fatal, error }),
            login,
        ),
        call_ensures(Stage::next, (&Stage::Sync, StageEvent::SyncFailed { fatal, error }), sync),
        call_ensures(
            Stage::next,
            (&Stage::SyncJoined, StageEvent::SyncFailed { fatal, error }),
            joined,
        ),
        call_ensures(
            Stage::next,
            (&Stage::AwaitSecrets { waited }, StageEvent::SyncFailed { fatal, error }),
            waiting,
        ),
    ensures
        failed_with(login, fatal, error@),
        failed_with(sync, fatal, error@),
        failed_with(joined, fatal, error@),
        failed_with(waiting, fatal, error@),
{
}

/// Whether a run has ended with an error, which is fatal or not.
pub open spec fn failed_with(stage: Stage, fatal: bool, error: Seq<char>) -> bool {
    match stage {
        Stage::Ended(RunUserOutcome::Failed(RunUserError::Fatal(e))) => fatal && e@ == error,
        Stage::Ended(RunUserOutcome::Failed(RunUserError::Other(e))) => !fatal && e@ == error,
        _ => false,
    }
}

/// No other failure before the rounds is fatal, and each ends the run with its
/// error.
pub proof fn other_failures_are_not_fatal(
    error: String,
    built: Stage,
    imported: Stage,
    bootstrapped: Stage,
    enabled: Stage,
)
    requires
        call_ensures(Stage::next, (&Stage::Build, StageEvent::Failed(error)), built),
        call_ensures(Stage::next, (&Stage::Import, StageEvent::Failed(error)), imported),
        call_ensures(Stage::next, (&Stage::Bootstrap, StageEvent::Failed(error)), bootstrapped),
        call_ensures(Stage::next, (&Stage::EnableRecovery, StageEvent::Failed(error)), enabled),
    ensures
        failed_with(built, false, error@),
        failed_with(imported, false, error@),
        failed_with(bootstrapped, false, error@),
        failed_with(enabled, false, error@),
{
}

/// A fatal error of the synchronisation in the background ends the rounds as a
/// fatal error.
pub proof fn fatal_syncs_end_the_rounds(r: Stage)
    requires
        call_ensures(Stage::next, (&Stage::Rounds, StageEvent::FatalSync), r),
    ensures
        failed_with(r, true, "sync returned 401 or 404"@),
{
}

// ── The end ─────────────────────────────────────────────────────────────

/// Whenever a stop reaches a run that waits or makes its rounds, the keys are
/// uploaded next.
pub proof fn stopped_users_upload_their_keys(stage: &Stage, r: Stage)
    requires
        *stage is Rounds || (*stage matches Stage::AwaitSecrets { waited } && waited < 122) || (
        *stage matches Stage::Pause { waited } && waited < 120),
        call_ensures(Stage::next, (stage, StageEvent::Stop), r),
    ensures
        r is Backup,
{
}

/// After the upload of the keys the user logs out, and then the run has ended as
/// stopped; whether one or the other has failed changes nothing.
pub proof fn stopped_users_log_out(event: StageEvent, uploaded: Stage, logged_out: Stage)
    requires
        event is Done || event is Failed,
        call_ensures(Stage::next, (&Stage::Backup, event), uploaded),
        call_ensures(Stage::next, (&Stage::Logout, event), logged_out),
    ensures
        uploaded is Logout,
        logged_out matches Stage::Ended(RunUserOutcome::Shutdown),
{
}

/// The rounds go on until there is a stop or a fatal error; the stop comes first.
pub proof fn rounds_end_for_a_reason(stop: bool, fatal: bool, r: Option<StageEvent>)
    requires
        call_ensures(rounds_event, (stop, fatal), r),
    ensures
        r is None <==> !stop && !fatal,
        stop ==> r == Some(StageEvent::Stop),
        !stop && fatal ==> r == Some(StageEvent::FatalSync),
{
}

/// Synchronising in the background ends with a stop or with a fatal error, which
/// is reported; after another failure there is a pause.
pub proof fn background_syncs_go_on(stopped: bool, failure: Option<bool>, r: NextSync)
    requires
        call_ensures(after_sync, (stopped, failure), r),
    ensures
        stopped <==> r is End,
        !stopped && failure is None ==> r is Again,
        !stopped && failure == Some(true) ==> r is ReportFatal,
        !stopped && failure == Some(false) ==> r is AfterPause,
{
}

// ── What is fatal ───────────────────────────────────────────────────────

/// A failed synchronisation is fatal if the status is 401 or 404. The status of
/// the API error counts before that of another reply, and that before the one of
/// the transport.
pub proof fn unknown_users_and_interfaces_are_fatal(
    api: Option<u16>,
    other: Option<u16>,
    transport: Option<u16>,
    r: bool,
)
    requires
        call_ensures(is_fatal_sync_status, (api, other, transport), r),
    ensures
        api matches Some(code) ==> (r <==> code == 401 || code == 404),
        api is None ==> (other matches Some(code) ==> (r <==> code == 401 || code == 404)),
        api is None && other is None ==> (transport matches Some(code) ==> (r <==> code == 401
            || code == 404)),
        api is None && other is None && transport is None ==> !r,
{
}

/// A failed login is fatal if registering has failed for want of the interface.
pub proof fn missing_registration_is_fatal(error: &LoginError, r: bool)
    requires
        call_ensures(login_is_fatal, (error,), r),
    ensures
        r <==> (*error matches LoginError::Registration(e) && e.status == Some(404u16)),
{
}

/// Errors are described by their texts, and fatal ones are marked.
pub proof fn run_errors_are_described(
    error: String,
    made: RunUserError,
    text: String,
    fatal: String,
)
    requires
        call_ensures(RunUserError::other, (error,), made),
        call_ensures(RunUserError::message, (&made,), text),
        call_ensures(RunUserError::message, (&RunUserError::Fatal(error),), fatal),
    ensures
        made == RunUserError::Other(error),
        text@ == error@,
        fatal@ == "fatal: "@ + error@,
{
}

/// Whatever comes of a stage on the way to the rounds, the run can go on.
pub proof fn runs_take_every_outcome(
    error: String,
    fatal: bool,
    primary: bool,
    recovery: RecoveryStatus,
    invitations: usize,
)
    ensures
        call_requires(Stage::next, (&Stage::Build, StageEvent::Done)),
        call_requires(Stage::next, (&Stage::Build, StageEvent::Failed(error))),
        call_requires(Stage::next, (&Stage::Login, StageEvent::Done)),
        call_requires(Stage::next, (&Stage::Login, StageEvent::LoginFailed { fatal, error })),
        call_requires(Stage::next, (&Stage::Sync, StageEvent::Invited(invitations))),
        call_requires(Stage::next, (&Stage::Sync, StageEvent::SyncFailed { fatal, error })),
        call_requires(Stage::next, (&Stage::JoinInvites, StageEvent::Done)),
        call_requires(Stage::next, (&Stage::SyncJoined, StageEvent::Done)),
        call_requires(Stage::next, (&Stage::SyncJoined, StageEvent::SyncFailed { fatal, error })),
        call_requires(Stage::next, (&Stage::Elect, StageEvent::Elected { primary, recovery })),
        call_requires(Stage::next, (&Stage::Import, StageEvent::Done)),
        call_requires(Stage::next, (&Stage::Import, StageEvent::Failed(error))),
        call_requires(Stage::next, (&Stage::Bootstrap, StageEvent::Done)),
        call_requires(Stage::next, (&Stage::Bootstrap, StageEvent::Failed(error))),
        call_requires(Stage::next, (&Stage::EnableRecovery, StageEvent::Done)),
        call_requires(Stage::next, (&Stage::EnableRecovery, StageEvent::Failed(error))),
{
}

/// So it can from the rounds to the end.
pub proof fn ends_take_every_outcome(error: String)
    ensures
        call_requires(Stage::next, (&Stage::Rounds, StageEvent::Stop)),
        call_requires(Stage::next, (&Stage::Rounds, StageEvent::FatalSync)),
        call_requires(Stage::next, (&Stage::Backup, StageEvent::Done)),
        call_requires(Stage::next, (&Stage::Backup, StageEvent::Failed(error))),
        call_requires(Stage::next, (&Stage::Logout, StageEvent::Done)),
        call_requires(Stage::next, (&Stage::Logout, StageEvent::Failed(error))),
{
}

} // verus!
