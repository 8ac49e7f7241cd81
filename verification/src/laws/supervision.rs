//! Keeping the users running.
use crate::supervision::login_delays;
use crate::supervision::total_of;
use crate::supervision::Readiness;
use crate::supervision::ServerEvent;
use crate::supervision::ServerState;
use crate::supervision::SupervisorEvent;
use crate::supervision::SupervisorState;
use crate::supervision::READINESS_ADDRESS;
use vstd::prelude::*;

verus! {

// ── Readiness ───────────────────────────────────────────────────────────

/// At first no user is ready. Each one that enters counts one more and each one
/// that leaves one less; all are ready when as many are as there are users.
pub proof fn ready_users_are_counted(
    total: usize,
    new: Readiness,
    a: &mut Readiness,
    entered: bool,
    b: &mut Readiness,
    left: bool,
)
    requires
        call_ensures(Readiness::new, (total,), new),
        old(a).ready < usize::MAX,
        call_ensures(Readiness::enter, (a,), entered),
        *old(b) == *final(a),
        call_ensures(Readiness::leave, (b,), left),
    ensures
        new.ready == 0,
        new.total == total,
        final(a).ready == old(a).ready + 1,
        final(a).total == old(a).total,
        entered <==> old(a).ready + 1 >= old(a).total,
        *final(b) == *old(a),
        left <==> old(a).ready >= old(a).total,
{
}

/// The port is opened where other machines cannot reach it.
pub proof fn port_is_local()
    ensures
        READINESS_ADDRESS@ == "127.0.0.1"@,
{
}

/// The port is opened once all users are ready and no stop is wanted, is kept
/// open while they are, and is closed as soon as one is not or a stop comes.
pub proof fn port_tells_readiness(
    stop: bool,
    ready: bool,
    looked: ServerState,
    woken: ServerState,
    unwatched: ServerState,
    bound: ServerState,
    unbound: ServerState,
    accepted: ServerState,
    changed: ServerState,
    stopped: ServerState,
)
    requires
        call_ensures(
            ServerState::next,
            (&ServerState::Looking, ServerEvent::Looked { stop, ready }),
            looked,
        ),
        call_ensures(
            ServerState::next,
            (&ServerState::Watching, ServerEvent::ReadyChanged(ready)),
            woken,
        ),
        call_ensures(
            ServerState::next,
            (&ServerState::Watching, ServerEvent::StopChanged),
            unwatched,
        ),
        call_ensures(ServerState::next, (&ServerState::Binding, ServerEvent::Bound), bound),
        call_ensures(ServerState::next, (&ServerState::Binding, ServerEvent::BindFailed), unbound),
        call_ensures(ServerState::next, (&ServerState::Listening, ServerEvent::Accepted), accepted),
        call_ensures(
            ServerState::next,
            (&ServerState::Listening, ServerEvent::ReadyChanged(ready)),
            changed,
        ),
        call_ensures(
            ServerState::next,
            (&ServerState::Listening, ServerEvent::StopChanged),
            stopped,
        ),
    ensures
        stop ==> looked is Ended,
        !stop && ready ==> looked is Binding,
        !stop && !ready ==> looked is Watching,
        woken is Looking,
        unwatched is Ended,
        bound is Listening,
        unbound is Ended,
        accepted is Listening,
        ready ==> changed is Listening,
        !ready ==> changed is Looking,
        stopped is Ended,
{
}

// ── First logins ────────────────────────────────────────────────────────

proof fn lemma_total_step(times: Seq<u64>, i: int)
    requires
        0 <= i < times.len(),
    ensures
        total_of(times.take(i + 1)) == total_of(times.take(i)) + times[i],
{
    assert(times.take(i + 1).drop_last() =~= times.take(i));
}

proof fn lemma_total_bounds(times: Seq<u64>, i: int)
    requires
        0 <= i <= times.len(),
    ensures
        0 <= total_of(times.take(i)) <= total_of(times),
    decreases times.len() - i,
{
    lemma_total_positive(times.take(i));
    if i == times.len() {
        assert(times.take(i) =~= times);
    } else {
        lemma_total_step(times, i);
        lemma_total_bounds(times, i + 1);
    }
}

proof fn lemma_total_positive(times: Seq<u64>)
    ensures
        0 <= total_of(times),
    decreases times.len(),
{
    if times.len() > 0 {
        lemma_total_positive(times.drop_last());
    }
}

/// The first user logs in at once, and each other one after the user before it,
/// by the time between the two.
pub proof fn logins_follow_each_other(intervals: &Vec<u64>, r: Option<Vec<u64>>, i: int)
    requires
        call_ensures(login_delays, (intervals,), r),
    ensures
        r matches Some(delays) ==> {
            &&& delays@.len() == intervals@.len()
            &&& delays@.len() > 0 ==> delays@[0] == 0
            &&& 0 < i < delays@.len() ==> delays@[i] == delays@[i - 1] + intervals@[i - 1]
        },
        intervals@.len() <= 1 ==> r is Some,
{
    assert(intervals@.take(0) =~= Seq::<u64>::empty());
    if intervals@.len() == 1 {
        lemma_total_step(intervals@, 0);
        assert(intervals@.take(1) =~= intervals@);
    }
    if 0 < i < intervals@.len() {
        lemma_total_step(intervals@, i - 1);
    }
    if intervals@.len() == 0 {
        assert(intervals@ =~= Seq::<u64>::empty());
    }
}

/// There is no answer only where one more time would exceed what can be counted:
/// given the answer for all times but the last one, the times up to and with
/// that one have an answer if and only if they can be added up.
pub proof fn long_delays_are_noticed(
    front: &Vec<u64>,
    all: &Vec<u64>,
    last: u64,
    more: u64,
    r: Option<Vec<u64>>,
    s: Option<Vec<u64>>,
)
    requires
        front@ == all@.take(all@.len() - 1),
        all@.len() > 1,
        last == all@[all@.len() - 2],
        more == all@[all@.len() - 1],
        call_ensures(login_delays, (front,), r),
        call_ensures(login_delays, (all,), s),
    ensures
        r is None ==> s is None,
        r matches Some(delays) ==> (s is Some <==> delays@[delays@.len() - 1] + last + more
            <= u64::MAX),
{
    let n = all@.len() as int;
    lemma_total_step(all@, n - 1);
    lemma_total_step(all@, n - 2);
    assert(all@.take(n) =~= all@);
    assert(front@.take(n - 2) =~= all@.take(n - 2));
    lemma_total_bounds(all@, n - 1);
}

// ── Restarts ────────────────────────────────────────────────────────────

/// A user whose first login is to wait does so; then it runs without the lock,
/// unless the program is being stopped.
pub proof fn first_runs_need_no_lock(
    delay: u64,
    begun: SupervisorState,
    slept: SupervisorState,
    stopped: SupervisorState,
    stop: bool,
    looked: SupervisorState,
)
    requires
        call_ensures(SupervisorState::begin, (delay,), begun),
        call_ensures(
            SupervisorState::next,
            (&SupervisorState::Staggering, SupervisorEvent::Slept),
            slept,
        ),
        call_ensures(
            SupervisorState::next,
            (&SupervisorState::Staggering, SupervisorEvent::StopChanged),
            stopped,
        ),
        call_ensures(
            SupervisorState::next,
            (&SupervisorState::Looking { first: true }, SupervisorEvent::Looked { stop }),
            looked,
        ),
    ensures
        delay > 0 ==> begun is Staggering,
        delay == 0 ==> begun == (SupervisorState::Looking { first: true }),
        slept == (SupervisorState::Looking { first: true }),
        stopped is Ended,
        stop ==> looked is Ended,
        !stop ==> looked is Running,
{
}

/// A restart takes the lock, pauses, and runs, and it looks for a stop before
/// each of these.
pub proof fn restarts_take_their_time(
    stop: bool,
    looked: SupervisorState,
    taken: SupervisorState,
    locked: SupervisorState,
    slept: SupervisorState,
    disturbed: SupervisorState,
    paused: SupervisorState,
)
    requires
        call_ensures(
            SupervisorState::next,
            (&SupervisorState::Looking { first: false }, SupervisorEvent::Looked { stop }),
            looked,
        ),
        call_ensures(
            SupervisorState::next,
            (&SupervisorState::Locking, SupervisorEvent::LockTaken),
            taken,
        ),
        call_ensures(
            SupervisorState::next,
            (&SupervisorState::Locked, SupervisorEvent::Looked { stop }),
            locked,
        ),
        call_ensures(
            SupervisorState::next,
            (&SupervisorState::Pausing, SupervisorEvent::Slept),
            slept,
        ),
        call_ensures(
            SupervisorState::next,
            (&SupervisorState::Pausing, SupervisorEvent::StopChanged),
            disturbed,
        ),
        call_ensures(
            SupervisorState::next,
            (&SupervisorState::Paused, SupervisorEvent::Looked { stop }),
            paused,
        ),
    ensures
        stop ==> looked is Ended && locked is Ended && paused is Ended,
        !stop ==> looked is Locking && locked is Pausing && paused is AwaitingLogin,
        taken is Locked,
        slept is Paused,
        disturbed is Ended,
{
}

/// The lock is kept until the login has succeeded and the time between two logins
/// is over. A run that fails is started anew, and one that is stopped is not.
pub proof fn runs_end_or_begin_anew(
    logged_in: SupervisorState,
    eased: SupervisorState,
    disturbed: SupervisorState,
    failed_early: SupervisorState,
    stopped_early: SupervisorState,
    failed: SupervisorState,
    stopped: SupervisorState,
)
    requires
        call_ensures(
            SupervisorState::next,
            (&SupervisorState::AwaitingLogin, SupervisorEvent::LoggedIn),
            logged_in,
        ),
        call_ensures(
            SupervisorState::next,
            (&SupervisorState::Easing, SupervisorEvent::Slept),
            eased,
        ),
        call_ensures(
            SupervisorState::next,
            (&SupervisorState::Easing, SupervisorEvent::StopChanged),
            disturbed,
        ),
        call_ensures(
            SupervisorState::next,
            (&SupervisorState::AwaitingLogin, SupervisorEvent::RunFailed),
            failed_early,
        ),
        call_ensures(
            SupervisorState::next,
            (&SupervisorState::AwaitingLogin, SupervisorEvent::RunStopped),
            stopped_early,
        ),
        call_ensures(
            SupervisorState::next,
            (&SupervisorState::Running, SupervisorEvent::RunFailed),
            failed,
        ),
        call_ensures(
            SupervisorState::next,
            (&SupervisorState::Running, SupervisorEvent::RunStopped),
            stopped,
        ),
    ensures
        logged_in is Easing,
        eased is Running,
        disturbed is Running,
        failed_early == (SupervisorState::Looking { first: false }),
        stopped_early is Ended,
        failed == (SupervisorState::Looking { first: false }),
        stopped is Ended,
{
}

/// The lock is held from when it was taken until the restart is through.
pub proof fn lock_is_held_in_between(state: &SupervisorState, r: bool)
    requires
        call_ensures(SupervisorState::holds_lock, (state,), r),
    ensures
        *state is Locked || *state is Pausing || *state is Paused || *state is AwaitingLogin
            || *state is Easing ==> r,
        *state is Staggering || *state is Looking || *state is Locking || *state is Running
            || *state is Ended ==> !r,
{
}

/// What has ended stays so, the readiness server as well as a supervisor.
pub proof fn ended_ones_stay_so(
    event: ServerEvent,
    r: ServerState,
    other: SupervisorEvent,
    s: SupervisorState,
)
    requires
        call_ensures(ServerState::next, (&ServerState::Ended, event), r),
        call_ensures(SupervisorState::next, (&SupervisorState::Ended, other), s),
    ensures
        r is Ended,
        s is Ended,
{
}

/// Whatever comes of what the readiness server does, it can go on.
pub proof fn servers_take_every_outcome(stop: bool, ready: bool)
    ensures
        call_requires(
            ServerState::next,
            (&ServerState::Looking, ServerEvent::Looked { stop, ready }),
        ),
        call_requires(ServerState::next, (&ServerState::Watching, ServerEvent::ReadyChanged(ready))),
        call_requires(ServerState::next, (&ServerState::Watching, ServerEvent::StopChanged)),
        call_requires(ServerState::next, (&ServerState::Binding, ServerEvent::Bound)),
        call_requires(ServerState::next, (&ServerState::Binding, ServerEvent::BindFailed)),
        call_requires(ServerState::next, (&ServerState::Listening, ServerEvent::Accepted)),
        call_requires(
            ServerState::next,
            (&ServerState::Listening, ServerEvent::ReadyChanged(ready)),
        ),
        call_requires(ServerState::next, (&ServerState::Listening, ServerEvent::StopChanged)),
{
}

/// Whatever comes of what a supervisor does, it can go on.
pub proof fn supervisors_take_every_outcome(stop: bool, first: bool)
    ensures
        call_requires(
            SupervisorState::next,
            (&SupervisorState::Staggering, SupervisorEvent::Slept),
        ),
        call_requires(
            SupervisorState::next,
            (&SupervisorState::Staggering, SupervisorEvent::StopChanged),
        ),
        call_requires(
            SupervisorState::next,
            (&SupervisorState::Looking { first }, SupervisorEvent::Looked { stop }),
        ),
        call_requires(
            SupervisorState::next,
            (&SupervisorState::Locking, SupervisorEvent::LockTaken),
        ),
        call_requires(
            SupervisorState::next,
            (&SupervisorState::Locked, SupervisorEvent::Looked { stop }),
        ),
        call_requires(SupervisorState::next, (&SupervisorState::Pausing, SupervisorEvent::Slept)),
        call_requires(
            SupervisorState::next,
            (&SupervisorState::Pausing, SupervisorEvent::StopChanged),
        ),
        call_requires(
            SupervisorState::next,
            (&SupervisorState::Paused, SupervisorEvent::Looked { stop }),
        ),
        call_requires(
            SupervisorState::next,
            (&SupervisorState::AwaitingLogin, SupervisorEvent::LoggedIn),
        ),
        call_requires(
            SupervisorState::next,
            (&SupervisorState::AwaitingLogin, SupervisorEvent::RunFailed),
        ),
        call_requires(
            SupervisorState::next,
            (&SupervisorState::AwaitingLogin, SupervisorEvent::RunStopped),
        ),
        call_requires(SupervisorState::next, (&SupervisorState::Easing, SupervisorEvent::Slept)),
        call_requires(
            SupervisorState::next,
            (&SupervisorState::Easing, SupervisorEvent::StopChanged),
        ),
        call_requires(
            SupervisorState::next,
            (&SupervisorState::Running, SupervisorEvent::RunFailed),
        ),
        call_requires(
            SupervisorState::next,
            (&SupervisorState::Running, SupervisorEvent::RunStopped),
        ),
{
}

} // verus!
