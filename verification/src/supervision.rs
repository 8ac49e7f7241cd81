//! Keeping the users running, and telling others when all of them are ready.
use vstd::prelude::*;
use vstd::set_lib::lemma_int_range;
use vstd::set_lib::lemma_len_subset;
use vstd::set_lib::lemma_subset_equality;
use vstd::set_lib::set_int_range;

verus! {

/// The address on which the readiness port is opened: other machines cannot
/// reach it.
pub const READINESS_ADDRESS: &'static str = "127.0.0.1";

// ── Readiness ───────────────────────────────────────────────────────────

/// How many of the users are ready.
#[derive(Debug, Clone, Copy, PartialEq, Eq, Structural)]
pub struct Readiness {
    pub ready: usize,
    pub total: usize,
}

impl Readiness {
    /// Whether all users are ready.
    pub open spec fn complete(self) -> bool {
        self.ready >= self.total
    }

    /// None of the users is ready.
    pub fn new(total: usize) -> (r: Self)
        ensures
            r == (Readiness { ready: 0, total }),
    {
        Readiness { ready: 0, total }
    }

    /// One more user is ready. Whether all of them are comes back.
    pub fn enter(&mut self) -> (r: bool)
        requires
            old(self).ready < usize::MAX,
        ensures
            *final(self) == (Readiness { ready: (old(self).ready + 1) as usize, ..*old(self) }),
            r == final(self).complete(),
    {
        self.ready = self.ready + 1;
        self.ready >= self.total
    }

    /// A user that was ready no longer is. Whether all users are ready comes
    /// back.
    pub fn leave(&mut self) -> (r: bool)
        requires
            old(self).ready > 0,
        ensures
            *final(self) == (Readiness { ready: (old(self).ready - 1) as usize, ..*old(self) }),
            r == final(self).complete(),
    {
        self.ready = self.ready - 1;
        self.ready >= self.total
    }
}

/// A user becomes ready, or no longer is.
pub struct ReadyEvent {
    pub user: int,
    pub enters: bool,
}

/// The count after a series of events.
pub open spec fn count_after(events: Seq<ReadyEvent>) -> int
    decreases events.len(),
{
    if events.len() == 0 {
        0
    } else if events.last().enters {
        count_after(events.drop_last()) + 1
    } else {
        count_after(events.drop_last()) - 1
    }
}

/// The users that are ready after a series of events.
pub open spec fn ready_users(events: Seq<ReadyEvent>) -> Set<int>
    decreases events.len(),
{
    if events.len() == 0 {
        Set::empty()
    } else if events.last().enters {
        ready_users(events.drop_last()).insert(events.last().user)
    } else {
        ready_users(events.drop_last()).remove(events.last().user)
    }
}

/// Whether the events are those of users numbered from 0, each of which enters
/// only when it is not ready and leaves only when it is.
pub open spec fn are_ready_events(events: Seq<ReadyEvent>, total: int) -> bool
    decreases events.len(),
{
    events.len() == 0 || {
        &&& are_ready_events(events.drop_last(), total)
        &&& 0 <= events.last().user < total
        &&& ready_users(events.drop_last()).contains(events.last().user) != events.last().enters
    }
}

proof fn lemma_ready_count(events: Seq<ReadyEvent>, total: int)
    requires
        are_ready_events(events, total),
    ensures
        ready_users(events).finite(),
        ready_users(events).len() == count_after(events),
        ready_users(events).subset_of(set_int_range(0, total)),
    decreases events.len(),
{
    if events.len() > 0 {
        lemma_ready_count(events.drop_last(), total);
    }
}

/// The count tells exactly when all users are ready.
pub proof fn complete_means_all_ready(events: Seq<ReadyEvent>, total: int)
    requires
        0 <= total,
        are_ready_events(events, total),
    ensures
        0 <= count_after(events) <= total,
        count_after(events) >= total <==> ready_users(events) == set_int_range(0, total),
{
    lemma_ready_count(events, total);
    lemma_int_range(0, total);
    lemma_len_subset(ready_users(events), set_int_range(0, total));
    if count_after(events) >= total {
        lemma_subset_equality(ready_users(events), set_int_range(0, total));
    }
}

/// What the readiness server is doing.
#[derive(Debug, Clone, Copy, PartialEq, Eq, Structural)]
pub enum ServerState {
    /// Looking whether to stop and whether all users are ready.
    Looking,
    /// Waiting for one of the two to change.
    Watching,
    /// Opening the port.
    Binding,
    /// Accepting connections.
    Listening,
    /// Nothing more.
    Ended,
}

/// What has come of it.
#[derive(Debug, Clone, Copy, PartialEq, Eq, Structural)]
pub enum ServerEvent {
    Looked { stop: bool, ready: bool },
    /// Readiness has changed, to the given value.
    ReadyChanged(bool),
    /// A stop was signalled.
    StopChanged,
    Bound,
    BindFailed,
    /// A connection was accepted, or accepting it has failed.
    Accepted,
}

/// Whether the event can come of the state.
pub open spec fn server_fits(state: ServerState, event: ServerEvent) -> bool {
    match state {
        ServerState::Looking => event is Looked,
        ServerState::Watching => event is ReadyChanged || event is StopChanged,
        ServerState::Binding => event is Bound || event is BindFailed,
        ServerState::Listening => event is ReadyChanged || event is StopChanged
            || event is Accepted,
        ServerState::Ended => false,
    }
}

/// The state after an event.
pub open spec fn server_next(state: ServerState, event: ServerEvent) -> ServerState {
    match (state, event) {
        (ServerState::Looking, ServerEvent::Looked { stop, ready }) => if stop {
            ServerState::Ended
        } else if ready {
            ServerState::Binding
        } else {
            ServerState::Watching
        },
        (ServerState::Watching, ServerEvent::ReadyChanged(_)) => ServerState::Looking,
        (ServerState::Binding, ServerEvent::Bound) => ServerState::Listening,
        (ServerState::Listening, ServerEvent::Accepted) => ServerState::Listening,
        (ServerState::Listening, ServerEvent::ReadyChanged(ready)) => if ready {
            ServerState::Listening
        } else {
            ServerState::Looking
        },
        _ => ServerState::Ended,
    }
}

impl ServerState {
    /// The state after an event that came of this state.
    pub fn next(&self, event: ServerEvent) -> (r: ServerState)
        requires
            server_fits(*self, event),
        ensures
            r == server_next(*self, event),
    {
        match (*self, event) {
            (ServerState::Looking, ServerEvent::Looked { stop, ready }) => if stop {
                ServerState::Ended
            } else if ready {
                ServerState::Binding
            } else {
                ServerState::Watching
            },
            (ServerState::Watching, ServerEvent::ReadyChanged(_)) => ServerState::Looking,
            (ServerState::Binding, ServerEvent::Bound) => ServerState::Listening,
            (ServerState::Listening, ServerEvent::Accepted) => ServerState::Listening,
            (ServerState::Listening, ServerEvent::ReadyChanged(ready)) => if ready {
                ServerState::Listening
            } else {
                ServerState::Looking
            },
            _ => ServerState::Ended,
        }
    }
}

/// The readiness that a series of events has told of last.
pub open spec fn told_ready(events: Seq<ServerEvent>) -> bool
    decreases events.len(),
{
    if events.len() == 0 {
        false
    } else {
        match events.last() {
            ServerEvent::Looked { ready, .. } => ready,
            ServerEvent::ReadyChanged(ready) => ready,
            _ => told_ready(events.drop_last()),
        }
    }
}

/// The state after a series of events.
pub open spec fn server_after(events: Seq<ServerEvent>) -> ServerState
    decreases events.len(),
{
    if events.len() == 0 {
        ServerState::Looking
    } else {
        server_next(server_after(events.drop_last()), events.last())
    }
}

/// Whether each event fits the state that it meets.
pub open spec fn server_events_fit(events: Seq<ServerEvent>) -> bool
    decreases events.len(),
{
    events.len() == 0 || (server_events_fit(events.drop_last()) && server_fits(
        server_after(events.drop_last()),
        events.last(),
    ))
}

/// The port is open only while all users are ready, as far as the server was
/// told.
pub proof fn listens_only_when_ready(events: Seq<ServerEvent>)
    requires
        server_events_fit(events),
    ensures
        server_after(events) is Listening || server_after(events) is Binding ==> told_ready(events),
    decreases events.len(),
{
    if events.len() > 0 {
        listens_only_when_ready(events.drop_last());
    }
}

/// Once all users are ready and no stop is wanted, the port is opened, and it
/// stays open while connections come and readiness lasts.
pub proof fn opens_and_stays_open(event: ServerEvent)
    requires
        server_fits(ServerState::Listening, event),
        event is Accepted || event == ServerEvent::ReadyChanged(true),
    ensures
        server_next(ServerState::Looking, ServerEvent::Looked { stop: false, ready: true })
            == ServerState::Binding,
        server_next(ServerState::Binding, ServerEvent::Bound) == ServerState::Listening,
        server_next(ServerState::Listening, event) == ServerState::Listening,
{
}

// ── Restarts ────────────────────────────────────────────────────────────

/// The sum of a series of times.
pub open spec fn total_of(times: Seq<u64>) -> int
    decreases times.len(),
{
    if times.len() == 0 {
        0
    } else {
        total_of(times.drop_last()) + times.last()
    }
}

/// How long each user waits before its first login, in seconds, given the times
/// between one user's login and the next one's: the first user does not wait,
/// and every other one waits for all the times before it. There is no answer if
/// the times are too long to be added up.
pub fn login_delays(intervals: &Vec<u64>) -> (r: Option<Vec<u64>>)
    ensures
        match r {
            Some(delays) => {
                &&& total_of(intervals@) <= u64::MAX
                &&& delays@.len() == intervals@.len()
                &&& forall|i: int|
                    0 <= i < delays@.len() ==> #[trigger] delays@[i] == total_of(
                        intervals@.take(i),
                    )
            },
            None => total_of(intervals@) > u64::MAX,
        },
{
    let mut delays: Vec<u64> = Vec::new();
    let mut sum: u64 = 0;
    let mut i: usize = 0;
    assert(intervals@.take(0) =~= Seq::<u64>::empty());
    while i < intervals.len()
        invariant
            i <= intervals@.len(),
            delays@.len() == i,
            sum == total_of(intervals@.take(i as int)),
            forall|k: int| 0 <= k < i ==> #[trigger] delays@[k] == total_of(intervals@.take(k)),
        decreases intervals@.len() - i,
    {
        delays.push(sum);
        let interval: u64 = intervals[i];
        i = i + 1;
        assert(intervals@.take(i as int).drop_last() =~= intervals@.take(i - 1));
        match sum.checked_add(interval) {
            Some(next) => {
                sum = next;
            },
            None => {
                proof {
                    lemma_total_grows(intervals@, i as int);
                }
                return None;
            },
        }
    }
    assert(intervals@.take(intervals@.len() as int) =~= intervals@);
    Some(delays)
}

proof fn lemma_total_grows(times: Seq<u64>, n: int)
    requires
        0 <= n <= times.len(),
    ensures
        total_of(times.take(n)) <= total_of(times),
    decreases times.len(),
{
    if n == times.len() {
        assert(times.take(n) =~= times);
    } else {
        lemma_total_grows(times.drop_last(), n);
        assert(times.drop_last().take(n) =~= times.take(n));
    }
}

/// What the supervisor of a user is doing.
#[derive(Debug, Clone, Copy, PartialEq, Eq, Structural)]
pub enum SupervisorState {
    /// Waiting for the user's place in the row of first logins.
    Staggering,
    /// Looking whether to stop before a run, which is the first one or not.
    Looking { first: bool },
    /// Waiting for the lock that lets one user restart at a time.
    Locking,
    /// Looking whether to stop, with the lock.
    Locked,
    /// Pausing before the restart, with the lock.
    Pausing,
    /// Looking whether to stop after the pause, with the lock.
    Paused,
    /// Running, with the lock until the login has succeeded.
    AwaitingLogin,
    /// Running, with the lock for the time between two logins.
    Easing,
    /// Running, without the lock.
    Running,
    /// Nothing more.
    Ended,
}

/// What has come of it.
#[derive(Debug, Clone, Copy, PartialEq, Eq, Structural)]
pub enum SupervisorEvent {
    /// Whether to stop.
    Looked { stop: bool },
    /// The wait is over.
    Slept,
    /// A stop was signalled.
    StopChanged,
    /// The lock was taken.
    LockTaken,
    /// The login has succeeded.
    LoggedIn,
    /// The run has ended because the program is being stopped.
    RunStopped,
    /// The run has failed.
    RunFailed,
}

/// Whether the event can come of the state.
pub open spec fn supervisor_fits(state: SupervisorState, event: SupervisorEvent) -> bool {
    match state {
        SupervisorState::Staggering => event is Slept || event is StopChanged,
        SupervisorState::Looking { .. } => event is Looked,
        SupervisorState::Locking => event is LockTaken,
        SupervisorState::Locked => event is Looked,
        SupervisorState::Pausing => event is Slept || event is StopChanged,
        SupervisorState::Paused => event is Looked,
        SupervisorState::AwaitingLogin => event is LoggedIn || event is RunStopped
            || event is RunFailed,
        SupervisorState::Easing => event is Slept || event is StopChanged,
        SupervisorState::Running => event is RunStopped || event is RunFailed,
        SupervisorState::Ended => false,
    }
}

/// The state after an event.
pub open spec fn supervisor_next(
    state: SupervisorState,
    event: SupervisorEvent,
) -> SupervisorState {
    match (state, event) {
        (SupervisorState::Staggering, SupervisorEvent::Slept) => SupervisorState::Looking {
            first: true,
        },
        (SupervisorState::Looking { first }, SupervisorEvent::Looked { stop: false }) => if first {
            SupervisorState::Running
        } else {
            SupervisorState::Locking
        },
        (SupervisorState::Locking, _) => SupervisorState::Locked,
        (
            SupervisorState::Locked,
            SupervisorEvent::Looked { stop: false },
        ) => SupervisorState::Pausing,
        (SupervisorState::Pausing, SupervisorEvent::Slept) => SupervisorState::Paused,
        (
            SupervisorState::Paused,
            SupervisorEvent::Looked { stop: false },
        ) => SupervisorState::AwaitingLogin,
        (SupervisorState::AwaitingLogin, SupervisorEvent::LoggedIn) => SupervisorState::Easing,
        (SupervisorState::Easing, _) => SupervisorState::Running,
        (SupervisorState::AwaitingLogin, SupervisorEvent::RunFailed)
        | (SupervisorState::Running, SupervisorEvent::RunFailed) => SupervisorState::Looking {
            first: false,
        },
        _ => SupervisorState::Ended,
    }
}

impl SupervisorState {
    /// The state to begin with, given how long to wait before the first login.
    pub fn begin(delay: u64) -> (r: SupervisorState)
        ensures
            r == (if delay == 0 {
                SupervisorState::Looking { first: true }
            } else {
                SupervisorState::Staggering
            }),
    {
        if delay == 0 {
            SupervisorState::Looking { first: true }
        } else {
            SupervisorState::Staggering
        }
    }

    /// The state after an event that came of this state.
    pub fn next(&self, event: SupervisorEvent) -> (r: SupervisorState)
        requires
            supervisor_fits(*self, event),
        ensures
            r == supervisor_next(*self, event),
    {
        match (*self, event) {
            (SupervisorState::Staggering, SupervisorEvent::Slept) => SupervisorState::Looking {
                first: true,
            },
            (SupervisorState::Looking { first }, SupervisorEvent::Looked { stop: false }) => if first {
                SupervisorState::Running
            } else {
                SupervisorState::Locking
            },
            (SupervisorState::Locking, _) => SupervisorState::Locked,
            (
                SupervisorState::Locked,
                SupervisorEvent::Looked { stop: false },
            ) => SupervisorState::Pausing,
            (SupervisorState::Pausing, SupervisorEvent::Slept) => SupervisorState::Paused,
            (
                SupervisorState::Paused,
                SupervisorEvent::Looked { stop: false },
            ) => SupervisorState::AwaitingLogin,
            (SupervisorState::AwaitingLogin, SupervisorEvent::LoggedIn) => SupervisorState::Easing,
            (SupervisorState::Easing, _) => SupervisorState::Running,
            (SupervisorState::AwaitingLogin, SupervisorEvent::RunFailed) => {
                SupervisorState::Looking { first: false }
            },
            (SupervisorState::Running, SupervisorEvent::RunFailed) => SupervisorState::Looking {
                first: false,
            },
            _ => SupervisorState::Ended,
        }
    }

    /// Whether the supervisor holds the lock that lets one user restart at a
    /// time.
    pub open spec fn locked(self) -> bool {
        self is Locked || self is Pausing || self is Paused || self is AwaitingLogin
            || self is Easing
    }

    /// Whether the supervisor holds the lock.
    pub fn holds_lock(&self) -> (r: bool)
        ensures
            r == self.locked(),
    {
        match self {
            SupervisorState::Locked => true,
            SupervisorState::Pausing => true,
            SupervisorState::Paused => true,
            SupervisorState::AwaitingLogin => true,
            SupervisorState::Easing => true,
            _ => false,
        }
    }
}

/// Whether the state is one in which a run is under way.
pub open spec fn is_running(state: SupervisorState) -> bool {
    state is AwaitingLogin || state is Easing || state is Running
}

/// A failed run is always followed by another one: the supervisor ends only
/// because the program is being stopped.
pub proof fn only_a_stop_ends(state: SupervisorState, event: SupervisorEvent)
    requires
        supervisor_fits(state, event),
        supervisor_next(state, event) is Ended,
    ensures
        event == (SupervisorEvent::Looked { stop: true }) || event is StopChanged
            || event is RunStopped,
{
}

/// A run that is a restart begins with the lock, and the lock is taken before
/// anything else, so that users restart one at a time.
pub proof fn restarts_hold_the_lock(state: SupervisorState, event: SupervisorEvent)
    requires
        supervisor_fits(state, event),
        !is_running(state),
        is_running(supervisor_next(state, event)),
    ensures
        supervisor_next(state, event).locked() || state == (SupervisorState::Looking {
            first: true,
        }),
        supervisor_next(state, event).locked() ==> state.locked(),
{
}

} // verus!
