//! What a user does in its rounds.
use crate::history::PageReport;
use crate::history::RoomVerificationState;
use crate::schedule::describe_dm;
use crate::schedule::dm_candidates;
use crate::schedule::merge_live;
use crate::schedule::pick;
use crate::schedule::Action;
use crate::schedule::ActionCycle;
use crate::schedule::LiveSerials;
use crate::schedule::Promotion;
use crate::schedule::Rooms;
use crate::schedule::TrackedRoom;
use crate::schedule::VerifyOutcome;
use crate::users::Mxid;
use vstd::prelude::*;

verus! {

// ── Promotion ───────────────────────────────────────────────────────────

/// Only the first device sends, and one that has just become the first has to
/// wait from the start.
pub proof fn only_the_first_device_sends(p: &mut Promotion, first: bool, wait: u64, sends: bool)
    requires
        call_ensures(Promotion::round, (p, first, wait), ()),
        call_ensures(Promotion::is_sending, (&*final(p),), sends),
    ensures
        !first ==> !sends,
        final(p).first == first,
        first && !old(p).first ==> final(p).rounds == 1 && (sends <==> wait == 0),
{
}

/// As long as the device stays the first one, its rounds are counted until they
/// exceed the wait; from then on it sends.
pub proof fn first_rounds_are_counted(p: &mut Promotion, wait: u64, sends: bool)
    requires
        call_ensures(Promotion::round, (p, true, wait), ()),
        call_ensures(Promotion::is_sending, (&*final(p),), sends),
        old(p).first,
    ensures
        old(p).promoted ==> sends && *final(p) == *old(p),
        !old(p).promoted && old(p).rounds < u64::MAX ==> final(p).rounds == old(p).rounds + 1 && (
        sends <==> old(p).rounds + 1 > wait),
        !old(p).promoted && old(p).rounds == u64::MAX ==> final(p).rounds == 0 && !sends,
{
}

/// At the start no device sends and no round is counted.
pub proof fn promotion_begins_with_nothing(first: bool, p: Promotion, sends: bool)
    requires
        call_ensures(Promotion::new, (first,), p),
        call_ensures(Promotion::is_sending, (&p,), sends),
    ensures
        !sends,
        p.first == first,
        p.rounds == 0,
        !p.promoted,
{
}

// ── Serial numbers from live messages ───────────────────────────────────

/// The number kept for a user in a room is the highest one seen, whatever the
/// order in which the messages came; numbers of other users and rooms stay.
pub proof fn highest_number_is_kept(
    before: &LiveSerials,
    live: &mut LiveSerials,
    after: &LiveSerials,
    room: &str,
    user: &str,
    serial: u64,
    known: Option<u64>,
    now: Option<u64>,
    other_room: &str,
    other_user: &str,
    other_known: Option<u64>,
    other_now: Option<u64>,
)
    requires
        before.valid(),
        *old(live) == *before,
        call_ensures(LiveSerials::observe, (live, room, user, serial), ()),
        *final(live) == *after,
        call_ensures(LiveSerials::get, (before, room, user), known),
        call_ensures(LiveSerials::get, (after, room, user), now),
        call_ensures(LiveSerials::get, (before, other_room, other_user), other_known),
        call_ensures(LiveSerials::get, (after, other_room, other_user), other_now),
        other_room@ != room@ || other_user@ != user@,
    ensures
        now matches Some(n) && n >= serial && (known matches Some(k) ==> n >= k) && (n == serial
            || known == Some(n)),
        other_now == other_known,
{
}

/// At the start no number is known.
pub proof fn no_number_at_first(live: LiveSerials, room: &str, user: &str, r: Option<u64>)
    requires
        call_ensures(LiveSerials::new, (), live),
        call_ensures(LiveSerials::get, (&live, room, user), r),
    ensures
        r is None,
{
}

/// Our next number stays where nothing was seen. Otherwise it is the lowest that
/// is above what was seen and not below what it was. Above the highest number of
/// 64 bits comes 0.
pub proof fn next_number_is_raised(next: Option<u64>, live: Option<u64>, r: Option<u64>)
    requires
        call_ensures(merge_live, (next, live), r),
    ensures
        live is None ==> r == next,
        live matches Some(seen) ==> seen < u64::MAX ==> (r matches Some(n) && n > seen && (
        next matches Some(old) ==> n >= old) && (n == seen + 1 || next == Some(n))),
        live == Some(u64::MAX) ==> r == (if next is Some {
            next
        } else {
            Some(0u64)
        }),
{
}

/// In every room our next number is raised above the highest one that our user
/// was seen to use there, and nothing else changes.
pub proof fn rooms_are_raised(
    rooms: &mut Rooms,
    live: &LiveSerials,
    ours: &str,
    i: int,
    room: &str,
    seen: Option<u64>,
    next: Option<u64>,
)
    requires
        old(rooms).valid(),
        live.valid(),
        call_ensures(Rooms::merge_serials, (rooms, live, ours), ()),
        0 <= i < old(rooms).list@.len(),
        room@ == old(rooms).list@[i].room_id@,
        call_ensures(LiveSerials::get, (live, room, ours), seen),
        call_ensures(merge_live, (old(rooms).list@[i].state.next_serial, seen), next),
    ensures
        final(rooms).list@.len() == old(rooms).list@.len(),
        final(rooms).list@[i].room_id == old(rooms).list@[i].room_id,
        final(rooms).list@[i].state == (RoomVerificationState {
            next_serial: next,
            ..old(rooms).list@[i].state
        }),
{
    assert(old(rooms).list@[i] == old(rooms).list@[i]);
}

// ── Rooms ───────────────────────────────────────────────────────────────

/// At first no room is tracked.
pub proof fn no_room_is_tracked_at_first(rooms: Rooms, id: &String, r: bool)
    requires
        call_ensures(Rooms::new, (), rooms),
        call_ensures(Rooms::is_tracked, (&rooms, id), r),
    ensures
        rooms.list@.len() == 0,
        !r,
{
}

/// Whether a room is among the tracked ones is told by its ID alone.
pub proof fn tracked_rooms_are_found(rooms: &Rooms, id: &String, r: bool)
    requires
        call_ensures(Rooms::is_tracked, (rooms, id), r),
    ensures
        r <==> exists|i: int|
            0 <= i < rooms.list@.len() && (#[trigger] rooms.list@[i]).room_id@ == id@,
{
}

/// A new room is added behind the others, with nothing known of it; a room that
/// is there already changes nothing.
pub proof fn new_rooms_are_added_once(rooms: &mut Rooms, id: String)
    requires
        old(rooms).valid(),
        call_ensures(Rooms::discover, (rooms, id), ()),
    ensures
        forall|i: int| 0 <= i < old(rooms).list@.len() ==> #[trigger] final(rooms).list@[i] == old(
            rooms,
        ).list@[i],
        (exists|i: int| 0 <= i < old(rooms).list@.len() && (#[trigger] old(rooms).list@[i]).room_id@
            == id@) ==> final(rooms).list@.len() == old(rooms).list@.len(),
        !(exists|i: int| 0 <= i < old(rooms).list@.len() && (#[trigger] old(
            rooms,
        ).list@[i]).room_id@ == id@) ==> {
            let added = final(rooms).list@.last();
            &&& final(rooms).list@.len() == old(rooms).list@.len() + 1
            &&& added.room_id@ == id@
            &&& added.state.next_serial is None
            &&& added.state.last_serial_by_user@ == Map::<Seq<char>, u64>::empty()
            &&& added.state.pagination_token is None
            &&& !added.state.started && !added.state.failed && !added.state.fully_verified
        },
{
    let before = old(rooms).list@;
    let after = final(rooms).list@;
    if old(rooms).tracks(id@) {
        assert(after == before);
    } else {
        assert forall|i: int| 0 <= i < before.len() implies #[trigger] after[i] == before[i] by {
            assert(after.drop_last()[i] == before[i]);
        }
    }
}

/// Exactly the rooms that are no longer joined are dropped; the others stay as
/// they are, in their order.
pub proof fn left_rooms_are_dropped(rooms: &mut Rooms, joined: &Vec<String>, i: int, k: int)
    requires
        old(rooms).valid(),
        call_ensures(Rooms::forget_left, (rooms, joined), ()),
    ensures
        0 <= i < old(rooms).list@.len() ==> (final(rooms).list@.contains(old(rooms).list@[i])
            <==> (exists|j: int|
            0 <= j < joined@.len() && (#[trigger] joined@[j])@ == old(rooms).list@[i].room_id@)),
        0 <= k < final(rooms).list@.len() ==> old(rooms).list@.contains(final(rooms).list@[k]),
        0 <= k ==> forall|l: int|
            k < l < final(rooms).list@.len() ==> comes_earlier(
                old(rooms).list@,
                final(rooms).list@[k],
                #[trigger] final(rooms).list@[l],
            ),
{
    lemma_kept(old(rooms).list@, joined@);
    assert(old(rooms).list@[i] == old(rooms).list@[i]);
}

/// Whether `a` stands somewhere before `b`.
pub open spec fn comes_earlier(list: Seq<TrackedRoom>, a: TrackedRoom, b: TrackedRoom) -> bool {
    exists|i: int, j: int|
        0 <= i < j < list.len() && #[trigger] list[i] == a && #[trigger] list[j] == b
}

spec fn is_joined(joined: Seq<String>, room: TrackedRoom) -> bool {
    exists|j: int| 0 <= j < joined.len() && (#[trigger] joined[j])@ == room.room_id@
}

proof fn lemma_kept(list: Seq<TrackedRoom>, joined: Seq<String>)
    ensures
        ({
            let kept = crate::schedule::still_joined(list, joined);
            &&& forall|i: int|
                0 <= i < list.len() ==> (kept.contains(#[trigger] list[i]) <==> is_joined(
                    joined,
                    list[i],
                ))
            &&& forall|k: int| 0 <= k < kept.len() ==> list.contains(#[trigger] kept[k])
            &&& forall|k: int, l: int|
                0 <= k < l < kept.len() ==> comes_earlier(
                    list,
                    #[trigger] kept[k],
                    #[trigger] kept[l],
                )
        }),
    decreases list.len(),
{
    let kept = crate::schedule::still_joined(list, joined);
    if list.len() > 0 {
        let front = list.drop_last();
        let last = list.last();
        let before = crate::schedule::still_joined(front, joined);
        lemma_kept(front, joined);
        assert(list[list.len() - 1] == last);
        assert(crate::schedule::lists(joined, last.room_id@) == is_joined(joined, last));
        assert forall|k: int| 0 <= k < kept.len() implies list.contains(#[trigger] kept[k]) by {
            if k < before.len() {
                assert(front.contains(before[k]));
                let i = choose|i: int| 0 <= i < front.len() && front[i] == before[k];
                assert(list[i] == kept[k]);
            }
        }
        assert forall|k: int| 0 <= k < kept.len() implies is_joined(joined, #[trigger] kept[k]) by {
            if k < before.len() {
                assert(front.contains(before[k]));
                let i = choose|i: int| 0 <= i < front.len() && front[i] == before[k];
                assert(before.contains(front[i]));
            }
        }
        assert forall|i: int| 0 <= i < list.len() implies (kept.contains(#[trigger] list[i])
            <==> is_joined(joined, list[i])) by {
            if is_joined(joined, list[i]) {
                if i < front.len() {
                    assert(before.contains(front[i]));
                    let k = choose|k: int| 0 <= k < before.len() && before[k] == front[i];
                    assert(kept[k] == list[i]);
                } else {
                    assert(kept[before.len() as int] == list[i]);
                }
            }
            if kept.contains(list[i]) {
                let k = choose|k: int| 0 <= k < kept.len() && kept[k] == list[i];
                assert(is_joined(joined, kept[k]));
            }
        }
        assert forall|k: int, l: int| 0 <= k < l < kept.len() implies comes_earlier(
            list,
            #[trigger] kept[k],
            #[trigger] kept[l],
        ) by {
            if l < before.len() {
                assert(comes_earlier(front, before[k], before[l]));
                let (i, j) = choose|i: int, j: int|
                    0 <= i < j < front.len() && #[trigger] front[i] == before[k]
                        && #[trigger] front[j] == before[l];
                assert(list[i] == kept[k] && list[j] == kept[l]);
            } else {
                assert(front.contains(before[k]));
                let i = choose|i: int| 0 <= i < front.len() && front[i] == before[k];
                assert(list[i] == kept[k] && list[list.len() - 1] == kept[l]);
            }
        }
    }
}

/// Whether the positions increase.
pub open spec fn increases(found: Seq<usize>) -> bool {
    forall|a: int, b: int| 0 <= a < b < found.len() ==> #[trigger] found[a] < #[trigger] found[b]
}

/// A room is checked further if and only if nothing was wrong with it and its
/// oldest event has not been reached.
pub proof fn unfinished_rooms_are_checked(rooms: &Rooms, r: Vec<usize>, i: usize)
    requires
        call_ensures(Rooms::verify_candidates, (rooms,), r),
    ensures
        increases(r@),
        r@.contains(i) <==> i < rooms.list@.len() && !rooms.list@[i as int].state.failed
            && !rooms.list@[i as int].state.fully_verified,
{
    if r@.contains(i) {
        let k = choose|k: int| 0 <= k < r@.len() && r@[k] == i;
        assert(r@[k] == i);
    }
    assert(rooms.checkable()(i as int) == (!rooms.list@[i as int].state.failed
        && !rooms.list@[i as int].state.fully_verified));
}

/// A room is sent to if and only if our device sends, nothing was wrong with the
/// room, and our number in it is known.
pub proof fn sound_rooms_are_sent_to(rooms: &Rooms, sending: bool, r: Vec<usize>, i: usize)
    requires
        call_ensures(Rooms::send_candidates, (rooms, sending), r),
    ensures
        increases(r@),
        r@.contains(i) <==> sending && i < rooms.list@.len() && !rooms.list@[i as int].state.failed
            && rooms.list@[i as int].state.next_serial is Some,
{
    if r@.contains(i) {
        let k = choose|k: int| 0 <= k < r@.len() && r@[k] == i;
        assert(r@[k] == i);
    }
    assert(rooms.sendable()(i as int) == (!rooms.list@[i as int].state.failed
        && rooms.list@[i as int].state.next_serial is Some));
}

// ── Direct rooms ────────────────────────────────────────────────────────

/// A direct room is opened with a peer if and only if our device sends and no
/// room, whichever it is, has the peer as its only target.
pub proof fn peers_without_room_get_one(
    peers: &Vec<Mxid>,
    targets: &Vec<Vec<String>>,
    sending: bool,
    r: Vec<usize>,
    i: usize,
)
    requires
        call_ensures(dm_candidates, (peers, targets, sending), r),
    ensures
        increases(r@),
        r@.contains(i) <==> {
            &&& sending
            &&& i < peers@.len()
            &&& forall|j: int|
                0 <= j < targets@.len() ==> !((#[trigger] targets@[j])@.len() == 1
                    && targets@[j]@[0]@ == peers@[i as int].full@)
        },
{
    if r@.contains(i) {
        let k = choose|k: int| 0 <= k < r@.len() && r@[k] == i;
        assert(r@[k] == i);
    }
    assert(crate::schedule::without_room(peers@, targets@)(i as int)
        == !crate::schedule::has_direct_room(targets@, peers@[i as int]@));
}

/// The order of the rooms makes no difference to which peers get a room.
pub proof fn order_of_rooms_is_irrelevant(
    peers: &Vec<Mxid>,
    targets: &Vec<Vec<String>>,
    shuffled: &Vec<Vec<String>>,
    sending: bool,
    r: Vec<usize>,
    s: Vec<usize>,
    i: usize,
)
    requires
        call_ensures(dm_candidates, (peers, targets, sending), r),
        call_ensures(dm_candidates, (peers, shuffled, sending), s),
        targets@.to_multiset() == shuffled@.to_multiset(),
    ensures
        r@.contains(i) <==> s@.contains(i),
{
    peers_without_room_get_one(peers, targets, sending, r, i);
    peers_without_room_get_one(peers, shuffled, sending, s, i);
    broadcast use vstd::seq_lib::group_to_multiset_ensures;

    assert forall|j: int| 0 <= j < targets@.len() implies shuffled@.contains(
        #[trigger] targets@[j],
    ) by {
        assert(targets@.contains(targets@[j]));
        assert(targets@.to_multiset().count(targets@[j]) > 0);
    }
    assert forall|j: int| 0 <= j < shuffled@.len() implies targets@.contains(
        #[trigger] shuffled@[j],
    ) by {
        assert(shuffled@.contains(shuffled@[j]));
        assert(shuffled@.to_multiset().count(shuffled@[j]) > 0);
    }
}

/// The report on a direct room names the peer, and the room or the error.
pub proof fn direct_rooms_are_reported(
    peer: &str,
    room_id: String,
    error: String,
    opened: String,
    failed: String,
)
    requires
        call_ensures(describe_dm, (peer, &Ok(room_id)), opened),
        call_ensures(describe_dm, (peer, &Err(error)), failed),
    ensures
        opened@ == "🤝 Created DM "@ + room_id@ + " with "@ + peer@,
        failed@ == "✘ Failed to create DM with "@ + peer@ + ": "@ + error@,
{
}

// ── Taking turns ────────────────────────────────────────────────────────

/// Two picks one after the other among the same candidates take neighbouring
/// ones, with the first following the last; without candidates the turn stays.
pub proof fn picks_go_round(
    turn: &mut usize,
    next: &mut usize,
    n: usize,
    a: Option<usize>,
    b: Option<usize>,
)
    requires
        call_ensures(pick, (turn, n), a),
        call_ensures(pick, (next, n), b),
        *old(next) == *final(turn),
    ensures
        n == 0 ==> a is None && *final(turn) == *old(turn),
        n > 0 && *old(turn) < usize::MAX ==> (a matches Some(i) && b matches Some(j) && i < n && j
            == (if i + 1 == n {
            0
        } else {
            i + 1
        })),
        n > 0 && *old(turn) == usize::MAX ==> b == Some(0usize),
        n > 0 ==> (a matches Some(i) && exists|rounds: int| *old(turn) == #[trigger] (rounds * n)
            + i),
        n > 0 && *old(turn) == 0 ==> a == Some(0usize),
{
    if n > 0 {
        assert(*old(turn) as int == (*old(turn) as int / n as int) * n + *old(turn) as int
            % n as int) by {
            vstd::arithmetic::div_mod::lemma_fundamental_div_mod(*old(turn) as int, n as int);
            vstd::arithmetic::mul::lemma_mul_is_commutative(
                *old(turn) as int / n as int,
                n as int,
            );
        }
        vstd::arithmetic::div_mod::lemma_small_mod(0, n as nat);
        let t = *old(turn) as int;
        let m = n as int;
        vstd::arithmetic::div_mod::lemma_fundamental_div_mod(t, m);
        let q = t / m;
        let i = t % m;
        if i + 1 == m {
            assert(t + 1 == (q + 1) * m + 0) by (nonlinear_arith)
                requires
                    t == m * q + i,
                    i + 1 == m,
            ;
            vstd::arithmetic::div_mod::lemma_fundamental_div_mod_converse(t + 1, m, q + 1, 0);
        } else {
            assert(t + 1 == q * m + (i + 1)) by (nonlinear_arith)
                requires
                    t == m * q + i,
            ;
            vstd::arithmetic::div_mod::lemma_fundamental_div_mod_converse(t + 1, m, q, i + 1);
        }
        if t == 0 {
            vstd::arithmetic::div_mod::lemma_small_mod(0, m as nat);
        }
    }
}

/// The first round tries checking, then sending, then opening a direct room.
pub proof fn first_round_begins_with_checking(
    cycle: ActionCycle,
    a: Action,
    b: Action,
    c: Action,
)
    requires
        call_ensures(ActionCycle::new, (), cycle),
        call_ensures(ActionCycle::action, (&cycle, 0u8), a),
        call_ensures(ActionCycle::action, (&cycle, 1u8), b),
        call_ensures(ActionCycle::action, (&cycle, 2u8), c),
    ensures
        a == Action::Verify,
        b == Action::Send,
        c == Action::CreateDm,
{
}

/// After a round in which something was done, the next round begins with what
/// stood second; otherwise with what stood first.
pub proof fn rounds_rotate(
    before: &ActionCycle,
    cycle: &mut ActionCycle,
    after: &ActionCycle,
    did_something: bool,
    place: u8,
    now: Action,
    same: Action,
    following: Action,
)
    requires
        before.valid(),
        *old(cycle) == *before,
        call_ensures(ActionCycle::end_round, (cycle, did_something), ()),
        *final(cycle) == *after,
        place < 2,
        call_ensures(ActionCycle::action, (after, place), now),
        call_ensures(ActionCycle::action, (before, place), same),
        call_ensures(ActionCycle::action, (before, (place + 1) as u8), following),
    ensures
        did_something ==> now == following,
        !did_something ==> now == same,
{
}

/// What stood first stands last in the round after one in which something was
/// done; otherwise the last place stays as it was.
pub proof fn first_action_becomes_the_last(
    before: &ActionCycle,
    cycle: &mut ActionCycle,
    after: &ActionCycle,
    did_something: bool,
    last: Action,
    was_first: Action,
    was_last: Action,
)
    requires
        before.valid(),
        *old(cycle) == *before,
        call_ensures(ActionCycle::end_round, (cycle, did_something), ()),
        *final(cycle) == *after,
        call_ensures(ActionCycle::action, (after, 2u8), last),
        call_ensures(ActionCycle::action, (before, 0u8), was_first),
        call_ensures(ActionCycle::action, (before, 2u8), was_last),
    ensures
        did_something ==> last == was_first,
        !did_something ==> last == was_last,
{
}

/// A round goes on to the next of its three places exactly as long as nothing
/// was done.
pub proof fn round_goes_on_without_success(place: u8, did_something: bool, r: Option<u8>)
    requires
        call_ensures(ActionCycle::next_place, (place, did_something), r),
        place < 3,
    ensures
        did_something ==> r is None,
        !did_something && place == 0 ==> r == Some(1u8),
        !did_something && place == 1 ==> r == Some(2u8),
        place == 2 ==> r is None,
{
}

// ── After a check ───────────────────────────────────────────────────────

/// A room in which something was wrong is disabled for good, and left if and
/// only if that is wanted; nothing else of the room changes.
pub proof fn faulty_rooms_are_disabled(
    room: &mut TrackedRoom,
    report: &PageReport,
    leave_on_failure: bool,
    r: VerifyOutcome,
)
    requires
        call_ensures(TrackedRoom::after_page, (room, report, leave_on_failure), r),
    ensures
        final(room).state.failed <==> old(room).state.failed || report.failed,
        r.leave <==> report.failed && leave_on_failure,
        final(room).room_id == old(room).room_id,
        final(room).state.next_serial == old(room).state.next_serial,
        final(room).state.pagination_token == old(room).state.pagination_token,
        final(room).state.started == old(room).state.started,
        final(room).state.fully_verified == old(room).state.fully_verified,
        final(room).state.last_serial_by_user@ == old(room).state.last_serial_by_user@,
        report.failed ==> r.text@ == old(room).room_id@ + " (FAILED)"@,
        !report.failed ==> r.text@ == old(room).room_id@ + " ("@ + crate::number::decimal(
            report.count as nat,
        ) + " events)"@,
{
}

/// Rooms can be tracked from the start, and after every change.
pub proof fn rooms_can_be_tracked_on(
    fresh: Rooms,
    found: &mut Rooms,
    id: String,
    left: &mut Rooms,
    joined: &Vec<String>,
    raised: &mut Rooms,
    live: &LiveSerials,
    ours: &str,
    next: &mut Rooms,
)
    requires
        call_ensures(Rooms::new, (), fresh),
        old(found).valid(),
        call_ensures(Rooms::discover, (found, id), ()),
        old(left).valid(),
        call_ensures(Rooms::forget_left, (left, joined), ()),
        old(raised).valid(),
        live.valid(),
        call_ensures(Rooms::merge_serials, (raised, live, ours), ()),
        *old(next) == fresh || *old(next) == *final(found) || *old(next) == *final(left)
            || *old(next) == *final(raised),
    ensures
        call_requires(Rooms::discover, (next, id)),
        call_requires(Rooms::forget_left, (next, joined)),
        call_requires(Rooms::merge_serials, (next, live, ours)),
{
}

/// Numbers can be kept from the start, and after every message.
pub proof fn numbers_can_be_kept_on(
    fresh: LiveSerials,
    live: &mut LiveSerials,
    room: &str,
    user: &str,
    serial: u64,
    next: &mut LiveSerials,
)
    requires
        call_ensures(LiveSerials::new, (), fresh),
        old(live).valid(),
        call_ensures(LiveSerials::observe, (live, room, user, serial), ()),
        *old(next) == fresh || *old(next) == *final(live),
    ensures
        call_requires(LiveSerials::observe, (next, room, user, serial)),
        call_requires(LiveSerials::get, (&*old(next), room, user)),
{
}

/// Rounds can be made from the start, and after every round.
pub proof fn rounds_can_be_made_on(
    fresh: ActionCycle,
    cycle: &mut ActionCycle,
    did_something: bool,
    next: &mut ActionCycle,
    place: u8,
)
    requires
        call_ensures(ActionCycle::new, (), fresh),
        old(cycle).valid(),
        call_ensures(ActionCycle::end_round, (cycle, did_something), ()),
        *old(next) == fresh || *old(next) == *final(cycle),
    ensures
        call_requires(ActionCycle::end_round, (next, did_something)),
        place < 3 ==> call_requires(ActionCycle::action, (&*old(next), place)),
{
}

} // verus!
