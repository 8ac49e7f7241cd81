//! What a user does in each round: check a room, send a message, or open a
//! direct room, each in turn.
use crate::history::serial_after;
use crate::history::PageReport;
use crate::history::RoomVerificationState;
use crate::number::decimal;
use crate::number::decimal_text;
use crate::text::joined;
use crate::users::Mxid;
use vstd::prelude::*;

verus! {

// ── Promotion ───────────────────────────────────────────────────────────

/// Whether our device sends. It does so once it has been the first device for
/// some rounds, so that other devices have the chance to appear.
#[derive(Debug, Clone, Copy, PartialEq, Eq, Structural)]
pub struct Promotion {
    /// Whether our device was the first one when last looked.
    pub first: bool,
    /// Rounds in which it was, since it became so.
    pub rounds: u64,
    /// Whether the wait is over.
    pub promoted: bool,
}

impl Promotion {
    /// The promotion at the start.
    pub fn new(first: bool) -> (r: Self)
        ensures
            r == (Promotion { first, rounds: 0, promoted: false }),
    {
        Promotion { first, rounds: 0, promoted: false }
    }

    /// Where the promotion stands after a round.
    pub open spec fn next(self, first: bool, wait: u64) -> Promotion {
        let same = first == self.first;
        let rounds = if same {
            self.rounds
        } else {
            0
        };
        let promoted = same && self.promoted;
        if first && !promoted {
            let now = serial_after(rounds);
            Promotion { first, rounds: now, promoted: now > wait }
        } else {
            Promotion { first, rounds, promoted }
        }
    }

    /// Takes in a round, in which our device is the first one or not.
    pub fn round(&mut self, first: bool, wait: u64)
        ensures
            *final(self) == old(self).next(first, wait),
    {
        if first != self.first {
            self.rounds = 0;
            self.promoted = false;
        }
        self.first = first;
        if first && !self.promoted {
            self.rounds = self.rounds.wrapping_add(1);
            if self.rounds > wait {
                self.promoted = true;
            }
        }
    }

    /// Whether our device sends messages and opens rooms.
    pub open spec fn sending(self) -> bool {
        self.first && self.promoted
    }

    /// Whether our device sends messages and opens rooms.
    pub fn is_sending(&self) -> (r: bool)
        ensures
            r == self.sending(),
    {
        self.first && self.promoted
    }

    /// Where the promotion stands after a number of rounds with our device
    /// first.
    pub open spec fn after_first_rounds(self, n: nat, wait: u64) -> Promotion
        decreases n,
    {
        if n == 0 {
            self
        } else {
            self.after_first_rounds((n - 1) as nat, wait).next(true, wait)
        }
    }
}

/// Our device sends from the round on that follows `wait` rounds in which it
/// was the first one, counted from the start or from when it became the first.
pub proof fn sends_after_the_wait(start: Promotion, n: nat, wait: u64)
    requires
        1 <= n <= u64::MAX,
        start.first ==> start.rounds == 0 && !start.promoted,
    ensures
        start.after_first_rounds(n, wait).first,
        start.after_first_rounds(n, wait).sending() <==> n > wait,
        !start.after_first_rounds(n, wait).promoted ==> start.after_first_rounds(n, wait).rounds
            == n,
    decreases n,
{
    if n > 1 {
        sends_after_the_wait(start, (n - 1) as nat, wait);
    } else {
        assert(start.after_first_rounds(0, wait) == start);
    }
}

/// A device that is not the first one does not send, and has to wait again.
pub proof fn others_do_not_send(p: Promotion, wait: u64)
    ensures
        !p.next(false, wait).sending(),
        p.first ==> p.next(false, wait) == (Promotion { first: false, rounds: 0, promoted: false }),
{
}

// ── Serial numbers from live messages ───────────────────────────────────

/// The highest serial number of a user's messages in a room.
#[derive(Debug)]
pub struct LiveSerial {
    pub room: String,
    pub user: String,
    pub serial: u64,
}

/// The highest serial numbers seen so far.
pub struct LiveSerials {
    pub entries: Vec<LiveSerial>,
}

/// Whether the entry is about the user in the room.
pub open spec fn is_about(entry: LiveSerial, room: Seq<char>, user: Seq<char>) -> bool {
    entry.room@ == room && entry.user@ == user
}

impl LiveSerials {
    /// No two entries are about the same user in the same room.
    pub open spec fn valid(self) -> bool {
        forall|i: int, j: int|
            #![trigger self.entries@[i], self.entries@[j]]
            0 <= i < j < self.entries@.len() ==> !is_about(
                self.entries@[j],
                self.entries@[i].room@,
                self.entries@[i].user@,
            )
    }

    /// Whether `serial` is the number of the user in the room.
    pub open spec fn has(self, room: Seq<char>, user: Seq<char>, serial: u64) -> bool {
        exists|i: int|
            0 <= i < self.entries@.len() && is_about(#[trigger] self.entries@[i], room, user)
                && self.entries@[i].serial == serial
    }

    /// The number of the user in the room, if there is one.
    pub open spec fn number(self, room: Seq<char>, user: Seq<char>) -> Option<u64> {
        if exists|serial: u64| self.has(room, user, serial) {
            Some(choose|serial: u64| self.has(room, user, serial))
        } else {
            None
        }
    }

    proof fn lemma_number(self, room: Seq<char>, user: Seq<char>, i: int)
        requires
            self.valid(),
            0 <= i < self.entries@.len(),
            is_about(self.entries@[i], room, user),
        ensures
            self.number(room, user) == Some(self.entries@[i].serial),
    {
        let serial = self.entries@[i].serial;
        assert(self.has(room, user, serial));
        let other = choose|serial: u64| self.has(room, user, serial);
        assert(self.has(room, user, other));
        let j = choose|j: int|
            0 <= j < self.entries@.len() && is_about(#[trigger] self.entries@[j], room, user)
                && self.entries@[j].serial == other;
        if i < j {
            assert(!is_about(self.entries@[j], self.entries@[i].room@, self.entries@[i].user@));
        }
        if j < i {
            assert(!is_about(self.entries@[i], self.entries@[j].room@, self.entries@[j].user@));
        }
    }

    proof fn lemma_no_number(self, room: Seq<char>, user: Seq<char>)
        requires
            forall|i: int|
                0 <= i < self.entries@.len() ==> !is_about(#[trigger] self.entries@[i], room, user),
        ensures
            self.number(room, user) is None,
    {
    }

    /// Nothing seen.
    pub fn new() -> (r: Self)
        ensures
            r.valid(),
            forall|room: Seq<char>, user: Seq<char>| (#[trigger] r.number(room, user)) is None,
    {
        LiveSerials { entries: Vec::new() }
    }

    fn position(&self, room: &str, user: &str) -> (r: usize)
        ensures
            r <= self.entries@.len(),
            r < self.entries@.len() ==> is_about(self.entries@[r as int], room@, user@),
            r == self.entries@.len() ==> forall|i: int|
                0 <= i < self.entries@.len() ==> !is_about(
                    #[trigger] self.entries@[i],
                    room@,
                    user@,
                ),
    {
        let room_text = room.to_owned();
        let user_text = user.to_owned();
        let mut i: usize = 0;
        while i < self.entries.len()
            invariant
                i <= self.entries@.len(),
                room_text@ == room@,
                user_text@ == user@,
                forall|k: int|
                    0 <= k < i ==> !is_about(#[trigger] self.entries@[k], room@, user@),
            decreases self.entries@.len() - i,
        {
            if self.entries[i].room == room_text && self.entries[i].user == user_text {
                return i;
            }
            i = i + 1;
        }
        i
    }

    /// The highest number of the user in the room, if a message was seen.
    pub fn get(&self, room: &str, user: &str) -> (r: Option<u64>)
        requires
            self.valid(),
        ensures
            r == self.number(room@, user@),
    {
        let i: usize = self.position(room, user);
        if i < self.entries.len() {
            proof {
                self.lemma_number(room@, user@, i as int);
            }
            Some(self.entries[i].serial)
        } else {
            proof {
                self.lemma_no_number(room@, user@);
            }
            None
        }
    }

    /// Takes in the serial number of a message.
    pub fn observe(&mut self, room: &str, user: &str, serial: u64)
        requires
            old(self).valid(),
        ensures
            final(self).valid(),
            final(self).number(room@, user@) == Some(higher(old(self).number(room@, user@), serial)),
            forall|r: Seq<char>, u: Seq<char>|
                r != room@ || u != user@ ==> #[trigger] final(self).number(r, u) == old(
                    self,
                ).number(r, u),
    {
        let ghost before = *self;
        let i: usize = self.position(room, user);
        if i < self.entries.len() {
            proof {
                before.lemma_number(room@, user@, i as int);
            }
            if serial >= self.entries[i].serial {
                let entry = LiveSerial { room: room.to_owned(), user: user.to_owned(), serial };
                self.entries.set(i, entry);
            }
            proof {
                assert forall|a: int, b: int|
                    #![trigger self.entries@[a], self.entries@[b]]
                    0 <= a < b < self.entries@.len() implies !is_about(
                    self.entries@[b],
                    self.entries@[a].room@,
                    self.entries@[a].user@,
                ) by {
                    assert(!is_about(
                        before.entries@[b],
                        before.entries@[a].room@,
                        before.entries@[a].user@,
                    ));
                }
                self.lemma_number(room@, user@, i as int);
                assert forall|r: Seq<char>, u: Seq<char>| r != room@ || u != user@ implies #[trigger] self.number(
                    r,
                    u,
                ) == before.number(r, u) by {
                    lemma_same_numbers(before, *self, r, u);
                }
            }
        } else {
            proof {
                before.lemma_no_number(room@, user@);
            }
            self.entries.push(LiveSerial { room: room.to_owned(), user: user.to_owned(), serial });
            proof {
                assert forall|a: int, b: int|
                    #![trigger self.entries@[a], self.entries@[b]]
                    0 <= a < b < self.entries@.len() implies !is_about(
                    self.entries@[b],
                    self.entries@[a].room@,
                    self.entries@[a].user@,
                ) by {
                    if b < before.entries@.len() {
                        assert(!is_about(
                            before.entries@[b],
                            before.entries@[a].room@,
                            before.entries@[a].user@,
                        ));
                    } else {
                        assert(!is_about(before.entries@[a], room@, user@));
                    }
                }
                self.lemma_number(room@, user@, i as int);
                assert forall|r: Seq<char>, u: Seq<char>| r != room@ || u != user@ implies #[trigger] self.number(
                    r,
                    u,
                ) == before.number(r, u) by {
                    lemma_same_numbers(before, *self, r, u);
                }
            }
        }
    }
}

/// The serial number, or the one known before where that is higher.
pub open spec fn higher(known: Option<u64>, serial: u64) -> u64 {
    match known {
        Some(k) if k > serial => k,
        _ => serial,
    }
}

proof fn lemma_same_numbers(a: LiveSerials, b: LiveSerials, room: Seq<char>, user: Seq<char>)
    requires
        a.valid(),
        b.valid(),
        a.entries@.len() <= b.entries@.len(),
        forall|i: int|
            0 <= i < a.entries@.len() ==> (is_about(#[trigger] b.entries@[i], room, user)
                <==> is_about(a.entries@[i], room, user)) && (is_about(b.entries@[i], room, user)
                ==> a.entries@[i].serial == b.entries@[i].serial),
        forall|i: int|
            a.entries@.len() <= i < b.entries@.len() ==> !is_about(
                #[trigger] b.entries@[i],
                room,
                user,
            ),
    ensures
        a.number(room, user) == b.number(room, user),
{
    if exists|i: int| 0 <= i < a.entries@.len() && is_about(#[trigger] b.entries@[i], room, user) {
        let i = choose|i: int|
            0 <= i < a.entries@.len() && is_about(#[trigger] b.entries@[i], room, user);
        a.lemma_number(room, user, i);
        b.lemma_number(room, user, i);
    } else {
        assert forall|i: int| 0 <= i < a.entries@.len() implies !is_about(
            #[trigger] a.entries@[i],
            room,
            user,
        ) by {
            assert(!is_about(b.entries@[i], room, user));
        }
        a.lemma_no_number(room, user);
        b.lemma_no_number(room, user);
    }
}

/// Our next serial number, given the highest one that other devices of ours
/// have been seen to use.
pub open spec fn merged(next: Option<u64>, live: Option<u64>) -> Option<u64> {
    match (next, live) {
        (_, None) => next,
        (None, Some(serial)) => Some(serial_after(serial)),
        (Some(current), Some(serial)) => if serial_after(serial) > current {
            Some(serial_after(serial))
        } else {
            Some(current)
        },
    }
}

/// Our next serial number, raised above what other devices of ours have used.
pub fn merge_live(next: Option<u64>, live: Option<u64>) -> (r: Option<u64>)
    ensures
        r == merged(next, live),
{
    match live {
        None => next,
        Some(serial) => {
            let candidate: u64 = serial.wrapping_add(1);
            match next {
                Some(current) => if candidate > current {
                    Some(candidate)
                } else {
                    next
                },
                None => Some(candidate),
            }
        },
    }
}

/// Whatever our devices have sent, our next serial number is above it, and it
/// never goes down.
pub proof fn merging_never_repeats(next: Option<u64>, live: u64)
    requires
        live < u64::MAX,
    ensures
        merged(next, Some(live)) matches Some(n) && n > live,
        next matches Some(n) ==> merged(next, Some(live))->0 >= n,
{
}

// ── Rooms ───────────────────────────────────────────────────────────────

/// A room that the user has joined.
pub struct TrackedRoom {
    pub room_id: String,
    pub state: RoomVerificationState,
}

/// The rooms that the user has joined, as far as is known.
pub struct Rooms {
    pub list: Vec<TrackedRoom>,
}

/// Whether a text is among the given ones.
pub open spec fn lists(ids: Seq<String>, id: Seq<char>) -> bool {
    exists|i: int| 0 <= i < ids.len() && (#[trigger] ids[i])@ == id
}

/// The rooms whose IDs are among the given ones, in order.
pub open spec fn still_joined(rooms: Seq<TrackedRoom>, joined: Seq<String>) -> Seq<TrackedRoom>
    decreases rooms.len(),
{
    if rooms.len() == 0 {
        Seq::empty()
    } else {
        let before = still_joined(rooms.drop_last(), joined);
        if lists(joined, rooms.last().room_id@) {
            before.push(rooms.last())
        } else {
            before
        }
    }
}

fn is_listed(ids: &Vec<String>, id: &String) -> (r: bool)
    ensures
        r == lists(ids@, id@),
{
    let mut i: usize = 0;
    while i < ids.len()
        invariant
            i <= ids@.len(),
            forall|k: int| 0 <= k < i ==> (#[trigger] ids@[k])@ != id@,
        decreases ids@.len() - i,
    {
        if ids[i] == *id {
            return true;
        }
        i = i + 1;
    }
    false
}

/// Whether the positions are in increasing order and are exactly those below
/// `n` for which `p` holds.
pub open spec fn are_positions(found: Seq<usize>, n: int, p: spec_fn(int) -> bool) -> bool {
    &&& forall|a: int, b: int| 0 <= a < b < found.len() ==> #[trigger] found[a] < #[trigger] found[b]
    &&& forall|a: int| 0 <= a < found.len() ==> (#[trigger] found[a]) < n && p(found[a] as int)
    &&& forall|i: int| 0 <= i < n && #[trigger] p(i) ==> found.contains(i as usize)
}

proof fn lemma_push_position(found: Seq<usize>, i: usize, p: spec_fn(int) -> bool)
    requires
        are_positions(found, i as int, p),
        p(i as int),
    ensures
        are_positions(found.push(i), i + 1, p),
{
    let more = found.push(i);
    assert forall|k: int| 0 <= k < i + 1 && #[trigger] p(k) implies more.contains(k as usize) by {
        if k < i {
            assert(found.contains(k as usize));
            let a = choose|a: int| 0 <= a < found.len() && found[a] == k as usize;
            assert(more[a] == k as usize);
        } else {
            assert(more[found.len() as int] == i);
        }
    }
}

impl Rooms {
    /// No room occurs twice, and the check of each is sound.
    pub open spec fn valid(self) -> bool {
        &&& forall|i: int, j: int|
            0 <= i < j < self.list@.len() ==> (#[trigger] self.list@[i]).room_id@ != (
            #[trigger] self.list@[j]).room_id@
        &&& forall|i: int| 0 <= i < self.list@.len() ==> (#[trigger] self.list@[i]).state.valid()
    }

    /// Whether a room is among them.
    pub open spec fn tracks(self, id: Seq<char>) -> bool {
        exists|i: int| 0 <= i < self.list@.len() && (#[trigger] self.list@[i]).room_id@ == id
    }

    /// No rooms.
    pub fn new() -> (r: Self)
        ensures
            r.list@.len() == 0,
            r.valid(),
    {
        Rooms { list: Vec::new() }
    }

    /// Whether a room is among them.
    pub fn is_tracked(&self, id: &String) -> (r: bool)
        ensures
            r == self.tracks(id@),
    {
        let mut i: usize = 0;
        while i < self.list.len()
            invariant
                i <= self.list@.len(),
                forall|k: int| 0 <= k < i ==> (#[trigger] self.list@[k]).room_id@ != id@,
            decreases self.list@.len() - i,
        {
            if self.list[i].room_id == *id {
                return true;
            }
            i = i + 1;
        }
        false
    }

    /// Adds a room of which nothing is known yet. A room that is among them
    /// stays as it is.
    pub fn discover(&mut self, id: String)
        requires
            old(self).valid(),
        ensures
            final(self).valid(),
            final(self).tracks(id@),
            if old(self).tracks(id@) {
                final(self).list@ == old(self).list@
            } else {
                &&& final(self).list@.len() == old(self).list@.len() + 1
                &&& final(self).list@.drop_last() == old(self).list@
                &&& final(self).list@.last().room_id@ == id@
                &&& final(self).list@.last().state.tracking() == crate::history::nothing_known()
                &&& !final(self).list@.last().state.started
                &&& !final(self).list@.last().state.failed
                &&& !final(self).list@.last().state.fully_verified
                &&& final(self).list@.last().state.pagination_token is None
            },
    {
        if self.is_tracked(&id) {
            return;
        }
        let ghost before = self.list@;
        self.list.push(TrackedRoom { room_id: id, state: RoomVerificationState::new() });
        assert(self.list@.drop_last() =~= before);
        assert(self.list@[before.len() as int].room_id@ == id@);
    }

    /// Drops the rooms that are no longer joined.
    pub fn forget_left(&mut self, joined: &Vec<String>)
        requires
            old(self).valid(),
        ensures
            final(self).valid(),
            final(self).list@ == still_joined(old(self).list@, joined@),
    {
        let ghost all = self.list@;
        let mut kept: Vec<TrackedRoom> = Vec::new();
        let mut done: usize = 0;
        let total: usize = self.list.len();
        assert(all.take(0) =~= Seq::<TrackedRoom>::empty());
        while done < total
            invariant
                done <= total,
                total == all.len(),
                self.list@ == all.skip(done as int),
                kept@ == still_joined(all.take(done as int), joined@),
            decreases total - done,
        {
            let room = self.list.remove(0);
            assert(room == all[done as int]);
            assert(self.list@ =~= all.skip(done + 1));
            assert(all.take(done + 1).drop_last() =~= all.take(done as int));
            assert(all.take(done + 1).last() == room);
            if is_listed(joined, &room.room_id) {
                kept.push(room);
            }
            done = done + 1;
        }
        assert(all.take(all.len() as int) =~= all);
        proof {
            lemma_still_joined(all, joined@);
        }
        self.list = kept;
    }

    /// Raises our next serial number in each room above what other devices of
    /// ours have used there.
    pub fn merge_serials(&mut self, live: &LiveSerials, our_user_id: &str)
        requires
            old(self).valid(),
            live.valid(),
        ensures
            final(self).valid(),
            final(self).list@.len() == old(self).list@.len(),
            forall|i: int|
                0 <= i < old(self).list@.len() ==> {
                    let old_room = #[trigger] old(self).list@[i];
                    let new_room = final(self).list@[i];
                    &&& new_room.room_id == old_room.room_id
                    &&& new_room.state == (RoomVerificationState {
                        next_serial: merged(
                            old_room.state.next_serial,
                            live.number(old_room.room_id@, our_user_id@),
                        ),
                        ..old_room.state
                    })
                },
    {
        let ghost all = self.list@;
        let mut i: usize = 0;
        while i < self.list.len()
            invariant
                i <= self.list@.len(),
                self.list@.len() == all.len(),
                old(self).valid(),
                all == old(self).list@,
                live.valid(),
                forall|k: int| i <= k < all.len() ==> self.list@[k] == all[k],
                forall|k: int|
                    0 <= k < i ==> {
                        let old_room = #[trigger] all[k];
                        let new_room = self.list@[k];
                        &&& new_room.room_id == old_room.room_id
                        &&& new_room.state == (RoomVerificationState {
                            next_serial: merged(
                                old_room.state.next_serial,
                                live.number(old_room.room_id@, our_user_id@),
                            ),
                            ..old_room.state
                        })
                    },
            decreases self.list@.len() - i,
        {
            let seen = live.get(self.list[i].room_id.as_str(), our_user_id);
            let next = merge_live(self.list[i].state.next_serial, seen);
            let room = &mut self.list[i];
            room.state.next_serial = next;
            i = i + 1;
        }
        assert forall|a: int, b: int| 0 <= a < b < self.list@.len() implies (
        #[trigger] self.list@[a]).room_id@ != (#[trigger] self.list@[b]).room_id@ by {
            assert(all[a].room_id@ != all[b].room_id@);
        }
        assert forall|a: int| 0 <= a < self.list@.len() implies (
        #[trigger] self.list@[a]).state.valid() by {
            assert(all[a].state.valid());
        }
    }

    /// Whether there is more to check in the room at `i`.
    pub open spec fn checkable(self) -> spec_fn(int) -> bool {
        |i: int| !self.list@[i].state.failed && !self.list@[i].state.fully_verified
    }

    /// Whether messages may be sent to the room at `i`.
    pub open spec fn sendable(self) -> spec_fn(int) -> bool {
        |i: int| !self.list@[i].state.failed && self.list@[i].state.next_serial is Some
    }

    /// The rooms with more to check.
    pub fn verify_candidates(&self) -> (r: Vec<usize>)
        ensures
            are_positions(r@, self.list@.len() as int, self.checkable()),
    {
        let ghost p = self.checkable();
        let mut found: Vec<usize> = Vec::new();
        let mut i: usize = 0;
        while i < self.list.len()
            invariant
                i <= self.list@.len(),
                p == self.checkable(),
                are_positions(found@, i as int, p),
            decreases self.list@.len() - i,
        {
            if self.list[i].state.needs_verification() {
                proof {
                    lemma_push_position(found@, i, p);
                }
                found.push(i);
            } else {
                assert(!p(i as int));
            }
            i = i + 1;
        }
        found
    }

    /// The rooms that messages may be sent to, if our device sends at all.
    pub fn send_candidates(&self, sending: bool) -> (r: Vec<usize>)
        ensures
            if sending {
                are_positions(r@, self.list@.len() as int, self.sendable())
            } else {
                r@.len() == 0
            },
    {
        let ghost p = self.sendable();
        let mut found: Vec<usize> = Vec::new();
        if !sending {
            return found;
        }
        let mut i: usize = 0;
        while i < self.list.len()
            invariant
                i <= self.list@.len(),
                p == self.sendable(),
                are_positions(found@, i as int, p),
            decreases self.list@.len() - i,
        {
            if self.list[i].state.is_send_eligible() {
                proof {
                    lemma_push_position(found@, i, p);
                }
                found.push(i);
            } else {
                assert(!p(i as int));
            }
            i = i + 1;
        }
        found
    }
}

proof fn lemma_still_joined(rooms: Seq<TrackedRoom>, joined: Seq<String>)
    requires
        forall|i: int, j: int|
            0 <= i < j < rooms.len() ==> (#[trigger] rooms[i]).room_id@ != (
            #[trigger] rooms[j]).room_id@,
        forall|i: int| 0 <= i < rooms.len() ==> (#[trigger] rooms[i]).state.valid(),
    ensures
        ({
            let kept = still_joined(rooms, joined);
            &&& forall|i: int, j: int|
                0 <= i < j < kept.len() ==> (#[trigger] kept[i]).room_id@ != (
                #[trigger] kept[j]).room_id@
            &&& forall|i: int| 0 <= i < kept.len() ==> (#[trigger] kept[i]).state.valid()
            &&& forall|i: int| 0 <= i < kept.len() ==> rooms.contains(#[trigger] kept[i])
        }),
    decreases rooms.len(),
{
    if rooms.len() > 0 {
        let front = rooms.drop_last();
        lemma_still_joined(front, joined);
        let before = still_joined(front, joined);
        let kept = still_joined(rooms, joined);
        assert forall|i: int| 0 <= i < before.len() implies rooms.contains(
            #[trigger] before[i],
        ) by {
            let k = choose|k: int| 0 <= k < front.len() && front[k] == before[i];
            assert(rooms[k] == before[i]);
        }
        assert forall|i: int, j: int| 0 <= i < j < kept.len() implies (
        #[trigger] kept[i]).room_id@ != (#[trigger] kept[j]).room_id@ by {
            if j == before.len() {
                assert(front.contains(before[i]));
                let k = choose|k: int| 0 <= k < front.len() && front[k] == before[i];
                assert(rooms[k] == before[i]);
                assert(rooms[rooms.len() - 1] == rooms.last());
            }
        }
        assert forall|i: int| 0 <= i < kept.len() implies rooms.contains(#[trigger] kept[i]) by {
            if i == before.len() {
                assert(rooms[rooms.len() - 1] == kept[i]);
            }
        }
        assert(rooms[rooms.len() - 1].state.valid());
    }
}

// ── Direct rooms ────────────────────────────────────────────────────────

/// Whether some room is a direct room with the peer: the peer is its only
/// target.
pub open spec fn has_direct_room(targets: Seq<Vec<String>>, peer: Seq<char>) -> bool {
    exists|i: int|
        0 <= i < targets.len() && (#[trigger] targets[i])@.len() == 1 && targets[i]@[0]@ == peer
}

fn shares_direct_room(targets: &Vec<Vec<String>>, peer: &String) -> (r: bool)
    ensures
        r == has_direct_room(targets@, peer@),
{
    let mut i: usize = 0;
    while i < targets.len()
        invariant
            i <= targets@.len(),
            forall|k: int|
                0 <= k < i ==> !((#[trigger] targets@[k])@.len() == 1 && targets@[k]@[0]@ == peer@),
        decreases targets@.len() - i,
    {
        if targets[i].len() == 1 && targets[i][0] == *peer {
            return true;
        }
        i = i + 1;
    }
    false
}

/// Whether the peer at `i` has no direct room with us.
pub open spec fn without_room(peers: Seq<Mxid>, targets: Seq<Vec<String>>) -> spec_fn(int) -> bool {
    |i: int| !has_direct_room(targets, peers[i]@)
}

/// The peers without a direct room, if our device opens rooms at all. Each
/// room has its list of targets.
pub fn dm_candidates(peers: &Vec<Mxid>, targets: &Vec<Vec<String>>, sending: bool) -> (r: Vec<
    usize,
>)
    ensures
        if sending {
            are_positions(r@, peers@.len() as int, without_room(peers@, targets@))
        } else {
            r@.len() == 0
        },
{
    let ghost p = without_room(peers@, targets@);
    let mut found: Vec<usize> = Vec::new();
    if !sending {
        return found;
    }
    let mut i: usize = 0;
    while i < peers.len()
        invariant
            i <= peers@.len(),
            p == without_room(peers@, targets@),
            are_positions(found@, i as int, p),
        decreases peers@.len() - i,
    {
        if !shares_direct_room(targets, &peers[i].full) {
            proof {
                lemma_push_position(found@, i, p);
            }
            found.push(i);
        } else {
            assert(!p(i as int));
        }
        i = i + 1;
    }
    found
}

/// What came of opening a direct room.
pub open spec fn dm_text(peer: Seq<char>, outcome: Result<String, String>) -> Seq<char> {
    match outcome {
        Ok(room_id) => "🤝 Created DM "@ + room_id@ + " with "@ + peer,
        Err(e) => "✘ Failed to create DM with "@ + peer + ": "@ + e@,
    }
}

/// A report on opening a direct room: the ID of the room, or the text of the
/// error.
pub fn describe_dm(peer: &str, outcome: &Result<String, String>) -> (r: String)
    ensures
        r@ == dm_text(peer@, *outcome),
{
    match outcome {
        Ok(room_id) => {
            let mut out = joined("🤝 Created DM ", room_id.as_str());
            out.append(" with ");
            out.append(peer);
            out
        },
        Err(e) => {
            let mut out = joined("✘ Failed to create DM with ", peer);
            out.append(": ");
            out.append(e.as_str());
            out
        },
    }
}

// ── Taking turns ────────────────────────────────────────────────────────

/// The next of `n` candidates in turn; the turn moves on.
pub fn pick(turn: &mut usize, n: usize) -> (r: Option<usize>)
    ensures
        match r {
            None => n == 0 && *final(turn) == *old(turn),
            Some(i) => n > 0 && i == *old(turn) % n && i < n && *final(turn) == turn_after(
                *old(turn),
            ),
        },
{
    if n == 0 {
        return None;
    }
    let i: usize = *turn % n;
    *turn = turn.wrapping_add(1);
    Some(i)
}

/// The turn after a turn.
pub open spec fn turn_after(turn: usize) -> usize {
    if turn == usize::MAX {
        0
    } else {
        (turn + 1) as usize
    }
}

/// Of `n` candidates, each comes up once in `n` turns.
pub proof fn every_candidate_has_its_turn(turn: int, n: int, i: int)
    requires
        0 <= turn,
        0 <= i < n,
    ensures
        exists|k: int| 0 <= k < n && #[trigger] ((turn + k) % n) == i,
        forall|j: int, k: int|
            0 <= j < n && 0 <= k < n && #[trigger] ((turn + j) % n) == #[trigger] ((turn + k) % n)
                ==> j == k,
{
    let start = turn % n;
    let k = if i >= start {
        i - start
    } else {
        i - start + n
    };
    vstd::arithmetic::div_mod::lemma_fundamental_div_mod(turn, n);
    let q = turn / n;
    if i >= start {
        assert(turn + k == q * n + i) by (nonlinear_arith)
            requires
                turn == n * q + start,
                k == i - start,
        ;
        vstd::arithmetic::div_mod::lemma_fundamental_div_mod_converse(turn + k, n, q, i);
    } else {
        assert(turn + k == (q + 1) * n + i) by (nonlinear_arith)
            requires
                turn == n * q + start,
                k == i - start + n,
        ;
        vstd::arithmetic::div_mod::lemma_fundamental_div_mod_converse(turn + k, n, q + 1, i);
    }
    assert((turn + k) % n == i);
    assert forall|a: int, b: int|
        0 <= a < n && 0 <= b < n && #[trigger] ((turn + a) % n) == #[trigger] ((turn + b)
            % n) implies a == b by {
        lemma_same_remainder(turn + a, turn + b, n);
    }
}

proof fn lemma_same_remainder(a: int, b: int, n: int)
    requires
        0 < n,
        a % n == b % n,
        -n < a - b < n,
    ensures
        a == b,
{
    vstd::arithmetic::div_mod::lemma_fundamental_div_mod(a, n);
    vstd::arithmetic::div_mod::lemma_fundamental_div_mod(b, n);
    let x = a / n;
    let y = b / n;
    assert(a - b == n * (x - y)) by (nonlinear_arith)
        requires
            a == n * x + a % n,
            b == n * y + b % n,
            a % n == b % n,
    ;
    assert(x == y) by (nonlinear_arith)
        requires
            a - b == n * (x - y),
            -n < a - b < n,
            0 < n,
    ;
}

/// What a user can do in a round.
#[derive(Debug, Clone, Copy, PartialEq, Eq, Structural)]
pub enum Action {
    Verify,
    Send,
    CreateDm,
}

/// Which action comes first in a round.
#[derive(Debug, Clone, Copy, PartialEq, Eq, Structural)]
pub struct ActionCycle {
    pub first: u8,
}

/// The action with a number.
pub open spec fn action_number(n: int) -> Action {
    if n == 0 {
        Action::Verify
    } else if n == 1 {
        Action::Send
    } else {
        Action::CreateDm
    }
}

impl ActionCycle {
    /// The number is that of an action.
    pub open spec fn valid(self) -> bool {
        self.first < 3
    }

    /// The action to try at a place, 0 to 2, of the round.
    pub open spec fn at(self, place: int) -> Action {
        action_number((self.first + place) % 3)
    }

    /// The first round begins with checking.
    pub fn new() -> (r: Self)
        ensures
            r.valid(),
            r.at(0) == Action::Verify,
            r.at(1) == Action::Send,
            r.at(2) == Action::CreateDm,
    {
        ActionCycle { first: 0 }
    }

    /// The action to try at a place, 0 to 2, of the round.
    pub fn action(&self, place: u8) -> (r: Action)
        requires
            self.valid(),
            place < 3,
        ensures
            r == self.at(place as int),
    {
        let n: u8 = (self.first + place) % 3;
        if n == 0 {
            Action::Verify
        } else if n == 1 {
            Action::Send
        } else {
            Action::CreateDm
        }
    }

    /// The place to go on with after the one given: the next one, if nothing was
    /// done and the round has one.
    pub fn next_place(place: u8, did_something: bool) -> (r: Option<u8>)
        ensures
            r == (if !did_something && place < 2 {
                Some((place + 1) as u8)
            } else {
                None
            }),
    {
        if !did_something && place < 2 {
            Some(place + 1)
        } else {
            None
        }
    }

    /// Ends a round. If something was done, the next round begins with the
    /// next action.
    pub fn end_round(&mut self, did_something: bool)
        requires
            old(self).valid(),
        ensures
            final(self).valid(),
            final(self).first == (if did_something {
                (old(self).first + 1) % 3
            } else {
                old(self).first as int
            }),
    {
        if did_something {
            self.first = (self.first + 1) % 3;
        }
    }
}

/// A round offers each of the three actions once, and after a round in which
/// something was done, the second action of that round becomes the first.
pub proof fn actions_take_turns(cycle: ActionCycle, next: ActionCycle)
    requires
        cycle.valid(),
        next.first == (cycle.first + 1) % 3,
    ensures
        cycle.at(0) != cycle.at(1) && cycle.at(1) != cycle.at(2) && cycle.at(0) != cycle.at(2),
        next.at(0) == cycle.at(1),
        next.at(1) == cycle.at(2),
        next.at(2) == cycle.at(0),
{
}

// ── After a check ───────────────────────────────────────────────────────

/// What follows the check of a page.
#[derive(Debug)]
pub struct VerifyOutcome {
    /// A report.
    pub text: String,
    /// Whether the room is to be left.
    pub leave: bool,
}

/// The report on a page.
pub open spec fn verify_text(room_id: Seq<char>, failed: bool, count: nat) -> Seq<char> {
    if failed {
        room_id + " (FAILED)"@
    } else {
        room_id + " ("@ + decimal(count) + " events)"@
    }
}

impl TrackedRoom {
    /// Takes in the report on a page. After a failure the room is disabled,
    /// and left if that is wanted.
    pub fn after_page(&mut self, report: &PageReport, leave_on_failure: bool) -> (r: VerifyOutcome)
        ensures
            final(self).room_id == old(self).room_id,
            final(self).state == (RoomVerificationState {
                failed: old(self).state.failed || report.failed,
                ..old(self).state
            }),
            r.text@ == verify_text(old(self).room_id@, report.failed, report.count as nat),
            r.leave == (report.failed && leave_on_failure),
    {
        if report.failed {
            self.state.failed = true;
            VerifyOutcome {
                text: joined(self.room_id.as_str(), " (FAILED)"),
                leave: leave_on_failure,
            }
        } else {
            let mut text = joined(self.room_id.as_str(), " (");
            text.append(decimal_text(report.count as u64).as_str());
            text.append(" events)");
            VerifyOutcome { text, leave: false }
        }
    }
}

} // verus!
