//! Checking the history of a room.
use crate::history::next_serial_stays;
use crate::history::pages_can_be_split;
use crate::history::Download;
use crate::history::EventFault;
use crate::history::PageEvent;
use crate::history::PageReport;
use crate::history::RoomVerificationState;
use crate::history::Tracking;
use crate::image::png_verdict;
use crate::message::message_round_trip;
use crate::message::parse_message_body;
use crate::number::decimal;
use vstd::prelude::*;

verus! {

// ── Messages ────────────────────────────────────────────────────────────

/// Whether a text is that of a message with the given serial number.
pub open spec fn spells(body: Seq<char>, serial: u64) -> bool {
    exists|ms: u64|
        body == "Message #"@ + decimal(serial as nat) + " "@ + #[trigger] decimal(ms as nat)
}

/// Whether an event is a text or an image by the given sender.
pub open spec fn is_by(event: PageEvent, by: Seq<char>) -> bool {
    match event {
        PageEvent::Text { sender, .. } => sender@ == by,
        PageEvent::Image { sender, .. } => sender@ == by,
        _ => false,
    }
}

/// Whether an event is a sound message of the sender with the serial number: a
/// text that spells it, or a valid image with such a caption.
pub open spec fn says(event: PageEvent, by: Seq<char>, serial: u64) -> bool {
    match event {
        PageEvent::Text { sender, body } => sender@ == by && spells(body@, serial),
        PageEvent::Image { sender, caption: Some(body), media: Download::Data(data) } => {
            sender@ == by && spells(body@, serial) && png_verdict(data@) is Ok
        },
        _ => false,
    }
}

/// Whether an event is an undecryptable one of the sender.
pub open spec fn is_hidden(event: PageEvent, by: Seq<char>) -> bool {
    event matches PageEvent::Undecryptable { known_sender: Some(sender) } && sender@ == by
}

/// The number of the sender's undecryptable events between two positions.
pub open spec fn hidden_between(events: Seq<PageEvent>, i: int, j: int, by: Seq<char>) -> int
    decreases j - i,
{
    if j <= i + 1 {
        0
    } else {
        hidden_between(events, i, j - 1, by) + (if is_hidden(events[j - 1], by) {
            1int
        } else {
            0
        })
    }
}

proof fn lemma_spelled(body: Seq<char>, serial: u64)
    requires
        spells(body, serial),
    ensures
        crate::message::parsed_message(body) matches Some((n, _)) && n == serial,
{
    let ms = choose|ms: u64|
        body == "Message #"@ + decimal(serial as nat) + " "@ + #[trigger] decimal(ms as nat);
    message_round_trip(serial, ms);
    assert(body == crate::message::message_of(serial, ms));
}

proof fn lemma_said(t: Tracking, ours: Seq<char>, event: PageEvent, by: Seq<char>, serial: u64)
    requires
        says(event, by, serial),
    ensures
        t.after(ours, event).known(by) == Some(serial),
        t.after(ours, event).next == (if by == ours && t.next is None {
            Some(crate::history::serial_after(serial))
        } else {
            t.next
        }),
        t.fault(event) is Some <==> (t.known(by) matches Some(newer) && serial + 1 != newer),
        t.fault(event) matches Some(fault) ==> fault == (EventFault::SerialMismatch {
            newer: t.known(by)->0,
            got: serial,
        }),
        forall|other: Seq<char>| other != by ==> #[trigger] t.after(ours, event).known(other)
            == t.known(other),
{
    match event {
        PageEvent::Text { body, .. } => {
            lemma_spelled(body@, serial);
        },
        PageEvent::Image { caption: Some(body), .. } => {
            lemma_spelled(body@, serial);
        },
        _ => {},
    }
}

/// An event that is neither by the sender nor hidden leaves alone what is known
/// of the sender; a hidden one lowers it by one.
proof fn lemma_others_keep(t: Tracking, ours: Seq<char>, event: PageEvent, by: Seq<char>)
    requires
        !is_by(event, by),
    ensures
        t.after(ours, event).known(by) == (match t.known(by) {
            Some(n) => if is_hidden(event, by) && n > 0 {
                Some((n - 1) as u64)
            } else {
                Some(n)
            },
            None => None,
        }),
        by == ours && t.known(ours) is None ==> t.after(ours, event).next == t.next,
{
}

proof fn lemma_known_after(
    t: Tracking,
    ours: Seq<char>,
    events: Seq<PageEvent>,
    i: int,
    j: int,
    by: Seq<char>,
    serial: u64,
)
    requires
        0 <= i < j <= events.len(),
        says(events[i], by, serial),
        forall|k: int| i < k < j ==> !is_by(#[trigger] events[k], by),
    ensures
        0 <= hidden_between(events, i, j, by),
        t.after_all(ours, events.take(j)).known(by) == Some(
            (if hidden_between(events, i, j, by) <= serial {
                serial - hidden_between(events, i, j, by)
            } else {
                0
            }) as u64,
        ),
    decreases j,
{
    let seen = events.take(j);
    assert(seen.drop_last() =~= events.take(j - 1));
    assert(seen.last() == events[j - 1]);
    let before = t.after_all(ours, events.take(j - 1));
    if j == i + 1 {
        lemma_said(before, ours, events[i], by, serial);
    } else {
        lemma_known_after(t, ours, events, i, j - 1, by, serial);
        assert(!is_by(events[j - 1], by));
        lemma_others_keep(before, ours, events[j - 1], by);
    }
}

proof fn lemma_unknown_after(
    t: Tracking,
    ours: Seq<char>,
    events: Seq<PageEvent>,
    j: int,
    by: Seq<char>,
)
    requires
        0 <= j <= events.len(),
        t.known(by) is None,
        forall|k: int| 0 <= k < j ==> !is_by(#[trigger] events[k], by),
    ensures
        t.after_all(ours, events.take(j)).known(by) is None,
        by == ours ==> t.after_all(ours, events.take(j)).next == t.next,
    decreases j,
{
    let seen = events.take(j);
    if j > 0 {
        assert(seen.drop_last() =~= events.take(j - 1));
        assert(seen.last() == events[j - 1]);
        lemma_unknown_after(t, ours, events, j - 1, by);
        assert(!is_by(events[j - 1], by));
        lemma_others_keep(t.after_all(ours, events.take(j - 1)), ours, events[j - 1], by);
    }
}

// ── Serial numbers ──────────────────────────────────────────────────────

/// Of two neighbouring messages of one sender, whatever other senders' messages
/// and undecryptable events lie between them, the older one is at fault if and
/// only if the numbers differ by something other than one plus the number of
/// that sender's undecryptable messages between them. The fault tells the older
/// number, and the newer one less the undecryptable messages.
pub proof fn neighbours_are_compared(
    room: &mut RoomVerificationState,
    ours: &str,
    events: &Vec<PageEvent>,
    end: Option<String>,
    r: PageReport,
    by: Seq<char>,
    i: int,
    newer: u64,
    j: int,
    older: u64,
)
    requires
        old(room).valid(),
        !old(room).fully_verified,
        call_ensures(RoomVerificationState::verify_page, (room, ours, events, end), r),
        0 <= i < j < events@.len(),
        says(events@[i], by, newer),
        says(events@[j], by, older),
        forall|k: int| i < k < j ==> !is_by(#[trigger] events@[k], by),
    ensures
        r.faults@.len() == events@.len(),
        r.faults@[j] is Some <==> newer != older + 1 + hidden_between(events@, i, j, by),
        r.faults@[j] is Some ==> r.failed,
        r.faults@[j] matches Some(fault) ==> (fault matches EventFault::SerialMismatch {
            newer: expected,
            got,
        } && got == older && expected == (if hidden_between(events@, i, j, by) <= newer {
            newer - hidden_between(events@, i, j, by)
        } else {
            0
        })),
{
    let t = old(room).tracking();
    lemma_known_after(t, ours@, events@, i, j, by, newer);
    lemma_said(t.after_all(ours@, events@.take(j)), ours@, events@[j], by, older);
    assert(r.faults@[j] == t.fault_at(ours@, events@, j));
}

/// A sender's first message in a page follows what an earlier page has left; of
/// a sender that is not known yet, any number is right.
pub proof fn first_message_follows_earlier_pages(
    room: &mut RoomVerificationState,
    ours: &str,
    events: &Vec<PageEvent>,
    end: Option<String>,
    r: PageReport,
    by: Seq<char>,
    j: int,
    serial: u64,
)
    requires
        old(room).valid(),
        !old(room).fully_verified,
        call_ensures(RoomVerificationState::verify_page, (room, ours, events, end), r),
        0 <= j < events@.len(),
        says(events@[j], by, serial),
        forall|k: int| 0 <= k < j ==> !is_by(#[trigger] events@[k], by) && !is_hidden(events@[k], by),
    ensures
        !old(room).last_serial_by_user@.contains_key(by) ==> r.faults@[j] is None,
        old(room).last_serial_by_user@.contains_key(by) ==> (r.faults@[j] is None <==> serial + 1
            == old(room).last_serial_by_user@[by]),
        r.faults@[j] is Some ==> r.faults@[j] == Some(
            EventFault::SerialMismatch {
                newer: old(room).last_serial_by_user@[by],
                got: serial,
            },
        ),
{
    let t = old(room).tracking();
    lemma_untouched(t, ours@, events@, j, by);
    lemma_said(t.after_all(ours@, events@.take(j)), ours@, events@[j], by, serial);
    assert(r.faults@[j] == t.fault_at(ours@, events@, j));
}

proof fn lemma_untouched(
    t: Tracking,
    ours: Seq<char>,
    events: Seq<PageEvent>,
    j: int,
    by: Seq<char>,
)
    requires
        0 <= j <= events.len(),
        forall|k: int| 0 <= k < j ==> !is_by(#[trigger] events[k], by) && !is_hidden(events[k], by),
    ensures
        t.after_all(ours, events.take(j)).known(by) == t.known(by),
    decreases j,
{
    let seen = events.take(j);
    if j > 0 {
        assert(seen.drop_last() =~= events.take(j - 1));
        assert(seen.last() == events[j - 1]);
        lemma_untouched(t, ours, events, j - 1, by);
        assert(!is_by(events[j - 1], by));
        lemma_others_keep(t.after_all(ours, events.take(j - 1)), ours, events[j - 1], by);
    }
}

/// What is known of a sender after a page is the number of its oldest message in
/// the page, less one for each of its undecryptable events behind that, and no
/// less than 0.
pub proof fn oldest_number_is_kept(
    room: &mut RoomVerificationState,
    ours: &str,
    events: &Vec<PageEvent>,
    end: Option<String>,
    r: PageReport,
    by: Seq<char>,
    i: int,
    serial: u64,
)
    requires
        old(room).valid(),
        !old(room).fully_verified,
        call_ensures(RoomVerificationState::verify_page, (room, ours, events, end), r),
        0 <= i < events@.len(),
        says(events@[i], by, serial),
        forall|k: int| i < k < events@.len() ==> !is_by(#[trigger] events@[k], by),
    ensures
        final(room).last_serial_by_user@.contains_key(by),
        final(room).last_serial_by_user@[by] == (if hidden_between(
            events@,
            i,
            events@.len() as int,
            by,
        ) <= serial {
            serial - hidden_between(events@, i, events@.len() as int, by)
        } else {
            0
        }),
{
    let t = old(room).tracking();
    let n = events@.len() as int;
    lemma_known_after(t, ours@, events@, i, n, by, serial);
    assert(events@.take(n) =~= events@);
    assert(t.after_all(ours@, events@).known(by) is Some);
    assert(final(room).tracking().last == t.after_all(ours@, events@).last);
}

/// An undecryptable message of one sender leaves what is known of every other
/// sender as it is.
pub proof fn hidden_messages_touch_their_sender_only(
    room: &mut RoomVerificationState,
    ours: &str,
    events: &Vec<PageEvent>,
    end: Option<String>,
    r: PageReport,
    by: Seq<char>,
)
    requires
        old(room).valid(),
        call_ensures(RoomVerificationState::verify_page, (room, ours, events, end), r),
        forall|k: int| 0 <= k < events@.len() ==> !is_by(#[trigger] events@[k], by) && !is_hidden(
            events@[k],
            by,
        ),
    ensures
        final(room).last_serial_by_user@.contains_key(by)
            <==> old(room).last_serial_by_user@.contains_key(by),
        old(room).last_serial_by_user@.contains_key(by) ==> final(room).last_serial_by_user@[by]
            == old(room).last_serial_by_user@[by],
{
    if !old(room).fully_verified {
        let t = old(room).tracking();
        let n = events@.len() as int;
        lemma_untouched(t, ours@, events@, n, by);
        assert(events@.take(n) =~= events@);
        assert(final(room).tracking().last == t.after_all(ours@, events@).last);
        let after = t.after_all(ours@, events@);
        assert(after.known(by) == t.known(by));
        assert(after.known(by) is Some <==> after.last.contains_key(by));
        assert(t.known(by) is Some <==> t.last.contains_key(by));
    }
}

// ── Our next number ─────────────────────────────────────────────────────

/// Our newest message tells our next number: the one after it, in 64 bits.
pub proof fn newest_own_message_tells_the_next_number(
    room: &mut RoomVerificationState,
    ours: &str,
    events: &Vec<PageEvent>,
    end: Option<String>,
    r: PageReport,
    i: int,
    serial: u64,
)
    requires
        old(room).valid(),
        !old(room).fully_verified,
        call_ensures(RoomVerificationState::verify_page, (room, ours, events, end), r),
        old(room).next_serial is None,
        !old(room).last_serial_by_user@.contains_key(ours@),
        0 <= i < events@.len(),
        says(events@[i], ours@, serial),
        forall|k: int| 0 <= k < i ==> !is_by(#[trigger] events@[k], ours@),
    ensures
        serial < u64::MAX ==> final(room).next_serial == Some((serial + 1) as u64),
        serial == u64::MAX ==> final(room).next_serial == Some(0u64),
{
    let t = old(room).tracking();
    let all = events@;
    let n = all.len() as int;
    let upto = all.take(i + 1);
    lemma_unknown_after(t, ours@, all, i, ours@);
    lemma_said(t.after_all(ours@, all.take(i)), ours@, all[i], ours@, serial);
    assert(upto.drop_last() =~= all.take(i));
    assert(upto.last() == all[i]);
    let middle = t.after_all(ours@, upto);
    assert(middle.next == Some(crate::history::serial_after(serial)));
    assert(upto + all.skip(i + 1) =~= all);
    pages_can_be_split(t, ours@, upto, all.skip(i + 1));
    next_serial_stays(middle, ours@, all.skip(i + 1));
}

/// Where only an earlier page told of a message of ours, our newest undecryptable
/// message takes the number before that one, so our next number is that one,
/// unless it is 1.
pub proof fn hidden_own_message_tells_the_next_number(
    room: &mut RoomVerificationState,
    ours: &str,
    events: &Vec<PageEvent>,
    end: Option<String>,
    r: PageReport,
    i: int,
)
    requires
        old(room).valid(),
        !old(room).fully_verified,
        call_ensures(RoomVerificationState::verify_page, (room, ours, events, end), r),
        old(room).next_serial is None,
        old(room).last_serial_by_user@.contains_key(ours@),
        old(room).last_serial_by_user@[ours@] > 1,
        0 <= i < events@.len(),
        is_hidden(events@[i], ours@),
        forall|k: int|
            0 <= k < i ==> !is_by(#[trigger] events@[k], ours@) && !is_hidden(events@[k], ours@),
    ensures
        final(room).next_serial == Some(old(room).last_serial_by_user@[ours@]),
{
    let t = old(room).tracking();
    let all = events@;
    let upto = all.take(i + 1);
    lemma_untouched(t, ours@, all, i, ours@);
    lemma_next_untouched(t, ours@, all, i);
    assert(upto.drop_last() =~= all.take(i));
    assert(upto.last() == all[i]);
    let middle = t.after_all(ours@, upto);
    assert(t.known(ours@) == Some(old(room).last_serial_by_user@[ours@]));
    assert(middle.next == t.known(ours@));
    assert(upto + all.skip(i + 1) =~= all);
    pages_can_be_split(t, ours@, upto, all.skip(i + 1));
    next_serial_stays(middle, ours@, all.skip(i + 1));
}

proof fn lemma_next_untouched(t: Tracking, ours: Seq<char>, events: Seq<PageEvent>, j: int)
    requires
        0 <= j <= events.len(),
        forall|k: int|
            0 <= k < j ==> !is_by(#[trigger] events[k], ours) && !is_hidden(events[k], ours),
    ensures
        t.after_all(ours, events.take(j)).next == t.next,
    decreases j,
{
    let seen = events.take(j);
    if j > 0 {
        assert(seen.drop_last() =~= events.take(j - 1));
        assert(seen.last() == events[j - 1]);
        lemma_next_untouched(t, ours, events, j - 1);
        assert(!is_by(events[j - 1], ours));
    }
}

/// Where the earlier pages told of a number of ours that is at most 1, undecryptable
/// messages do not tell our next number: no message of ours can come before it.
pub proof fn first_number_tells_nothing(
    room: &mut RoomVerificationState,
    ours: &str,
    events: &Vec<PageEvent>,
    end: Option<String>,
    r: PageReport,
)
    requires
        old(room).valid(),
        !old(room).fully_verified,
        call_ensures(RoomVerificationState::verify_page, (room, ours, events, end), r),
        old(room).next_serial is None,
        old(room).last_serial_by_user@.contains_key(ours@),
        old(room).last_serial_by_user@[ours@] <= 1,
        end is Some,
        events@.len() > 0,
        forall|k: int| 0 <= k < events@.len() ==> !is_by(#[trigger] events@[k], ours@),
    ensures
        final(room).next_serial is None,
{
    let t = old(room).tracking();
    lemma_no_next(t, ours@, events@, events@.len() as int);
    assert(events@.take(events@.len() as int) =~= events@);
}

proof fn lemma_no_next(t: Tracking, ours: Seq<char>, events: Seq<PageEvent>, j: int)
    requires
        0 <= j <= events.len(),
        t.next is None,
        t.known(ours) matches Some(n) && n <= 1,
        forall|k: int| 0 <= k < j ==> !is_by(#[trigger] events[k], ours),
    ensures
        t.after_all(ours, events.take(j)).next is None,
        t.after_all(ours, events.take(j)).known(ours) matches Some(n) && n <= 1,
    decreases j,
{
    let seen = events.take(j);
    if j > 0 {
        assert(seen.drop_last() =~= events.take(j - 1));
        assert(seen.last() == events[j - 1]);
        lemma_no_next(t, ours, events, j - 1);
        assert(!is_by(events[j - 1], ours));
        lemma_others_keep(t.after_all(ours, events.take(j - 1)), ours, events[j - 1], ours);
    }
}

/// A number that is known stays, and a room without a message of ours begins
/// with 1 once its oldest event is reached, and not before.
pub proof fn next_number_is_settled_once(
    room: &mut RoomVerificationState,
    ours: &str,
    events: &Vec<PageEvent>,
    end: Option<String>,
    r: PageReport,
)
    requires
        old(room).valid(),
        call_ensures(RoomVerificationState::verify_page, (room, ours, events, end), r),
    ensures
        old(room).next_serial is Some ==> final(room).next_serial == old(room).next_serial,
        !old(room).fully_verified && old(room).next_serial is None
            && !old(room).last_serial_by_user@.contains_key(ours@) && (forall|k: int|
            0 <= k < events@.len() ==> !is_by(#[trigger] events@[k], ours@))
            ==> final(room).next_serial == (if end is Some && events@.len() > 0 {
            None
        } else {
            Some(1u64)
        }),
{
    let t = old(room).tracking();
    if !old(room).fully_verified {
        if old(room).next_serial is Some {
            next_serial_stays(t, ours@, events@);
        } else if !old(room).last_serial_by_user@.contains_key(ours@) && (forall|k: int|
            0 <= k < events@.len() ==> !is_by(#[trigger] events@[k], ours@)) {
            lemma_unknown_after(t, ours@, events@, events@.len() as int, ours@);
            assert(events@.take(events@.len() as int) =~= events@);
        }
    }
}

// ── Pages ───────────────────────────────────────────────────────────────

/// Where one page ends and the next begins makes no difference: two pages one
/// after the other find what one page with all the events would.
pub proof fn pages_join(
    once: &mut RoomVerificationState,
    first: &mut RoomVerificationState,
    second: &mut RoomVerificationState,
    ours: &str,
    a: &Vec<PageEvent>,
    b: &Vec<PageEvent>,
    all: &Vec<PageEvent>,
    middle: String,
    end: Option<String>,
    r: PageReport,
    s: PageReport,
    both: PageReport,
    i: int,
)
    requires
        old(once).valid(),
        *old(first) == *old(once),
        *old(second) == *final(first),
        !old(once).fully_verified,
        a@.len() > 0,
        b@.len() > 0,
        all@ == a@ + b@,
        call_ensures(RoomVerificationState::verify_page, (first, ours, a, Some(middle)), r),
        call_ensures(RoomVerificationState::verify_page, (second, ours, b, end), s),
        call_ensures(RoomVerificationState::verify_page, (once, ours, all, end), both),
    ensures
        both.failed <==> r.failed || s.failed,
        final(second).next_serial == final(once).next_serial,
        final(second).last_serial_by_user@ == final(once).last_serial_by_user@,
        final(second).fully_verified == final(once).fully_verified,
        0 <= i < a@.len() ==> both.faults@[i] == r.faults@[i],
        0 <= i < b@.len() ==> both.faults@[a@.len() + i] == s.faults@[i],
{
    let t = old(once).tracking();
    pages_can_be_split(t, ours@, a@, b@);
    let m = t.after_all(ours@, a@);
    assert(final(first).tracking() == m);
    if 0 <= i < a@.len() {
        assert(all@.take(i) =~= a@.take(i));
        assert(both.faults@[i] == t.fault_at(ours@, all@, i));
        assert(r.faults@[i] == t.fault_at(ours@, a@, i));
    }
    if 0 <= i < b@.len() {
        let k = a@.len() + i;
        assert(all@.take(k) =~= a@ + b@.take(i));
        pages_can_be_split(t, ours@, a@, b@.take(i));
        assert(both.faults@[k] == t.fault_at(ours@, all@, k));
        assert(s.faults@[i] == m.fault_at(ours@, b@, i));
    }
}

/// The check is complete with the last page, or with an empty one; before that
/// the next page begins where this one says. A room that is complete stays as
/// it is.
pub proof fn check_ends_with_the_last_page(
    room: &mut RoomVerificationState,
    ours: &str,
    events: &Vec<PageEvent>,
    end: Option<String>,
    r: PageReport,
)
    requires
        old(room).valid(),
        call_ensures(RoomVerificationState::verify_page, (room, ours, events, end), r),
    ensures
        old(room).fully_verified ==> *final(room) == *old(room) && r.count == 0 && !r.failed,
        !old(room).fully_verified ==> {
            &&& r.count == events@.len()
            &&& final(room).started
            &&& final(room).fully_verified <==> end is None || events@.len() == 0
            &&& !final(room).fully_verified ==> final(room).pagination_token == end
            &&& final(room).fully_verified ==> final(room).pagination_token
                == old(room).pagination_token
        },
        final(room).failed == old(room).failed,
{
}

/// The page fails if and only if some event is at fault.
pub proof fn some_fault_fails_the_page(
    room: &mut RoomVerificationState,
    ours: &str,
    events: &Vec<PageEvent>,
    end: Option<String>,
    r: PageReport,
)
    requires
        old(room).valid(),
        call_ensures(RoomVerificationState::verify_page, (room, ours, events, end), r),
    ensures
        r.failed <==> exists|i: int| 0 <= i < r.faults@.len() && (#[trigger] r.faults@[i]) is Some,
{
    if !old(room).fully_verified {
        let t = old(room).tracking();
        if r.failed {
            let i = choose|i: int|
                0 <= i < events@.len() && (#[trigger] t.fault_at(ours@, events@, i)) is Some;
            assert(r.faults@[i] is Some);
        }
        if exists|i: int| 0 <= i < r.faults@.len() && (#[trigger] r.faults@[i]) is Some {
            let i = choose|i: int| 0 <= i < r.faults@.len() && (#[trigger] r.faults@[i]) is Some;
            assert(t.fault_at(ours@, events@, i) is Some);
        }
    }
}

/// What an event must be: a state change or an undecryptable event is passed
/// over; anything that is not a message, was removed, or is of another kind is
/// at fault; a text must be that of a message; an image must have a caption
/// that is, must have been downloaded, and must be valid.
pub proof fn unsound_events_are_found(
    room: &mut RoomVerificationState,
    ours: &str,
    events: &Vec<PageEvent>,
    end: Option<String>,
    r: PageReport,
    i: int,
    text: &str,
    parsed: Option<(u64, u64)>,
)
    requires
        old(room).valid(),
        !old(room).fully_verified,
        call_ensures(RoomVerificationState::verify_page, (room, ours, events, end), r),
        call_ensures(parse_message_body, (text,), parsed),
        0 <= i < events@.len(),
    ensures
        match events@[i] {
            PageEvent::State | PageEvent::Undecryptable { .. } => r.faults@[i] is None,
            PageEvent::NotAMessage => r.faults@[i] == Some(EventFault::NotAMessage),
            PageEvent::Redacted => r.faults@[i] == Some(EventFault::Redacted),
            PageEvent::Unsupported { .. } => r.faults@[i] == Some(EventFault::Unsupported),
            PageEvent::Text { body, .. } => body@ == text@ ==> (r.faults@[i] == Some(
                EventFault::BadFormat,
            ) <==> parsed is None),
            PageEvent::Image { caption: None, .. } => r.faults@[i] == Some(EventFault::NoCaption),
            PageEvent::Image { caption: Some(_), media: Download::Failed, .. } => r.faults@[i]
                == Some(EventFault::DownloadFailed),
            PageEvent::Image { caption: Some(body), media: Download::Data(data), .. } => {
                &&& r.faults@[i] == Some(EventFault::InvalidImage) <==> png_verdict(data@) is Err
                &&& png_verdict(data@) is Ok && body@ == text@ ==> (r.faults@[i] == Some(
                    EventFault::BadFormat,
                ) <==> parsed is None)
            },
        },
{
    let t = old(room).tracking();
    assert(r.faults@[i] == t.fault_at(ours@, events@, i));
}

/// A room may be sent to once our number is known and nothing was wrong, and
/// needs checking until its end or a fault.
pub proof fn rooms_tell_what_they_need(
    room: &RoomVerificationState,
    may_send: bool,
    needs_check: bool,
    fresh: RoomVerificationState,
)
    requires
        call_ensures(RoomVerificationState::is_send_eligible, (room,), may_send),
        call_ensures(RoomVerificationState::needs_verification, (room,), needs_check),
        call_ensures(RoomVerificationState::new, (), fresh),
    ensures
        may_send <==> room.next_serial is Some && !room.failed,
        needs_check <==> !room.fully_verified && !room.failed,
        fresh.next_serial is None && !fresh.failed && !fresh.fully_verified && !fresh.started,
        fresh.pagination_token is None,
        fresh.last_serial_by_user@ == Map::<Seq<char>, u64>::empty(),
{
}

/// A new room can be checked, and what a page leaves can be checked further.
pub proof fn checks_can_go_on(
    fresh: RoomVerificationState,
    room: &mut RoomVerificationState,
    ours: &str,
    events: &Vec<PageEvent>,
    end: Option<String>,
    r: PageReport,
    next: &mut RoomVerificationState,
)
    requires
        call_ensures(RoomVerificationState::new, (), fresh),
        old(room).valid(),
        call_ensures(RoomVerificationState::verify_page, (room, ours, events, end), r),
        *old(next) == fresh || *old(next) == *final(room),
    ensures
        call_requires(RoomVerificationState::verify_page, (next, ours, events, end)),
{
}

} // verus!
