//! Messages that are sent, and messages that arrive.
use crate::datapoint::AccountList;
use crate::history::Download;
use crate::history::RoomVerificationState;
use crate::image::generate_png;
use crate::image::validate_png;
use crate::image::PngError;
use crate::message::message_round_trip;
use crate::message::message_text;
use crate::message::parse_message_body;
use crate::traffic::after_send;
use crate::traffic::classify;
use crate::traffic::kind_of;
use crate::traffic::measure;
use crate::traffic::plan_message;
use crate::traffic::plan_send;
use crate::traffic::Delivery;
use crate::traffic::Incoming;
use crate::traffic::SendPlan;
use crate::users::Distance;
use crate::users::Mxid;
use vstd::prelude::*;

verus! {

// ── Arriving ────────────────────────────────────────────────────────────

/// The delivery time is the time from sending to receiving. In the record it
/// stands in microseconds, as far as 32 bits go, and it is never 0, so that the
/// record cannot be taken for that of a message that was sent.
pub proof fn delivery_time_is_measured(
    serial: u64,
    sent_ms: u64,
    now_ms: u64,
    media: &Option<Download>,
    ours: &Mxid,
    sender: &Mxid,
    accounts: &AccountList,
    our_account: u32,
    timestamp_us: u64,
    r: Delivery,
)
    requires
        ours.valid(),
        sender.valid(),
        call_ensures(
            measure,
            (
                serial,
                sent_ms,
                now_ms,
                media,
                ours,
                sender,
                accounts,
                our_account,
                timestamp_us,
            ),
            r,
        ),
    ensures
        sent_ms <= now_ms ==> sent_ms + r.delivery_ms == now_ms,
        sent_ms >= now_ms ==> r.delivery_ms == 0 && r.datapoint.delivery_us == 1,
        sent_ms < now_ms && (now_ms - sent_ms) * 1000 <= u32::MAX ==> r.datapoint.delivery_us == (
        now_ms - sent_ms) * 1000,
        sent_ms < now_ms && (now_ms - sent_ms) * 1000 > u32::MAX ==> r.datapoint.delivery_us
            == u32::MAX,
{
}

/// The record names the message: its number, when it was made, who sent it and
/// who received it, by the numbers of their accounts.
pub proof fn record_names_the_message(
    serial: u64,
    sent_ms: u64,
    now_ms: u64,
    media: &Option<Download>,
    ours: &Mxid,
    sender: &Mxid,
    accounts: &AccountList,
    our_account: u32,
    timestamp_us: u64,
    r: Delivery,
    name: &str,
    number: u32,
)
    requires
        ours.valid(),
        sender.valid(),
        call_ensures(
            measure,
            (
                serial,
                sent_ms,
                now_ms,
                media,
                ours,
                sender,
                accounts,
                our_account,
                timestamp_us,
            ),
            r,
        ),
        name@ == sender.full@,
        call_ensures(AccountList::lookup, (accounts, name), number),
    ensures
        r.datapoint.serial == serial,
        r.datapoint.timestamp_us == timestamp_us,
        r.datapoint.sender == number,
        r.datapoint.receiver == our_account,
{
}

/// A message without an image is valid and has no size. One with an image is
/// valid if and only if the image was downloaded and passes the check, and its
/// size is that of what was downloaded.
pub proof fn media_are_checked(
    serial: u64,
    sent_ms: u64,
    now_ms: u64,
    media: &Option<Download>,
    ours: &Mxid,
    sender: &Mxid,
    accounts: &AccountList,
    our_account: u32,
    timestamp_us: u64,
    r: Delivery,
)
    requires
        ours.valid(),
        sender.valid(),
        call_ensures(
            measure,
            (
                serial,
                sent_ms,
                now_ms,
                media,
                ours,
                sender,
                accounts,
                our_account,
                timestamp_us,
            ),
            r,
        ),
    ensures
        *media is None ==> r.valid && r.media_size_bytes is None && r.datapoint.media_size == 0,
        *media == Some(Download::Failed) ==> !r.valid && r.media_size_bytes is None
            && r.datapoint.media_size == 0,
        *media matches Some(Download::Data(data)) ==> {
            &&& r.media_size_bytes == Some(data@.len() as u64)
            &&& data@.len() <= u32::MAX ==> r.datapoint.media_size == data@.len()
            &&& u32::MAX < data@.len() <= u64::MAX ==> r.datapoint.media_size == u32::MAX
        },
        *media matches Some(Download::Data(data)) ==> forall|file: &[u8], verdict: Result<
            (),
            PngError,
        >|
            file@ == data@ && #[trigger] call_ensures(validate_png, (file,), verdict) ==> r.valid
                == (verdict is Ok),
{
}

/// How far a message has come: from the account itself, from another account
/// whose ID has the same text behind the first colon, or from elsewhere.
pub proof fn distance_is_told_by_the_ids(ours: &Mxid, sender: &Mxid, r: Distance, a: int, b: int)
    requires
        ours.valid(),
        sender.valid(),
        call_ensures(Distance::from_mxids, (ours, sender), r),
        0 <= a < ours.full@.len(),
        ours.full@[a] == ':',
        forall|i: int| 0 <= i < a ==> ours.full@[i] != ':',
        0 <= b < sender.full@.len(),
        sender.full@[b] == ':',
        forall|i: int| 0 <= i < b ==> sender.full@[i] != ':',
    ensures
        r is SameUser <==> ours.full@ == sender.full@,
        r is SameServer <==> ours.full@ != sender.full@ && ours.full@.skip(a + 1)
            == sender.full@.skip(b + 1),
        r is Federated <==> ours.full@.skip(a + 1) != sender.full@.skip(b + 1),
{
    crate::text::lemma_find_unique(ours.full@, ':', a);
    crate::text::lemma_find_unique(sender.full@, ':', b);
}

/// The report gives the distance between receiver and sender.
pub proof fn delivery_has_its_distance(
    serial: u64,
    sent_ms: u64,
    now_ms: u64,
    media: &Option<Download>,
    ours: &Mxid,
    sender: &Mxid,
    accounts: &AccountList,
    our_account: u32,
    timestamp_us: u64,
    r: Delivery,
    distance: Distance,
)
    requires
        ours.valid(),
        sender.valid(),
        call_ensures(
            measure,
            (
                serial,
                sent_ms,
                now_ms,
                media,
                ours,
                sender,
                accounts,
                our_account,
                timestamp_us,
            ),
            r,
        ),
        call_ensures(Distance::from_mxids, (ours, sender), distance),
    ensures
        r.distance == distance,
{
}

/// What was written as a message arrives as that message; an event without text
/// is none.
pub proof fn messages_are_recognised(
    serial: u64,
    sent_ms: u64,
    text: String,
    body: &Option<String>,
    r: Incoming,
)
    requires
        call_ensures(message_text, (serial, sent_ms), text),
        call_ensures(classify, (body,), r),
    ensures
        *body == Some(text) ==> r == (Incoming::Message { serial, sent_ms }),
        r is NoText <==> *body is None,
{
    message_round_trip(serial, sent_ms);
}

/// An event counts as a message if and only if its text can be read as one.
pub proof fn other_texts_are_no_messages(
    body: &str,
    parsed: Option<(u64, u64)>,
    text: &Option<String>,
    r: Incoming,
)
    requires
        call_ensures(parse_message_body, (body,), parsed),
        call_ensures(classify, (text,), r),
        *text matches Some(t) && t@ == body@,
    ensures
        match parsed {
            Some((serial, sent_ms)) => r == (Incoming::Message { serial, sent_ms }),
            None => r is Other,
        },
{
}

// ── Sending ─────────────────────────────────────────────────────────────

/// The next message carries the number that the room is at, 1 where there is
/// none yet, and the time, as whoever reads it sees.
pub proof fn plan_carries_number_and_time(
    state: &RoomVerificationState,
    now_ms: u64,
    image: Option<Vec<u8>>,
    targets: &Vec<String>,
    accounts: &AccountList,
    our_account: u32,
    timestamp_us: u64,
    r: SendPlan,
    text: &str,
    parsed: Option<(u64, u64)>,
)
    requires
        call_ensures(
            plan_message,
            (state, now_ms, image, targets, accounts, our_account, timestamp_us),
            r,
        ),
        text@ == r.text@,
        call_ensures(parse_message_body, (text,), parsed),
    ensures
        state.next_serial matches Some(n) ==> r.serial == n,
        state.next_serial is None ==> r.serial == 1,
        parsed == Some((r.serial, now_ms)),
        r.image == image,
{
    message_round_trip(r.serial, now_ms);
}

/// The record of a message that is sent names it and our account, has no
/// delivery time, and has the size of its image. The receiver is the account of
/// the room's only target, and 0 in rooms with several or none.
pub proof fn intent_is_recorded(
    state: &RoomVerificationState,
    now_ms: u64,
    image: Option<Vec<u8>>,
    targets: &Vec<String>,
    accounts: &AccountList,
    our_account: u32,
    timestamp_us: u64,
    r: SendPlan,
)
    requires
        call_ensures(
            plan_message,
            (state, now_ms, image, targets, accounts, our_account, timestamp_us),
            r,
        ),
    ensures
        r.datapoint.timestamp_us == timestamp_us,
        r.datapoint.sender == our_account,
        r.datapoint.serial == r.serial,
        r.datapoint.delivery_us == 0,
        image is None ==> r.datapoint.media_size == 0,
        image matches Some(file) ==> file@.len() <= u32::MAX ==> r.datapoint.media_size
            == file@.len(),
        image matches Some(file) ==> u32::MAX < file@.len() <= u64::MAX ==> r.datapoint.media_size
            == u32::MAX,
        targets@.len() != 1 ==> r.datapoint.receiver == 0,
        targets@.len() == 1 ==> forall|target: &str, number: u32|
            target@ == targets@[0]@ && #[trigger] call_ensures(
                AccountList::lookup,
                (accounts, target),
                number,
            ) ==> r.datapoint.receiver == number,
{
}

/// A message is sent with an image if and only if that was wanted. The image is a
/// newly generated one and passes the check. Otherwise it is planned like any other message.
pub proof fn sent_images_are_valid(
    state: &RoomVerificationState,
    now_ms: u64,
    send_media: bool,
    targets: &Vec<String>,
    accounts: &AccountList,
    our_account: u32,
    timestamp_us: u64,
    r: SendPlan,
    plain: SendPlan,
)
    requires
        call_ensures(
            plan_send,
            (state, now_ms, send_media, targets, accounts, our_account, timestamp_us),
            r,
        ),
        call_ensures(
            plan_message,
            (state, now_ms, r.image, targets, accounts, our_account, timestamp_us),
            plain,
        ),
    ensures
        send_media <==> r.image is Some,
        r.image matches Some(file) ==> call_ensures(generate_png, (), file),
        r.image matches Some(file) ==> forall|data: &[u8], verdict: Result<(), PngError>|
            data@ == file@ && #[trigger] call_ensures(validate_png, (data,), verdict)
                ==> verdict is Ok,
        r.serial == plain.serial,
        r.text@ == plain.text@,
        r.datapoint == plain.datapoint,
{
}

/// A message that was sent moves the room's number on by one and nothing else; a
/// message that was not sent leaves the room as it is, and there is no report.
pub proof fn number_moves_with_what_was_sent(
    state: &mut RoomVerificationState,
    serial: u64,
    media: bool,
    room_id: &str,
    sent: bool,
    r: Option<String>,
)
    requires
        call_ensures(after_send, (state, serial, media, room_id, sent), r),
    ensures
        sent <==> r is Some,
        !sent ==> *final(state) == *old(state),
        sent && serial < u64::MAX ==> final(state).next_serial == Some((serial + 1) as u64),
        sent && serial == u64::MAX ==> final(state).next_serial == Some(0u64),
        final(state).pagination_token == old(state).pagination_token,
        final(state).started == old(state).started,
        final(state).fully_verified == old(state).fully_verified,
        final(state).failed == old(state).failed,
        final(state).last_serial_by_user@ == old(state).last_serial_by_user@,
        r matches Some(text) ==> text@ == (if media {
            "media"@
        } else {
            "text"@
        }) + " #"@ + crate::number::decimal(serial as nat) + " to "@ + room_id@,
{
}

/// Two messages that are sent to a room one after the other have numbers that
/// follow each other.
pub proof fn next_plan_has_the_next_number(
    first: &RoomVerificationState,
    image: Option<Vec<u8>>,
    next_image: Option<Vec<u8>>,
    times: (u64, u64),
    targets: &Vec<String>,
    accounts: &AccountList,
    our_account: u32,
    stamps: (u64, u64),
    plan: SendPlan,
    state: &mut RoomVerificationState,
    media: bool,
    room_id: &str,
    report: Option<String>,
    second: &RoomVerificationState,
    next: SendPlan,
)
    requires
        call_ensures(
            plan_message,
            (first, times.0, image, targets, accounts, our_account, stamps.0),
            plan,
        ),
        *old(state) == *first,
        call_ensures(after_send, (state, plan.serial, media, room_id, true), report),
        *final(state) == *second,
        call_ensures(
            plan_message,
            (second, times.1, next_image, targets, accounts, our_account, stamps.1),
            next,
        ),
        plan.serial < u64::MAX,
    ensures
        next.serial == plan.serial + 1,
{
}

/// The word for a message tells whether it has an image.
pub proof fn kinds_are_named(media: bool, r: &'static str)
    requires
        call_ensures(kind_of, (media,), r),
    ensures
        media ==> r@ == "media"@,
        !media ==> r@ == "text"@,
{
}

} // verus!
