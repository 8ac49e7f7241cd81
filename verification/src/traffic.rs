//! Sending messages, and measuring those that arrive.
use crate::datapoint::clamped;
use crate::datapoint::AccountList;
use crate::datapoint::Datapoint;
use crate::history::serial_after;
use crate::history::Download;
use crate::history::RoomVerificationState;
use crate::image::all_drawn;
use crate::image::generate_png;
use crate::image::is_image_of;
use crate::image::png_verdict;
use crate::image::validate_png;
use crate::message::message_of;
use crate::message::message_round_trip;
use crate::message::message_text;
use crate::message::parse_message_body;
use crate::message::parsed_message;
use crate::number::decimal;
use crate::number::decimal_text;
use crate::text::joined;
use crate::users::Distance;
use crate::users::Mxid;
use vstd::prelude::*;

verus! {

/// The word for a message with or without an image.
pub open spec fn kind_text(media: bool) -> Seq<char> {
    if media {
        "media"@
    } else {
        "text"@
    }
}

/// The word for a message with or without an image.
pub fn kind_of(media: bool) -> (r: &'static str)
    ensures
        r@ == kind_text(media),
{
    if media {
        "media"
    } else {
        "text"
    }
}

// ── Sending ─────────────────────────────────────────────────────────────

/// A message to send.
#[derive(Debug)]
pub struct SendPlan {
    pub serial: u64,
    /// The text, or the caption of the image.
    pub text: String,
    /// A PNG file, if an image is to be sent.
    pub image: Option<Vec<u8>>,
    /// The record of the intent to send.
    pub datapoint: Datapoint,
}

/// The account number of the only target of a direct room, 0 for other rooms.
pub open spec fn receiver_number(targets: Seq<String>, accounts: Map<Seq<char>, u32>) -> u32 {
    if targets.len() == 1 && accounts.contains_key(targets[0]@) {
        accounts[targets[0]@]
    } else {
        0
    }
}

fn receiver_of(targets: &Vec<String>, accounts: &AccountList) -> (r: u32)
    ensures
        r == receiver_number(targets@, accounts@),
{
    if targets.len() == 1 {
        accounts.lookup(targets[0].as_str())
    } else {
        0
    }
}

/// The serial number of the next message.
pub open spec fn next_serial_of(state: RoomVerificationState) -> u64 {
    match state.next_serial {
        Some(n) => n,
        None => 1,
    }
}

/// The record of the intent to send a message. Its delivery time is 0.
pub open spec fn intent(
    timestamp_us: u64,
    our_account: u32,
    receiver: u32,
    serial: u64,
    image: Option<Vec<u8>>,
) -> Datapoint {
    Datapoint {
        timestamp_us,
        sender: our_account,
        receiver,
        serial,
        delivery_us: 0,
        media_size: match image {
            Some(file) => clamped(file@.len() as u64),
            None => 0,
        },
    }
}

/// The next message to a room, with the given image if there is one.
pub fn plan_message(
    state: &RoomVerificationState,
    now_ms: u64,
    image: Option<Vec<u8>>,
    targets: &Vec<String>,
    accounts: &AccountList,
    our_account: u32,
    timestamp_us: u64,
) -> (r: SendPlan)
    ensures
        r.serial == next_serial_of(*state),
        r.text@ == message_of(next_serial_of(*state), now_ms),
        r.image == image,
        r.datapoint == intent(
            timestamp_us,
            our_account,
            receiver_number(targets@, accounts@),
            next_serial_of(*state),
            image,
        ),
{
    let serial: u64 = match state.next_serial {
        Some(n) => n,
        None => 1,
    };
    let text = message_text(serial, now_ms);
    let receiver: u32 = receiver_of(targets, accounts);
    let size: u64 = match &image {
        Some(file) => file.len() as u64,
        None => 0,
    };
    let datapoint = Datapoint::new(timestamp_us, our_account, receiver, serial, 0, size);
    SendPlan { serial, text, image, datapoint }
}

/// The next message to a room, with a random image if `send_media` is set.
pub fn plan_send(
    state: &RoomVerificationState,
    now_ms: u64,
    send_media: bool,
    targets: &Vec<String>,
    accounts: &AccountList,
    our_account: u32,
    timestamp_us: u64,
) -> (r: SendPlan)
    ensures
        r.serial == next_serial_of(*state),
        r.text@ == message_of(next_serial_of(*state), now_ms),
        match r.image {
            Some(file) => {
                &&& send_media
                &&& call_ensures(generate_png, (), file)
                &&& exists|pixels: Seq<u8>| is_image_of(file@, pixels) && all_drawn(pixels)
                &&& png_verdict(file@) is Ok
            },
            None => !send_media,
        },
        r.datapoint == intent(
            timestamp_us,
            our_account,
            receiver_number(targets@, accounts@),
            next_serial_of(*state),
            r.image,
        ),
{
    let image = if send_media {
        Some(generate_png())
    } else {
        None
    };
    plan_message(state, now_ms, image, targets, accounts, our_account, timestamp_us)
}

/// The report on a message that was sent.
pub open spec fn sent_text(media: bool, serial: u64, room_id: Seq<char>) -> Seq<char> {
    kind_text(media) + " #"@ + decimal(serial as nat) + " to "@ + room_id
}

/// Takes in whether a message was sent. If it was, the next one has the next
/// serial number, and there is a report.
pub fn after_send(
    state: &mut RoomVerificationState,
    serial: u64,
    media: bool,
    room_id: &str,
    sent: bool,
) -> (r: Option<String>)
    ensures
        if sent {
            &&& *final(state) == (RoomVerificationState {
                next_serial: Some(serial_after(serial)),
                ..*old(state)
            })
            &&& r matches Some(text)
            &&& text@ == sent_text(media, serial, room_id@)
        } else {
            *final(state) == *old(state) && r is None
        },
{
    if !sent {
        return None;
    }
    state.next_serial = Some(serial.wrapping_add(1));
    let mut text = joined(kind_of(media), " #");
    text.append(decimal_text(serial).as_str());
    text.append(" to ");
    text.append(room_id);
    Some(text)
}

/// Messages that are sent one after the other carry consecutive serial
/// numbers, as whoever reads them sees.
pub proof fn sent_serials_are_consecutive(
    first: RoomVerificationState,
    second: RoomVerificationState,
    first_ms: u64,
    second_ms: u64,
)
    requires
        next_serial_of(first) < u64::MAX,
        second.next_serial == Some(serial_after(next_serial_of(first))),
    ensures
        match (
            parsed_message(message_of(next_serial_of(first), first_ms)),
            parsed_message(message_of(next_serial_of(second), second_ms)),
        ) {
            (Some((a, s)), Some((b, t))) => b == a + 1 && s == first_ms && t == second_ms,
            _ => false,
        },
{
    message_round_trip(next_serial_of(first), first_ms);
    message_round_trip(next_serial_of(second), second_ms);
}

// ── Receiving ───────────────────────────────────────────────────────────

/// What an incoming event is.
#[derive(Debug, Clone, Copy, PartialEq, Eq, Structural)]
pub enum Incoming {
    /// It has no text.
    NoText,
    /// Its text is not that of a message.
    Other,
    /// A message.
    Message { serial: u64, sent_ms: u64 },
}

/// What an incoming event with the given text or caption is.
pub fn classify(body: &Option<String>) -> (r: Incoming)
    ensures
        r == (match *body {
            None => Incoming::NoText,
            Some(text) => match parsed_message(text@) {
                None => Incoming::Other,
                Some((serial, sent_ms)) => Incoming::Message { serial, sent_ms },
            },
        }),
{
    match body {
        None => Incoming::NoText,
        Some(text) => match parse_message_body(text.as_str()) {
            None => Incoming::Other,
            Some((serial, sent_ms)) => Incoming::Message { serial, sent_ms },
        },
    }
}

/// The report on a message that has arrived.
#[derive(Debug, Clone, Copy, PartialEq, Eq, Structural)]
pub struct Delivery {
    /// Milliseconds from sending to receiving.
    pub delivery_ms: u64,
    /// The size of the image, if it could be downloaded.
    pub media_size_bytes: Option<u64>,
    /// Whether the image, if there is one, is valid.
    pub valid: bool,
    pub distance: Distance,
    pub datapoint: Datapoint,
}

/// The milliseconds between two times, 0 where the second is not later.
pub open spec fn elapsed_ms(sent_ms: u64, now_ms: u64) -> u64 {
    if now_ms > sent_ms {
        (now_ms - sent_ms) as u64
    } else {
        0
    }
}

/// The delivery time in microseconds of a message that has arrived: at least 1,
/// at most what 64 bits hold.
pub open spec fn delivery_us(delivery_ms: u64) -> u64 {
    if delivery_ms == 0 {
        1
    } else if delivery_ms * 1000 > u64::MAX {
        u64::MAX
    } else {
        (delivery_ms * 1000) as u64
    }
}

fn to_delivery_us(delivery_ms: u64) -> (r: u64)
    ensures
        r == delivery_us(delivery_ms),
{
    if delivery_ms == 0 {
        1
    } else if delivery_ms > u64::MAX / 1000 {
        u64::MAX
    } else {
        delivery_ms * 1000
    }
}

/// The size of the image of a message, if it could be downloaded.
pub open spec fn media_size(media: Option<Download>) -> Option<u64> {
    match media {
        Some(Download::Data(data)) => Some(data@.len() as u64),
        _ => None,
    }
}

/// Whether the image of a message, if there is one, is valid.
pub open spec fn media_valid(media: Option<Download>) -> bool {
    match media {
        None => true,
        Some(Download::Failed) => false,
        Some(Download::Data(data)) => png_verdict(data@) is Ok,
    }
}

/// The account number of a user in a list, or 0.
pub open spec fn account_number(accounts: Map<Seq<char>, u32>, mxid: Seq<char>) -> u32 {
    if accounts.contains_key(mxid) {
        accounts[mxid]
    } else {
        0
    }
}

/// The report on a message that has arrived, with what downloading its image
/// has brought if it has one.
pub fn measure(
    serial: u64,
    sent_ms: u64,
    now_ms: u64,
    media: &Option<Download>,
    our_user_id: &Mxid,
    sender: &Mxid,
    accounts: &AccountList,
    our_account: u32,
    timestamp_us: u64,
) -> (r: Delivery)
    requires
        our_user_id.valid(),
        sender.valid(),
    ensures
        r == (Delivery {
            delivery_ms: elapsed_ms(sent_ms, now_ms),
            media_size_bytes: media_size(*media),
            valid: media_valid(*media),
            distance: Distance::between(our_user_id@, sender@),
            datapoint: Datapoint {
                timestamp_us,
                sender: account_number(accounts@, sender@),
                receiver: our_account,
                serial,
                delivery_us: clamped(delivery_us(elapsed_ms(sent_ms, now_ms))),
                media_size: clamped(
                    match media_size(*media) {
                        Some(n) => n,
                        None => 0,
                    },
                ),
            },
        }),
{
    let (valid, media_size_bytes) = match media {
        None => (true, None),
        Some(Download::Failed) => (false, None),
        Some(Download::Data(data)) => {
            let ok = match validate_png(data) {
                Ok(_) => true,
                Err(_) => false,
            };
            (ok, Some(data.len() as u64))
        },
    };
    let delivery_ms: u64 = if now_ms > sent_ms {
        now_ms - sent_ms
    } else {
        0
    };
    let size: u64 = match media_size_bytes {
        Some(n) => n,
        None => 0,
    };
    let datapoint = Datapoint::new(
        timestamp_us,
        accounts.lookup(sender.full.as_str()),
        our_account,
        serial,
        to_delivery_us(delivery_ms),
        size,
    );
    Delivery {
        delivery_ms,
        media_size_bytes,
        valid,
        distance: Distance::from_mxids(our_user_id, sender),
        datapoint,
    }
}

/// A record tells whether its message was sent or received: the delivery time
/// of a received message is never 0, whatever the clocks say.
pub proof fn received_is_never_zero(sent_ms: u64, now_ms: u64)
    ensures
        clamped(delivery_us(elapsed_ms(sent_ms, now_ms))) >= 1,
{
}

} // verus!
