//! Datapoints, account numbers and the link to the collector.
use crate::datapoint::account_numbers;
use crate::datapoint::clamp_u32;
use crate::datapoint::collector_endpoint;
use crate::datapoint::le_bytes;
use crate::datapoint::le_number;
use crate::datapoint::lemma_le_len;
use crate::datapoint::lemma_le_round_trip_4;
use crate::datapoint::lemma_le_round_trip_8;
use crate::datapoint::numbered;
use crate::datapoint::AccountList;
use crate::datapoint::Datapoint;
use crate::datapoint::LinkAction;
use crate::datapoint::LinkEvent;
use crate::datapoint::LinkState;
use crate::datapoint::ListFile;
use crate::text::split_entries;
use crate::text::split_whitespace;
use crate::text::trim;
use vstd::prelude::*;

verus! {

// ── Records ─────────────────────────────────────────────────────────────

/// The number that four bytes make, least significant first.
pub open spec fn four_bytes(s: Seq<u8>, at: int) -> int {
    s[at] + 0x100 * s[at + 1] + 0x1_0000 * s[at + 2] + 0x100_0000 * s[at + 3]
}

proof fn lemma_four(s: Seq<u8>)
    requires
        s.len() == 4,
    ensures
        le_number(s) == four_bytes(s, 0),
{
    reveal_with_fuel(le_number, 5);
    let a = s.drop_first();
    let b = a.drop_first();
    let c = b.drop_first();
    let d = c.drop_first();
    assert(a[0] == s[1] && b[0] == s[2] && c[0] == s[3] && d.len() == 0);
    assert(le_number(d) == 0);
    assert(le_number(c) == c[0] as nat);
    assert(le_number(b) == b[0] as nat + 256 * le_number(c));
    assert(le_number(a) == a[0] as nat + 256 * le_number(b));
}

proof fn lemma_eight(s: Seq<u8>)
    requires
        s.len() == 8,
    ensures
        le_number(s) == four_bytes(s, 0) + 0x1_0000_0000 * four_bytes(s, 4),
{
    let a = s.drop_first();
    let b = a.drop_first();
    let c = b.drop_first();
    let d = c.drop_first();
    lemma_four(d);
    assert(a[0] == s[1] && b[0] == s[2] && c[0] == s[3]);
    assert(d[0] == s[4] && d[1] == s[5] && d[2] == s[6] && d[3] == s[7]);
    assert(le_number(c) == c[0] as nat + 256 * le_number(d));
    assert(le_number(b) == b[0] as nat + 256 * le_number(c));
    assert(le_number(a) == a[0] as nat + 256 * le_number(b));
}

/// A record has 32 bytes: the time, the sender, the receiver, the serial number,
/// the delivery time and the size of the media, in this order, each with its
/// least significant byte first.
pub proof fn records_hold_the_fields(dp: &Datapoint, r: Vec<u8>)
    requires
        call_ensures(Datapoint::to_bytes, (dp,), r),
    ensures
        r@.len() == 32,
        four_bytes(r@, 0) + 0x1_0000_0000 * four_bytes(r@, 4) == dp.timestamp_us,
        four_bytes(r@, 8) == dp.sender,
        four_bytes(r@, 12) == dp.receiver,
        four_bytes(r@, 16) + 0x1_0000_0000 * four_bytes(r@, 20) == dp.serial,
        four_bytes(r@, 24) == dp.delivery_us,
        four_bytes(r@, 28) == dp.media_size,
{
    let (a, b, c, d, e, f) = (
        le_bytes(dp.timestamp_us as nat, 8),
        le_bytes(dp.sender as nat, 4),
        le_bytes(dp.receiver as nat, 4),
        le_bytes(dp.serial as nat, 8),
        le_bytes(dp.delivery_us as nat, 4),
        le_bytes(dp.media_size as nat, 4),
    );
    lemma_le_len(dp.timestamp_us as nat, 8);
    lemma_le_len(dp.sender as nat, 4);
    lemma_le_len(dp.receiver as nat, 4);
    lemma_le_len(dp.serial as nat, 8);
    lemma_le_len(dp.delivery_us as nat, 4);
    lemma_le_len(dp.media_size as nat, 4);
    lemma_le_round_trip_8(dp.timestamp_us as nat);
    lemma_le_round_trip_4(dp.sender as nat);
    lemma_le_round_trip_4(dp.receiver as nat);
    lemma_le_round_trip_8(dp.serial as nat);
    lemma_le_round_trip_4(dp.delivery_us as nat);
    lemma_le_round_trip_4(dp.media_size as nat);
    lemma_eight(a);
    lemma_four(b);
    lemma_four(c);
    lemma_eight(d);
    lemma_four(e);
    lemma_four(f);
    assert(r@ == a + b + c + d + e + f);
    assert(four_bytes(r@, 0) == four_bytes(a, 0) && four_bytes(r@, 4) == four_bytes(a, 4));
    assert(four_bytes(r@, 8) == four_bytes(b, 0));
    assert(four_bytes(r@, 12) == four_bytes(c, 0));
    assert(four_bytes(r@, 16) == four_bytes(d, 0) && four_bytes(r@, 20) == four_bytes(d, 4));
    assert(four_bytes(r@, 24) == four_bytes(e, 0));
    assert(four_bytes(r@, 28) == four_bytes(f, 0));
}

/// A datapoint keeps what it is made of; the delivery time and the size of the
/// media stop at the largest number of 32 bits.
pub proof fn datapoints_keep_their_parts(
    timestamp_us: u64,
    sender: u32,
    receiver: u32,
    serial: u64,
    delivery_us: u64,
    media_size: u64,
    r: Datapoint,
    delivery: u32,
    media: u32,
)
    requires
        call_ensures(
            Datapoint::new,
            (timestamp_us, sender, receiver, serial, delivery_us, media_size),
            r,
        ),
        call_ensures(clamp_u32, (delivery_us,), delivery),
        call_ensures(clamp_u32, (media_size,), media),
    ensures
        r.timestamp_us == timestamp_us,
        r.sender == sender,
        r.receiver == receiver,
        r.serial == serial,
        r.delivery_us == delivery,
        r.media_size == media,
        delivery_us <= 0xffff_ffff ==> delivery == delivery_us,
        delivery_us > 0xffff_ffff ==> delivery == 0xffff_ffff,
{
}

// ── Account numbers ─────────────────────────────────────────────────────

/// Whether `i` is the last place of a user in a list.
pub open spec fn is_last_place(list: Seq<Vec<char>>, mxid: Seq<char>, i: int) -> bool {
    &&& 0 <= i < list.len()
    &&& list[i]@ == mxid
    &&& forall|j: int| i < j < list.len() ==> (#[trigger] list[j])@ != mxid
}

proof fn lemma_numbers(list: Vec<Vec<char>>, mxid: Seq<char>, i: int)
    ensures
        is_last_place(list@, mxid, i) ==> numbered(list.deep_view()).contains_key(mxid) && numbered(
            list.deep_view(),
        )[mxid] == (i + 1) % 0x1_0000_0000,
        (forall|j: int| 0 <= j < list@.len() ==> (#[trigger] list@[j])@ != mxid) ==> !numbered(
            list.deep_view(),
        ).contains_key(mxid),
{
    let texts = list.deep_view();
    account_numbers(texts, mxid);
    assert forall|j: int| 0 <= j < texts.len() implies #[trigger] texts[j] == list@[j]@ by {}
    if is_last_place(list@, mxid, i) {
        assert(texts[i] == mxid);
        assert forall|j: int| i < j < texts.len() implies texts[j] != mxid by {
            assert(list@[j]@ != mxid);
        }
        assert(texts.contains(mxid));
    }
    if forall|j: int| 0 <= j < list@.len() ==> (#[trigger] list@[j])@ != mxid {
        assert(!texts.contains(mxid)) by {
            if texts.contains(mxid) {
                let j = choose|j: int| 0 <= j < texts.len() && texts[j] == mxid;
                assert(list@[j]@ == mxid);
            }
        }
    }
}

/// Where no file has the name that the value spells, the words of the value are
/// the users. A user's number is its last place among them, counted from 1; who
/// is not among them has the number 0.
pub proof fn values_number_their_words(
    raw: &str,
    value: String,
    chars: &Vec<char>,
    words: Vec<Vec<char>>,
    list: AccountList,
    mxid: &str,
    r: u32,
    i: int,
)
    requires
        call_ensures(trim, (raw,), value),
        chars@ == value@,
        call_ensures(split_whitespace, (chars,), words),
        call_ensures(AccountList::parse, (raw, ListFile::Missing), list),
        call_ensures(AccountList::lookup, (&list, mxid), r),
    ensures
        value@.len() > 0 && is_last_place(words@, mxid@, i) ==> r == (i + 1) % 0x1_0000_0000,
        (forall|j: int| 0 <= j < words@.len() ==> (#[trigger] words@[j])@ != mxid@) ==> r == 0,
        value@.len() == 0 ==> r == 0,
{
    lemma_numbers(words, mxid@, i);
}

/// Where the file can be read, its lines are the users, without white space
/// around them; empty lines do not count.
pub proof fn files_number_their_lines(
    raw: &str,
    value: String,
    content: String,
    chars: &Vec<char>,
    lines: Vec<Vec<char>>,
    list: AccountList,
    mxid: &str,
    r: u32,
    i: int,
)
    requires
        call_ensures(trim, (raw,), value),
        chars@ == content@,
        call_ensures(split_entries, (chars, '\n'), lines),
        call_ensures(AccountList::parse, (raw, ListFile::Content(content)), list),
        call_ensures(AccountList::lookup, (&list, mxid), r),
    ensures
        value@.len() > 0 && is_last_place(lines@, mxid@, i) ==> r == (i + 1) % 0x1_0000_0000,
        (forall|j: int| 0 <= j < lines@.len() ==> (#[trigger] lines@[j])@ != mxid@) ==> r == 0,
        value@.len() == 0 ==> r == 0,
{
    lemma_numbers(lines, mxid@, i);
}

/// A file that cannot be read numbers nobody, and neither does the empty list.
pub proof fn nobody_is_numbered(
    raw: &str,
    list: AccountList,
    none: AccountList,
    mxid: &str,
    r: u32,
    s: u32,
)
    requires
        call_ensures(AccountList::parse, (raw, ListFile::Unreadable), list),
        call_ensures(AccountList::empty, (), none),
        call_ensures(AccountList::lookup, (&list, mxid), r),
        call_ensures(AccountList::lookup, (&none, mxid), s),
    ensures
        r == 0,
        s == 0,
{
}

/// The address is the value without white space around it, if anything is left.
pub proof fn endpoint_is_the_value(raw: &str, value: String, r: Option<String>)
    requires
        call_ensures(trim, (raw,), value),
        call_ensures(collector_endpoint, (raw,), r),
    ensures
        value@.len() == 0 <==> r is None,
        r matches Some(endpoint) ==> endpoint@ == value@,
{
}

// ── The link ────────────────────────────────────────────────────────────

/// The link connects, writes the byte 32, and then writes each datapoint that is
/// submitted as its record. Between two attempts it waits for five seconds.
pub proof fn link_writes_header_and_records(
    dp: Datapoint,
    record: Vec<u8>,
    connect: LinkAction,
    open: LinkAction,
    idle: LinkAction,
    write: LinkAction,
    pause: LinkAction,
    stop: LinkAction,
)
    requires
        call_ensures(Datapoint::to_bytes, (&dp,), record),
        call_ensures(LinkState::action, (&LinkState::Connecting,), connect),
        call_ensures(LinkState::action, (&LinkState::Opening,), open),
        call_ensures(LinkState::action, (&LinkState::Idle,), idle),
        call_ensures(LinkState::action, (&LinkState::Writing(dp),), write),
        call_ensures(LinkState::action, (&LinkState::Pausing,), pause),
        call_ensures(LinkState::action, (&LinkState::Stopped,), stop),
    ensures
        connect is Connect,
        open matches LinkAction::Write(bytes) && bytes@ == seq![32u8],
        idle is Receive,
        write matches LinkAction::Write(bytes) && bytes@ == record@,
        pause == LinkAction::Sleep(5),
        stop is Stop,
{
}

/// A connection that stands is opened with the header; once that is written,
/// datapoints are taken one by one. What fails before that leads to a pause and
/// then to another attempt; what fails later leads to another attempt at once.
/// The link ends when no datapoints can come any more.
pub proof fn link_goes_through_its_states(
    dp: Datapoint,
    connected: LinkState,
    unconnected: LinkState,
    opened: LinkState,
    unopened: LinkState,
    submitted: LinkState,
    closed: LinkState,
    written: LinkState,
    unwritten: LinkState,
    slept: LinkState,
)
    requires
        call_ensures(LinkState::after, (&LinkState::Connecting, LinkEvent::Connected), connected),
        call_ensures(
            LinkState::after,
            (&LinkState::Connecting, LinkEvent::ConnectFailed),
            unconnected,
        ),
        call_ensures(LinkState::after, (&LinkState::Opening, LinkEvent::Written), opened),
        call_ensures(LinkState::after, (&LinkState::Opening, LinkEvent::WriteFailed), unopened),
        call_ensures(LinkState::after, (&LinkState::Idle, LinkEvent::Submitted(dp)), submitted),
        call_ensures(LinkState::after, (&LinkState::Idle, LinkEvent::Closed), closed),
        call_ensures(LinkState::after, (&LinkState::Writing(dp), LinkEvent::Written), written),
        call_ensures(
            LinkState::after,
            (&LinkState::Writing(dp), LinkEvent::WriteFailed),
            unwritten,
        ),
        call_ensures(LinkState::after, (&LinkState::Pausing, LinkEvent::Slept), slept),
    ensures
        connected is Opening,
        unconnected is Pausing,
        opened is Idle,
        unopened is Pausing,
        submitted == LinkState::Writing(dp),
        closed is Stopped,
        written is Idle,
        unwritten is Connecting,
        slept is Connecting,
{
}

/// A link that has ended stays so.
pub proof fn ended_links_stay_so(event: LinkEvent, r: LinkState)
    requires
        call_ensures(LinkState::after, (&LinkState::Stopped, event), r),
    ensures
        r is Stopped,
{
}

/// Whatever comes of what the link does, it can go on.
pub proof fn links_take_every_outcome(dp: Datapoint)
    ensures
        call_requires(LinkState::after, (&LinkState::Connecting, LinkEvent::Connected)),
        call_requires(LinkState::after, (&LinkState::Connecting, LinkEvent::ConnectFailed)),
        call_requires(LinkState::after, (&LinkState::Opening, LinkEvent::Written)),
        call_requires(LinkState::after, (&LinkState::Opening, LinkEvent::WriteFailed)),
        call_requires(LinkState::after, (&LinkState::Idle, LinkEvent::Submitted(dp))),
        call_requires(LinkState::after, (&LinkState::Idle, LinkEvent::Closed)),
        call_requires(LinkState::after, (&LinkState::Writing(dp), LinkEvent::Written)),
        call_requires(LinkState::after, (&LinkState::Writing(dp), LinkEvent::WriteFailed)),
        call_requires(LinkState::after, (&LinkState::Pausing, LinkEvent::Slept)),
{
}

} // verus!
