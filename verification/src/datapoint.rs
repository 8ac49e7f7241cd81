//! Datapoints: fixed-size records of sent and received messages, the account
//! numbers in them, and the link that ships them to a collector.
use crate::text::chars_of;
use crate::text::split_entries;
use crate::text::split_on;
use crate::text::split_whitespace;
use crate::text::text_of;
use crate::text::trim_chars;
use crate::text::trimmed;
use crate::text::trimmed_entries;
use crate::text::words_of;
use vstd::hash_map::StringHashMap;
use vstd::prelude::*;
use zerocopy::byteorder::little_endian::U32;
use zerocopy::byteorder::little_endian::U64;

verus! {

/// Size of one record on the wire, sent as the header byte on connect.
pub const STRIDE: usize = 32;

/// Seconds between two attempts to reach the collector.
pub const RECONNECT_DELAY: u64 = 5;

// ── Numbers, least significant byte first ───────────────────────────────

/// The last `width` bytes of `n`, least significant first.
pub open spec fn le_bytes(n: nat, width: nat) -> Seq<u8>
    decreases width,
{
    if width == 0 {
        Seq::empty()
    } else {
        seq![(n % 256) as u8] + le_bytes(n / 256, (width - 1) as nat)
    }
}

/// The number that the bytes make, least significant first.
pub open spec fn le_number(bytes: Seq<u8>) -> nat
    decreases bytes.len(),
{
    if bytes.len() == 0 {
        0
    } else {
        bytes[0] as nat + 256 * le_number(bytes.drop_first())
    }
}

/// `zerocopy::byteorder::little_endian::U64`, made from `n` and taken apart:
/// the eight bytes of `n`, least significant first.
#[verifier::external_body]
fn u64_bytes(n: u64) -> (r: Vec<u8>)
    ensures
        r@ == le_bytes(n as nat, 8),
{
    U64::new(n).to_bytes().to_vec()
}

/// `zerocopy::byteorder::little_endian::U32`, made from `n` and taken apart:
/// the four bytes of `n`, least significant first.
#[verifier::external_body]
fn u32_bytes(n: u32) -> (r: Vec<u8>)
    ensures
        r@ == le_bytes(n as nat, 4),
{
    U32::new(n).to_bytes().to_vec()
}

pub(crate) proof fn lemma_le_len(n: nat, width: nat)
    ensures
        le_bytes(n, width).len() == width,
    decreases width,
{
    if width > 0 {
        lemma_le_len(n / 256, (width - 1) as nat);
    }
}

pub(crate) proof fn lemma_le_round_trip_4(n: nat)
    requires
        n <= u32::MAX,
    ensures
        le_number(le_bytes(n, 4)) == n,
{
    lemma_le_step(n, 4);
    lemma_le_step(n / 256, 3);
    lemma_le_step(n / 256 / 256, 2);
    lemma_le_step(n / 256 / 256 / 256, 1);
    assert(le_number(le_bytes(n / 256 / 256 / 256 / 256, 0)) == 0);
}

pub(crate) proof fn lemma_le_round_trip_8(n: nat)
    requires
        n <= u64::MAX,
    ensures
        le_number(le_bytes(n, 8)) == n,
{
    let upper = n / 256 / 256 / 256 / 256;
    lemma_le_round_trip_4(upper);
    lemma_le_step(n, 8);
    lemma_le_step(n / 256, 7);
    lemma_le_step(n / 256 / 256, 6);
    lemma_le_step(n / 256 / 256 / 256, 5);
}

proof fn lemma_le_step(n: nat, width: nat)
    requires
        width > 0,
    ensures
        le_number(le_bytes(n, width)) == n % 256 + 256 * le_number(
            le_bytes(n / 256, (width - 1) as nat),
        ),
{
    let bytes = le_bytes(n, width);
    assert(bytes.drop_first() =~= le_bytes(n / 256, (width - 1) as nat));
}

// ── Records ─────────────────────────────────────────────────────────────

/// One datapoint.
#[derive(Debug, Clone, Copy, PartialEq, Eq, Structural)]
pub struct Datapoint {
    /// UNIX time at which the datapoint was made, in microseconds.
    pub timestamp_us: u64,
    /// Account number of the sender, or 0 for an account that is not listed.
    pub sender: u32,
    /// Account number of the receiver, or 0 for an account that is not listed.
    pub receiver: u32,
    /// Serial number of the message, per room and sender.
    pub serial: u64,
    /// Delivery time in microseconds; 0 marks a message that was sent.
    pub delivery_us: u32,
    /// Size of the media in bytes; 0 for a text message.
    pub media_size: u32,
}

/// `value`, or the largest 32-bit number where `value` is larger.
pub open spec fn clamped(value: u64) -> u32 {
    if value > u32::MAX {
        u32::MAX
    } else {
        value as u32
    }
}

/// The value, or the largest 32-bit number where the value is larger.
pub fn clamp_u32(value: u64) -> (r: u32)
    ensures
        r == clamped(value),
{
    if value > u32::MAX as u64 {
        u32::MAX
    } else {
        value as u32
    }
}

impl Datapoint {
    /// The record on the wire.
    pub open spec fn wire(self) -> Seq<u8> {
        le_bytes(self.timestamp_us as nat, 8) + le_bytes(self.sender as nat, 4) + le_bytes(
            self.receiver as nat,
            4,
        ) + le_bytes(self.serial as nat, 8) + le_bytes(self.delivery_us as nat, 4) + le_bytes(
            self.media_size as nat,
            4,
        )
    }

    /// A datapoint with delivery time and media size cut to 32 bits.
    pub fn new(
        timestamp_us: u64,
        sender: u32,
        receiver: u32,
        serial: u64,
        delivery_us: u64,
        media_size: u64,
    ) -> (r: Self)
        ensures
            r == (Datapoint {
                timestamp_us,
                sender,
                receiver,
                serial,
                delivery_us: clamped(delivery_us),
                media_size: clamped(media_size),
            }),
    {
        Datapoint {
            timestamp_us,
            sender,
            receiver,
            serial,
            delivery_us: clamp_u32(delivery_us),
            media_size: clamp_u32(media_size),
        }
    }

    /// The record as it goes on the wire.
    pub fn to_bytes(&self) -> (r: Vec<u8>)
        ensures
            r@ == self.wire(),
            r@.len() == STRIDE,
    {
        let mut out = u64_bytes(self.timestamp_us);
        let mut sender = u32_bytes(self.sender);
        let mut receiver = u32_bytes(self.receiver);
        let mut serial = u64_bytes(self.serial);
        let mut delivery = u32_bytes(self.delivery_us);
        let mut media = u32_bytes(self.media_size);
        out.append(&mut sender);
        out.append(&mut receiver);
        out.append(&mut serial);
        out.append(&mut delivery);
        out.append(&mut media);
        proof {
            wire_length(*self);
        }
        out
    }
}

/// Every record has the same length on the wire.
pub proof fn wire_length(dp: Datapoint)
    ensures
        dp.wire().len() == STRIDE,
{
    lemma_le_len(dp.timestamp_us as nat, 8);
    lemma_le_len(dp.sender as nat, 4);
    lemma_le_len(dp.receiver as nat, 4);
    lemma_le_len(dp.serial as nat, 8);
    lemma_le_len(dp.delivery_us as nat, 4);
    lemma_le_len(dp.media_size as nat, 4);
}

/// The datapoint that a record on the wire stands for.
pub open spec fn read_record(bytes: Seq<u8>) -> Datapoint {
    Datapoint {
        timestamp_us: le_number(bytes.subrange(0, 8)) as u64,
        sender: le_number(bytes.subrange(8, 12)) as u32,
        receiver: le_number(bytes.subrange(12, 16)) as u32,
        serial: le_number(bytes.subrange(16, 24)) as u64,
        delivery_us: le_number(bytes.subrange(24, 28)) as u32,
        media_size: le_number(bytes.subrange(28, 32)) as u32,
    }
}

/// Nothing is lost on the wire: the record holds every field of the datapoint.
pub proof fn record_round_trip(dp: Datapoint)
    ensures
        read_record(dp.wire()) == dp,
{
    let bytes = dp.wire();
    lemma_le_len(dp.timestamp_us as nat, 8);
    lemma_le_len(dp.sender as nat, 4);
    lemma_le_len(dp.receiver as nat, 4);
    lemma_le_len(dp.serial as nat, 8);
    lemma_le_len(dp.delivery_us as nat, 4);
    lemma_le_len(dp.media_size as nat, 4);
    assert(bytes.subrange(0, 8) =~= le_bytes(dp.timestamp_us as nat, 8));
    assert(bytes.subrange(8, 12) =~= le_bytes(dp.sender as nat, 4));
    assert(bytes.subrange(12, 16) =~= le_bytes(dp.receiver as nat, 4));
    assert(bytes.subrange(16, 24) =~= le_bytes(dp.serial as nat, 8));
    assert(bytes.subrange(24, 28) =~= le_bytes(dp.delivery_us as nat, 4));
    assert(bytes.subrange(28, 32) =~= le_bytes(dp.media_size as nat, 4));
    lemma_le_round_trip_8(dp.timestamp_us as nat);
    lemma_le_round_trip_4(dp.sender as nat);
    lemma_le_round_trip_4(dp.receiver as nat);
    lemma_le_round_trip_8(dp.serial as nat);
    lemma_le_round_trip_4(dp.delivery_us as nat);
    lemma_le_round_trip_4(dp.media_size as nat);
}

// ── Account numbers ─────────────────────────────────────────────────────

/// What became of reading the file that an account list may name.
#[derive(Debug)]
pub enum ListFile {
    /// There is no such file.
    Missing,
    /// The file exists but cannot be read.
    Unreadable,
    /// The contents of the file.
    Content(String),
}

/// Account numbers by user ID. Users that are not listed have the number 0.
pub struct AccountList {
    map: StringHashMap<u32>,
}

impl View for AccountList {
    type V = Map<Seq<char>, u32>;

    closed spec fn view(&self) -> Map<Seq<char>, u32> {
        self.map@
    }
}

/// The listed users with their positions, counted from 1 in 32 bits. Of
/// several positions the last one holds.
pub open spec fn numbered(mxids: Seq<Seq<char>>) -> Map<Seq<char>, u32>
    decreases mxids.len(),
{
    if mxids.len() == 0 {
        Map::empty()
    } else {
        numbered(mxids.drop_last()).insert(
            mxids.last(),
            (mxids.len() % 0x1_0000_0000) as u32,
        )
    }
}

/// The users that a list names. A value that names a file stands for the
/// lines of the file; any other value holds the users itself, separated by
/// white space.
pub open spec fn listed(raw: Seq<char>, file: ListFile) -> Seq<Seq<char>> {
    if trimmed(raw).len() == 0 {
        Seq::empty()
    } else {
        match file {
            ListFile::Missing => words_of(trimmed(raw)),
            ListFile::Unreadable => Seq::empty(),
            ListFile::Content(content) => trimmed_entries(split_on(content@, '\n')),
        }
    }
}

impl AccountList {
    /// The list without any user.
    pub fn empty() -> (r: Self)
        ensures
            r@ == Map::<Seq<char>, u32>::empty(),
    {
        AccountList { map: StringHashMap::new() }
    }

    /// Numbers the users in order.
    fn from_users(mxids: &Vec<Vec<char>>) -> (r: Self)
        ensures
            r@ == numbered(mxids.deep_view()),
    {
        let mut map: StringHashMap<u32> = StringHashMap::new();
        let ghost all = mxids.deep_view();
        let mut i: usize = 0;
        assert(all.take(0) =~= Seq::<Seq<char>>::empty());
        while i < mxids.len()
            invariant
                i <= mxids@.len(),
                all == mxids.deep_view(),
                map@ == numbered(all.take(i as int)),
            decreases mxids@.len() - i,
        {
            let number: u32 = ((i as u64 + 1) % 0x1_0000_0000) as u32;
            map.insert(text_of(&mxids[i]), number);
            i = i + 1;
            assert(all.take(i as int).drop_last() =~= all.take(i - 1));
            assert(all[i - 1] =~= mxids@[i - 1]@);
        }
        assert(all.take(all.len() as int) =~= all);
        AccountList { map }
    }

    /// The list that a configured value stands for, given what reading the
    /// file of that name, without white space around it, has brought.
    pub fn parse(raw: &str, file: ListFile) -> (r: Self)
        ensures
            r@ == numbered(listed(raw@, file)),
    {
        let value = trim_chars(&chars_of(raw));
        if value.len() == 0 {
            return AccountList::empty();
        }
        match file {
            ListFile::Missing => AccountList::from_users(&split_whitespace(&value)),
            ListFile::Unreadable => AccountList::empty(),
            ListFile::Content(content) => AccountList::from_users(
                &split_entries(&chars_of(content.as_str()), '\n'),
            ),
        }
    }

    /// The account number of a user, or 0 for a user that is not listed.
    pub fn lookup(&self, mxid: &str) -> (r: u32)
        ensures
            r == (if self@.contains_key(mxid@) {
                self@[mxid@]
            } else {
                0
            }),
    {
        match self.map.get(mxid) {
            Some(number) => *number,
            None => 0,
        }
    }
}

/// A user has the number of its last place in the list, and only users of the
/// list have a number.
pub proof fn account_numbers(mxids: Seq<Seq<char>>, mxid: Seq<char>)
    ensures
        numbered(mxids).contains_key(mxid) <==> mxids.contains(mxid),
        forall|i: int|
            #![trigger mxids[i]]
            0 <= i < mxids.len() && mxids[i] == mxid && (forall|j: int|
                i < j < mxids.len() ==> mxids[j] != mxid) ==> numbered(mxids)[mxid] == (i + 1)
                % 0x1_0000_0000,
    decreases mxids.len(),
{
    if mxids.len() > 0 {
        let front = mxids.drop_last();
        account_numbers(front, mxid);
        assert(mxids =~= front.push(mxids.last()));
        assert(front.contains(mxid) ==> mxids.contains(mxid)) by {
            if front.contains(mxid) {
                let k = choose|k: int| 0 <= k < front.len() && front[k] == mxid;
                assert(mxids[k] == mxid);
            }
        }
        if mxids.contains(mxid) && mxids.last() != mxid {
            let k = choose|k: int| 0 <= k < mxids.len() && mxids[k] == mxid;
            assert(front[k] == mxid);
        }
        assert forall|i: int|
            #![trigger mxids[i]]
            0 <= i < mxids.len() && mxids[i] == mxid && (forall|j: int|
                i < j < mxids.len() ==> mxids[j] != mxid) implies numbered(mxids)[mxid] == (i + 1)
            % 0x1_0000_0000 by {
            if i < mxids.len() - 1 {
                assert(mxids[mxids.len() - 1] != mxid);
                assert(front[i] == mxid);
                assert forall|j: int| i < j < front.len() implies front[j] != mxid by {
                    assert(mxids[j] != mxid);
                }
            }
        }
    }
}

/// The address of the collector in a configured value, without white space
/// around it; an empty value names none.
pub fn collector_endpoint(raw: &str) -> (r: Option<String>)
    ensures
        match r {
            Some(endpoint) => endpoint@ == trimmed(raw@) && endpoint@.len() > 0,
            None => trimmed(raw@).len() == 0,
        },
{
    let value = trim_chars(&chars_of(raw));
    if value.len() == 0 {
        None
    } else {
        Some(text_of(&value))
    }
}

// ── The link to the collector ───────────────────────────────────────────

/// Where the link stands.
#[derive(Debug, Clone, Copy, PartialEq, Eq, Structural)]
pub enum LinkState {
    /// A connection is being made.
    Connecting,
    /// The connection stands and the header byte is being written.
    Opening,
    /// The next datapoint is awaited.
    Idle,
    /// The given datapoint is being written.
    Writing(Datapoint),
    /// The pause before the next attempt runs.
    Pausing,
    /// Nobody can submit datapoints any more.
    Stopped,
}

/// What has come of the last action.
#[derive(Debug, Clone, Copy, PartialEq, Eq, Structural)]
pub enum LinkEvent {
    Connected,
    ConnectFailed,
    Written,
    WriteFailed,
    Submitted(Datapoint),
    Closed,
    Slept,
}

/// What is to be done next.
#[derive(Debug)]
pub enum LinkAction {
    /// Connect to the collector.
    Connect,
    /// Write all the bytes to the connection.
    Write(Vec<u8>),
    /// Wait for the next datapoint.
    Receive,
    /// Wait for as many seconds.
    Sleep(u64),
    /// End.
    Stop,
}

/// Whether the event can come of the action of the state.
pub open spec fn fits(state: LinkState, event: LinkEvent) -> bool {
    match state {
        LinkState::Connecting => event is Connected || event is ConnectFailed,
        LinkState::Opening => event is Written || event is WriteFailed,
        LinkState::Idle => event is Submitted || event is Closed,
        LinkState::Writing(_) => event is Written || event is WriteFailed,
        LinkState::Pausing => event is Slept,
        LinkState::Stopped => false,
    }
}

/// The state after an event. A failure to connect or to send the header leads
/// to a pause; a failure to send a record leads straight to a new connection,
/// and the record is given up.
pub open spec fn link_next(state: LinkState, event: LinkEvent) -> LinkState {
    match (state, event) {
        (LinkState::Connecting, LinkEvent::Connected) => LinkState::Opening,
        (LinkState::Connecting, _) => LinkState::Pausing,
        (LinkState::Opening, LinkEvent::Written) => LinkState::Idle,
        (LinkState::Opening, _) => LinkState::Pausing,
        (LinkState::Pausing, _) => LinkState::Connecting,
        (LinkState::Idle, LinkEvent::Submitted(dp)) => LinkState::Writing(dp),
        (LinkState::Idle, _) => LinkState::Stopped,
        (LinkState::Writing(_), LinkEvent::Written) => LinkState::Idle,
        (LinkState::Writing(_), _) => LinkState::Connecting,
        (LinkState::Stopped, _) => LinkState::Stopped,
    }
}

/// The bytes that a state is busy writing.
pub open spec fn being_written(state: LinkState) -> Seq<u8> {
    match state {
        LinkState::Opening => seq![STRIDE as u8],
        LinkState::Writing(dp) => dp.wire(),
        _ => Seq::empty(),
    }
}

impl LinkState {
    /// What is to be done in this state.
    pub fn action(&self) -> (r: LinkAction)
        ensures
            match *self {
                LinkState::Connecting => r is Connect,
                LinkState::Opening => r matches LinkAction::Write(b) && b@ == being_written(*self),
                LinkState::Idle => r is Receive,
                LinkState::Writing(_) => r matches LinkAction::Write(b) && b@ == being_written(
                    *self,
                ),
                LinkState::Pausing => r == LinkAction::Sleep(RECONNECT_DELAY),
                LinkState::Stopped => r is Stop,
            },
    {
        match self {
            LinkState::Connecting => LinkAction::Connect,
            LinkState::Opening => {
                let mut header: Vec<u8> = Vec::new();
                header.push(STRIDE as u8);
                assert(header@ =~= seq![STRIDE as u8]);
                LinkAction::Write(header)
            },
            LinkState::Idle => LinkAction::Receive,
            LinkState::Writing(dp) => LinkAction::Write(dp.to_bytes()),
            LinkState::Pausing => LinkAction::Sleep(RECONNECT_DELAY),
            LinkState::Stopped => LinkAction::Stop,
        }
    }

    /// The state after an event that came of this state's action.
    pub fn after(&self, event: LinkEvent) -> (r: LinkState)
        requires
            fits(*self, event),
        ensures
            r == link_next(*self, event),
    {
        match (*self, event) {
            (LinkState::Connecting, LinkEvent::Connected) => LinkState::Opening,
            (LinkState::Connecting, _) => LinkState::Pausing,
            (LinkState::Opening, LinkEvent::Written) => LinkState::Idle,
            (LinkState::Opening, _) => LinkState::Pausing,
            (LinkState::Pausing, _) => LinkState::Connecting,
            (LinkState::Idle, LinkEvent::Submitted(dp)) => LinkState::Writing(dp),
            (LinkState::Idle, _) => LinkState::Stopped,
            (LinkState::Writing(_), LinkEvent::Written) => LinkState::Idle,
            (LinkState::Writing(_), _) => LinkState::Connecting,
            (LinkState::Stopped, _) => LinkState::Stopped,
        }
    }
}

/// The records one after the other.
pub open spec fn record_bytes(records: Seq<Datapoint>) -> Seq<u8>
    decreases records.len(),
{
    if records.len() == 0 {
        Seq::empty()
    } else {
        record_bytes(records.drop_last()) + records.last().wire()
    }
}

/// What a connection carries: the header byte, then the records.
pub open spec fn stream_bytes(records: Seq<Datapoint>) -> Seq<u8> {
    seq![STRIDE as u8] + record_bytes(records)
}

/// A run of the link: its state, the bytes that the current connection has
/// taken, and the records that it has taken.
pub struct LinkRun {
    pub state: LinkState,
    pub taken: Seq<u8>,
    pub records: Seq<Datapoint>,
}

/// The run that a series of events makes, from the first attempt to connect.
pub open spec fn link_run(events: Seq<LinkEvent>) -> LinkRun
    decreases events.len(),
{
    if events.len() == 0 {
        LinkRun { state: LinkState::Connecting, taken: Seq::empty(), records: Seq::empty() }
    } else {
        let before = link_run(events.drop_last());
        let event = events.last();
        let state = link_next(before.state, event);
        if event is Connected {
            LinkRun { state, taken: Seq::empty(), records: Seq::empty() }
        } else if event is Written {
            LinkRun {
                state,
                taken: before.taken + being_written(before.state),
                records: match before.state {
                    LinkState::Writing(dp) => before.records.push(dp),
                    _ => before.records,
                },
            }
        } else {
            LinkRun { state, taken: before.taken, records: before.records }
        }
    }
}

/// Whether each event fits the state that it meets.
pub open spec fn all_fit(events: Seq<LinkEvent>) -> bool
    decreases events.len(),
{
    events.len() == 0 || (all_fit(events.drop_last()) && fits(
        link_run(events.drop_last()).state,
        events.last(),
    ))
}

/// Whatever happens to the link, what a connection has taken is the header
/// byte followed by whole records; until the header is through it has taken
/// nothing.
pub proof fn link_sends_whole_records(events: Seq<LinkEvent>)
    requires
        all_fit(events),
    ensures
        match link_run(events).state {
            LinkState::Opening => link_run(events).taken == Seq::<u8>::empty(),
            LinkState::Idle | LinkState::Writing(_) => link_run(events).taken == stream_bytes(
                link_run(events).records,
            ),
            _ => true,
        },
        link_run(events).state is Opening ==> link_run(events).records == Seq::<Datapoint>::empty(),
    decreases events.len(),
{
    if events.len() > 0 {
        let before = link_run(events.drop_last());
        let now = link_run(events);
        link_sends_whole_records(events.drop_last());
        if now.state is Idle {
            match before.state {
                LinkState::Opening => {
                    assert(now.taken =~= stream_bytes(now.records));
                },
                LinkState::Writing(dp) => {
                    assert(now.records.drop_last() =~= before.records);
                    assert(now.taken =~= stream_bytes(now.records));
                },
                _ => {},
            }
        }
    }
}

/// The datapoints that were submitted, in order.
pub open spec fn submitted(events: Seq<LinkEvent>) -> Seq<Datapoint>
    decreases events.len(),
{
    if events.len() == 0 {
        Seq::empty()
    } else {
        let before = submitted(events.drop_last());
        match events.last() {
            LinkEvent::Submitted(dp) => before.push(dp),
            _ => before,
        }
    }
}

/// Adds a datapoint to the last of the lists.
pub open spec fn extended(lists: Seq<Seq<Datapoint>>, dp: Datapoint) -> Seq<Seq<Datapoint>> {
    lists.drop_last().push(lists.last().push(dp))
}

/// The datapoints that were offered to each connection, one after the other:
/// those submitted while it stood.
pub open spec fn offered(events: Seq<LinkEvent>) -> Seq<Seq<Datapoint>>
    decreases events.len(),
{
    if events.len() == 0 {
        Seq::empty()
    } else {
        let before = offered(events.drop_last());
        match events.last() {
            LinkEvent::Connected => before.push(Seq::empty()),
            LinkEvent::Submitted(dp) => extended(before, dp),
            _ => before,
        }
    }
}

/// The datapoints that each connection took.
pub open spec fn accepted(events: Seq<LinkEvent>) -> Seq<Seq<Datapoint>>
    decreases events.len(),
{
    if events.len() == 0 {
        Seq::empty()
    } else {
        let before = accepted(events.drop_last());
        match (events.last(), link_run(events.drop_last()).state) {
            (LinkEvent::Connected, _) => before.push(Seq::empty()),
            (LinkEvent::Written, LinkState::Writing(dp)) => extended(before, dp),
            _ => before,
        }
    }
}

/// Whether a connection took all that it was offered, or all but the last one.
pub open spec fn all_but_last(took: Seq<Datapoint>, offer: Seq<Datapoint>) -> bool {
    took == offer || (offer.len() > 0 && took == offer.drop_last())
}

proof fn lemma_extended(lists: Seq<Seq<Datapoint>>, dp: Datapoint)
    requires
        lists.len() > 0,
    ensures
        extended(lists, dp).len() == lists.len(),
        extended(lists, dp).last() == lists.last().push(dp),
        forall|c: int| 0 <= c < lists.len() - 1 ==> extended(lists, dp)[c] == lists[c],
        extended(lists, dp).flatten_alt() == lists.flatten_alt().push(dp),
{
    let new = extended(lists, dp);
    assert(new.drop_last() =~= lists.drop_last());
    assert(new.flatten_alt() =~= lists.flatten_alt().push(dp));
}

/// Every submitted datapoint is offered to one connection, in order, and to no
/// other. Each connection takes what it is offered, in order, but perhaps for
/// the last one, on which it may break; the run's records are those that the
/// last connection took.
pub proof fn each_datapoint_is_offered_once(events: Seq<LinkEvent>)
    requires
        all_fit(events),
    ensures
        offered(events).flatten_alt() == submitted(events),
        accepted(events).len() == offered(events).len(),
        forall|c: int|
            0 <= c < offered(events).len() ==> all_but_last(
                #[trigger] accepted(events)[c],
                offered(events)[c],
            ),
        accepted(events).len() > 0 ==> link_run(events).records == accepted(events).last(),
        match link_run(events).state {
            LinkState::Opening | LinkState::Idle => offered(events).len() > 0 && accepted(
                events,
            ).last() == offered(events).last(),
            LinkState::Writing(dp) => offered(events).len() > 0 && offered(events).last()
                == accepted(events).last().push(dp),
            _ => true,
        },
    decreases events.len(),
{
    if events.len() > 0 {
        let front = events.drop_last();
        each_datapoint_is_offered_once(front);
        let before = link_run(front);
        let (offer, took) = (offered(front), accepted(front));
        match events.last() {
            LinkEvent::Connected => {
                let new = offered(events);
                assert(new.drop_last() =~= offer);
                assert(new.flatten_alt() =~= offer.flatten_alt());
                assert(accepted(events).last() =~= Seq::<Datapoint>::empty());
            },
            LinkEvent::Submitted(dp) => {
                lemma_extended(offer, dp);
                assert(offered(events).last().drop_last() =~= offer.last());
            },
            LinkEvent::Written => match before.state {
                LinkState::Writing(dp) => {
                    lemma_extended(took, dp);
                    assert(accepted(events).last() == offered(events).last());
                },
                _ => {},
            },
            _ => {},
        }
        assert forall|c: int| 0 <= c < offered(events).len() implies all_but_last(
            #[trigger] accepted(events)[c],
            offered(events)[c],
        ) by {
            if c < offer.len() {
                assert(all_but_last(took[c], offer[c]));
            }
        }
    }
}

proof fn lemma_flattened_part(lists: Seq<Seq<Datapoint>>, c: int)
    requires
        0 <= c < lists.len(),
    ensures
        ({
            let at = lists.take(c).flatten_alt().len() as int;
            &&& at + lists[c].len() <= lists.flatten_alt().len()
            &&& lists.flatten_alt().subrange(at, at + lists[c].len()) == lists[c]
            &&& lists.take(c + 1).flatten_alt().len() == at + lists[c].len()
        }),
    decreases lists.len(),
{
    let at = lists.take(c).flatten_alt().len() as int;
    let front = lists.drop_last();
    assert(lists.take(c + 1).drop_last() =~= lists.take(c));
    if c == lists.len() - 1 {
        assert(front =~= lists.take(c));
        assert(lists.flatten_alt().subrange(at, at + lists[c].len()) =~= lists[c]);
    } else {
        lemma_flattened_part(front, c);
        assert(front.take(c) =~= lists.take(c));
        assert(lists.flatten_alt().subrange(at, at + lists[c].len())
            =~= front.flatten_alt().subrange(at, at + lists[c].len()));
    }
}

/// The number of datapoints that were offered to the connections before `c`.
pub open spec fn offered_before(events: Seq<LinkEvent>, c: int) -> int {
    offered(events).take(c).flatten_alt().len() as int
}

/// What one connection took is a consecutive run of the submitted datapoints,
/// in order, and it ends before the run of the next connection begins.
pub proof fn connections_take_consecutive_runs(events: Seq<LinkEvent>, c: int)
    requires
        all_fit(events),
        0 <= c < accepted(events).len(),
    ensures
        ({
            let from = offered_before(events, c);
            let to = from + accepted(events)[c].len();
            &&& 0 <= from <= to <= offered_before(events, c + 1) <= submitted(events).len()
            &&& accepted(events)[c] == submitted(events).subrange(from, to)
        }),
{
    each_datapoint_is_offered_once(events);
    let offer = offered(events)[c];
    let took = accepted(events)[c];
    let from = offered_before(events, c);
    lemma_flattened_part(offered(events), c);
    assert(all_but_last(took, offer));
    assert(submitted(events).subrange(from, from + offer.len()) == offer);
    assert forall|i: int| 0 <= i < took.len() implies took[i] == submitted(events).subrange(
        from,
        from + took.len(),
    )[i] by {
        assert(took[i] == offer[i]);
        assert(offer[i] == submitted(events).subrange(from, from + offer.len())[i]);
    }
    assert(took =~= submitted(events).subrange(from, from + took.len()));
}

} // verus!
