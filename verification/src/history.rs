//! Checking the history of a room, page by page from the newest message back.
//!
//! Every message carries a serial number per sender. Reading backwards, the
//! numbers of a sender must go down by one. Images must be valid. The newest
//! message of our own user tells which number comes next.
use crate::image::png_verdict;
use crate::image::validate_png;
use crate::message::parse_message_body;
use crate::message::parsed_message;
use vstd::hash_map::StringHashMap;
use vstd::prelude::*;

verus! {

// ── Events ──────────────────────────────────────────────────────────────

/// What a download has brought.
#[derive(Debug)]
pub enum Download {
    Data(Vec<u8>),
    Failed,
}

/// An event of a room's history, as far as the check is concerned.
#[derive(Debug)]
pub enum PageEvent {
    /// An event that cannot be decrypted, with its sender if that is known.
    Undecryptable { known_sender: Option<String> },
    /// A change of the room's state.
    State,
    /// An event that is not a message, or that cannot be read at all.
    NotAMessage,
    /// A message whose content was removed.
    Redacted,
    /// A text message.
    Text { sender: String, body: String },
    /// An image with its caption, if it has one, and what downloading it has
    /// brought.
    Image { sender: String, caption: Option<String>, media: Download },
    /// A message of another kind.
    Unsupported { sender: String },
}

/// What is wrong with an event.
#[derive(Debug, Clone, Copy, PartialEq, Eq, Structural)]
pub enum EventFault {
    NotAMessage,
    Redacted,
    /// An image has no caption.
    NoCaption,
    /// A downloaded image is not valid.
    InvalidImage,
    /// An image could not be downloaded.
    DownloadFailed,
    Unsupported,
    /// The text is not that of a message.
    BadFormat,
    /// The serial number is not one less than that of the sender's next newer
    /// message.
    SerialMismatch { newer: u64, got: u64 },
}

/// The sender and the serial number of an event that is a sound message, what
/// is wrong with it otherwise.
pub open spec fn read_event(event: PageEvent) -> Result<(Seq<char>, u64), EventFault> {
    match event {
        PageEvent::Undecryptable { .. } | PageEvent::State | PageEvent::NotAMessage => Err(
            EventFault::NotAMessage,
        ),
        PageEvent::Redacted => Err(EventFault::Redacted),
        PageEvent::Unsupported { .. } => Err(EventFault::Unsupported),
        PageEvent::Text { sender, body } => read_body(sender@, body@),
        PageEvent::Image { sender, caption, media } => match (caption, media) {
            (None, _) => Err(EventFault::NoCaption),
            (Some(_), Download::Failed) => Err(EventFault::DownloadFailed),
            (Some(body), Download::Data(data)) => if png_verdict(data@) is Err {
                Err(EventFault::InvalidImage)
            } else {
                read_body(sender@, body@)
            },
        },
    }
}

/// The serial number in the text of a sender's message.
pub open spec fn read_body(sender: Seq<char>, body: Seq<char>) -> Result<
    (Seq<char>, u64),
    EventFault,
> {
    match parsed_message(body) {
        Some((serial, _)) => Ok((sender, serial)),
        None => Err(EventFault::BadFormat),
    }
}

/// Whether an event is passed over: it tells nothing about messages, or it was
/// a message that cannot be decrypted.
pub open spec fn is_tolerated(event: PageEvent) -> bool {
    event is Undecryptable || event is State
}

// ── Serial numbers ──────────────────────────────────────────────────────

/// What the check knows of the serial numbers in a room.
#[verifier::ext_equal]
pub struct Tracking {
    /// The serial number of each sender's oldest message so far. A sender whose
    /// number is not known yet is not in it.
    pub last: Map<Seq<char>, u64>,
    /// The number that our next message gets, once it is known.
    pub next: Option<u64>,
}

/// The number after `n`, in 64 bits.
pub open spec fn serial_after(n: u64) -> u64 {
    if n == u64::MAX {
        0
    } else {
        (n + 1) as u64
    }
}

impl Tracking {
    /// The last number of a sender, if one is known.
    pub open spec fn known(self, sender: Seq<char>) -> Option<u64> {
        if self.last.contains_key(sender) {
            Some(self.last[sender])
        } else {
            None
        }
    }

    /// What is wrong with the serial number of the sender's next older message,
    /// if anything: it must be one less than the last one, if that is known.
    pub open spec fn serial_fault(self, sender: Seq<char>, serial: u64) -> Option<EventFault> {
        match self.known(sender) {
            Some(newer) => if serial + 1 != newer {
                Some(EventFault::SerialMismatch { newer, got: serial })
            } else {
                None
            },
            None => None,
        }
    }

    /// A message of the sender is taken in.
    pub open spec fn record(self, ours: Seq<char>, sender: Seq<char>, serial: u64) -> Tracking {
        Tracking {
            last: self.last.insert(sender, serial),
            next: if sender == ours && self.next is None {
                Some(serial_after(serial))
            } else {
                self.next
            },
        }
    }

    /// A message of the sender that cannot be decrypted is counted: it takes
    /// the number before the last one. If that is not known, or is 0, the
    /// message tells nothing.
    pub open spec fn count(self, ours: Seq<char>, sender: Seq<char>) -> Tracking {
        match self.known(sender) {
            Some(newer) => if newer > 0 {
                Tracking {
                    last: self.last.insert(sender, (newer - 1) as u64),
                    next: if sender == ours && self.next is None && newer > 1 {
                        Some(newer)
                    } else {
                        self.next
                    },
                }
            } else {
                self
            },
            None => self,
        }
    }

    /// What is known after an event.
    pub open spec fn after(self, ours: Seq<char>, event: PageEvent) -> Tracking {
        match event {
            PageEvent::State => self,
            PageEvent::Undecryptable { known_sender: None } => self,
            PageEvent::Undecryptable { known_sender: Some(sender) } => self.count(ours, sender@),
            _ => match read_event(event) {
                Ok((sender, serial)) => self.record(ours, sender, serial),
                Err(_) => self,
            },
        }
    }

    /// What is wrong with an event, if anything.
    pub open spec fn fault(self, event: PageEvent) -> Option<EventFault> {
        if is_tolerated(event) {
            None
        } else {
            match read_event(event) {
                Err(fault) => Some(fault),
                Ok((sender, serial)) => self.serial_fault(sender, serial),
            }
        }
    }

    /// What is known after a series of events.
    pub open spec fn after_all(self, ours: Seq<char>, events: Seq<PageEvent>) -> Tracking
        decreases events.len(),
    {
        if events.len() == 0 {
            self
        } else {
            self.after_all(ours, events.drop_last()).after(ours, events.last())
        }
    }

    /// What is wrong with the event at `i` of a series, if anything.
    pub open spec fn fault_at(
        self,
        ours: Seq<char>,
        events: Seq<PageEvent>,
        i: int,
    ) -> Option<EventFault> {
        self.after_all(ours, events.take(i)).fault(events[i])
    }

    /// Whether something is wrong with some event of a series.
    pub open spec fn some_fault(self, ours: Seq<char>, events: Seq<PageEvent>) -> bool {
        exists|i: int| 0 <= i < events.len() && (#[trigger] self.fault_at(ours, events, i)) is Some
    }
}

// ── Rooms ───────────────────────────────────────────────────────────────

/// How far the check of a room has come.
pub struct RoomVerificationState {
    /// Where the next page begins; nothing stands for the newest event.
    pub pagination_token: Option<String>,
    /// Whether a page has been checked.
    pub started: bool,
    /// Whether the oldest event has been reached.
    pub fully_verified: bool,
    /// Whether something was wrong. The room is then left alone.
    pub failed: bool,
    /// The serial number of each sender's oldest message so far. A sender whose
    /// number is not known yet is not in it.
    pub last_serial_by_user: StringHashMap<u64>,
    /// The number that our next message gets, once it is known.
    pub next_serial: Option<u64>,
}

/// What a page has brought.
#[derive(Debug)]
pub struct PageReport {
    /// The number of events.
    pub count: usize,
    /// Whether something was wrong.
    pub failed: bool,
    /// What was wrong with each event, if anything.
    pub faults: Vec<Option<EventFault>>,
}

/// The serial number that a room without messages of ours begins with.
pub open spec fn next_or_first(next: Option<u64>) -> Option<u64> {
    match next {
        Some(n) => Some(n),
        None => Some(1),
    }
}

impl RoomVerificationState {
    /// What is known of the serial numbers.
    pub open spec fn tracking(self) -> Tracking {
        Tracking { last: self.last_serial_by_user@, next: self.next_serial }
    }

    /// The number for our next message is known by the end of the check.
    pub open spec fn valid(self) -> bool {
        self.fully_verified ==> self.next_serial is Some
    }

    /// A room of which nothing is known yet.
    pub fn new() -> (r: Self)
        ensures
            r.pagination_token is None,
            !r.started,
            !r.fully_verified,
            !r.failed,
            r.tracking() == (Tracking { last: Map::empty(), next: None }),
            r.valid(),
    {
        RoomVerificationState {
            pagination_token: None,
            started: false,
            fully_verified: false,
            failed: false,
            last_serial_by_user: StringHashMap::new(),
            next_serial: None,
        }
    }

    /// Whether messages may be sent: our serial number is known, and nothing
    /// was wrong.
    pub fn is_send_eligible(&self) -> (r: bool)
        ensures
            r == (!self.failed && self.next_serial is Some),
    {
        !self.failed && self.next_serial.is_some()
    }

    /// Whether there is more to check.
    pub fn needs_verification(&self) -> (r: bool)
        ensures
            r == (!self.failed && !self.fully_verified),
    {
        !self.failed && !self.fully_verified
    }

    fn last_serial(&self, sender: &str) -> (r: Option<u64>)
        ensures
            r == self.tracking().known(sender@),
    {
        match self.last_serial_by_user.get(sender) {
            Some(serial) => Some(*serial),
            None => None,
        }
    }

    /// Counts a message that cannot be decrypted.
    fn count_undecryptable(&mut self, ours: &str, sender: &String)
        ensures
            final(self).tracking() == old(self).tracking().count(ours@, sender@),
            final(self).pagination_token == old(self).pagination_token,
            final(self).started == old(self).started,
            final(self).fully_verified == old(self).fully_verified,
            final(self).failed == old(self).failed,
    {
        match self.last_serial(sender.as_str()) {
            Some(newer) => {
                if newer > 0 {
                    self.last_serial_by_user.insert(sender.clone(), newer - 1);
                    if *sender == ours.to_owned() && self.next_serial.is_none() && newer > 1 {
                        self.next_serial = Some(newer);
                    }
                }
            },
            None => {},
        }
    }

    /// Takes in the text of a message.
    fn take_body(&mut self, ours: &str, sender: &String, body: &str) -> (r: Option<EventFault>)
        ensures
            match read_body(sender@, body@) {
                Ok((_, serial)) => final(self).tracking() == old(self).tracking().record(
                    ours@,
                    sender@,
                    serial,
                ),
                Err(_) => final(self).tracking() == old(self).tracking(),
            },
            match read_body(sender@, body@) {
                Err(fault) => r == Some(fault),
                Ok((_, serial)) => r == old(self).tracking().serial_fault(sender@, serial),
            },
            final(self).pagination_token == old(self).pagination_token,
            final(self).started == old(self).started,
            final(self).fully_verified == old(self).fully_verified,
            final(self).failed == old(self).failed,
    {
        match parse_message_body(body) {
            None => Some(EventFault::BadFormat),
            Some((serial, _)) => {
                let fault = match self.last_serial(sender.as_str()) {
                    Some(newer) => if newer == 0 || serial != newer - 1 {
                        Some(EventFault::SerialMismatch { newer, got: serial })
                    } else {
                        None
                    },
                    None => None,
                };
                self.last_serial_by_user.insert(sender.clone(), serial);
                if *sender == ours.to_owned() && self.next_serial.is_none() {
                    self.next_serial = Some(serial.wrapping_add(1));
                }
                fault
            },
        }
    }

    /// Takes in one event.
    fn take_event(&mut self, ours: &str, event: &PageEvent) -> (r: Option<EventFault>)
        ensures
            final(self).tracking() == old(self).tracking().after(ours@, *event),
            r == old(self).tracking().fault(*event),
            final(self).pagination_token == old(self).pagination_token,
            final(self).started == old(self).started,
            final(self).fully_verified == old(self).fully_verified,
            final(self).failed == old(self).failed,
    {
        match event {
            PageEvent::State => None,
            PageEvent::Undecryptable { known_sender } => {
                match known_sender {
                    None => {},
                    Some(sender) => self.count_undecryptable(ours, sender),
                }
                None
            },
            PageEvent::NotAMessage => Some(EventFault::NotAMessage),
            PageEvent::Redacted => Some(EventFault::Redacted),
            PageEvent::Unsupported { .. } => Some(EventFault::Unsupported),
            PageEvent::Text { sender, body } => self.take_body(ours, sender, body.as_str()),
            PageEvent::Image { sender, caption, media } => match caption {
                None => Some(EventFault::NoCaption),
                Some(body) => match media {
                    Download::Failed => Some(EventFault::DownloadFailed),
                    Download::Data(data) => match validate_png(data) {
                        Err(_) => Some(EventFault::InvalidImage),
                        Ok(_) => self.take_body(ours, sender, body.as_str()),
                    },
                },
            },
        }
    }

    /// Takes in a page of events, newest first, and where the next page
    /// begins, if there is one. Without another page, or after an empty one,
    /// the check is complete, and a room without messages of ours begins with
    /// the serial number 1.
    pub fn verify_page(
        &mut self,
        our_user_id: &str,
        events: &Vec<PageEvent>,
        end: Option<String>,
    ) -> (r: PageReport)
        requires
            old(self).valid(),
        ensures
            final(self).valid(),
            final(self).failed == old(self).failed,
            if old(self).fully_verified {
                &&& *final(self) == *old(self)
                &&& r.count == 0
                &&& !r.failed
                &&& r.faults@.len() == 0
            } else {
                let before = old(self).tracking();
                let after = before.after_all(our_user_id@, events@);
                let more = end is Some && events@.len() > 0;
                &&& r.count == events@.len()
                &&& r.faults@.len() == events@.len()
                &&& forall|i: int|
                    0 <= i < events@.len() ==> #[trigger] r.faults@[i] == before.fault_at(
                        our_user_id@,
                        events@,
                        i,
                    )
                &&& r.failed == before.some_fault(our_user_id@, events@)
                &&& final(self).started
                &&& final(self).fully_verified == !more
                &&& final(self).pagination_token == (if more {
                    end
                } else {
                    old(self).pagination_token
                })
                &&& final(self).tracking() == (if more {
                    after
                } else {
                    Tracking { last: after.last, next: next_or_first(after.next) }
                })
            },
    {
        let mut faults: Vec<Option<EventFault>> = Vec::new();
        if self.fully_verified {
            return PageReport { count: 0, failed: false, faults };
        }
        let ghost before = self.tracking();
        let ghost ours = our_user_id@;
        let mut failed: bool = false;
        let mut i: usize = 0;
        assert(events@.take(0) =~= Seq::<PageEvent>::empty());
        while i < events.len()
            invariant
                i <= events@.len(),
                ours == our_user_id@,
                before == old(self).tracking(),
                faults@.len() == i,
                self.tracking() == before.after_all(ours, events@.take(i as int)),
                self.pagination_token == old(self).pagination_token,
                self.fully_verified == old(self).fully_verified,
                self.failed == old(self).failed,
                forall|k: int|
                    0 <= k < i ==> #[trigger] faults@[k] == before.fault_at(ours, events@, k),
                failed == (exists|k: int|
                    0 <= k < i && (#[trigger] before.fault_at(ours, events@, k)) is Some),
            decreases events@.len() - i,
        {
            let fault = self.take_event(our_user_id, &events[i]);
            assert(fault == before.fault_at(ours, events@, i as int));
            if fault.is_some() {
                failed = true;
            }
            faults.push(fault);
            i = i + 1;
            assert(events@.take(i as int).drop_last() =~= events@.take(i - 1));
            assert(events@.take(i as int).last() == events@[i - 1]);
        }
        assert(events@.take(events@.len() as int) =~= events@);
        self.started = true;
        if end.is_some() && events.len() > 0 {
            self.pagination_token = end;
        } else {
            self.fully_verified = true;
            if self.next_serial.is_none() {
                self.next_serial = Some(1);
            }
        }
        PageReport { count: events.len(), failed, faults }
    }
}

// ── What holds of every history ─────────────────────────────────────────

proof fn lemma_after_all_split(t: Tracking, ours: Seq<char>, a: Seq<PageEvent>, b: Seq<PageEvent>)
    ensures
        t.after_all(ours, a + b) == t.after_all(ours, a).after_all(ours, b),
    decreases b.len(),
{
    if b.len() == 0 {
        assert(a + b =~= a);
    } else {
        lemma_after_all_split(t, ours, a, b.drop_last());
        assert((a + b).drop_last() =~= a + b.drop_last());
        assert((a + b).last() == b.last());
    }
}

proof fn lemma_fault_in_first(
    t: Tracking,
    ours: Seq<char>,
    a: Seq<PageEvent>,
    b: Seq<PageEvent>,
    i: int,
)
    requires
        0 <= i < a.len(),
    ensures
        t.fault_at(ours, a + b, i) == t.fault_at(ours, a, i),
{
    assert((a + b).take(i) =~= a.take(i));
    assert((a + b)[i] == a[i]);
}

proof fn lemma_fault_in_second(
    t: Tracking,
    ours: Seq<char>,
    a: Seq<PageEvent>,
    b: Seq<PageEvent>,
    i: int,
)
    requires
        0 <= i < b.len(),
    ensures
        t.fault_at(ours, a + b, a.len() + i) == t.after_all(ours, a).fault_at(ours, b, i),
{
    assert((a + b).take(a.len() + i) =~= a + b.take(i));
    assert((a + b)[a.len() + i] == b[i]);
    lemma_after_all_split(t, ours, a, b.take(i));
}

/// It makes no difference where one page ends and the next begins.
pub proof fn pages_can_be_split(t: Tracking, ours: Seq<char>, a: Seq<PageEvent>, b: Seq<PageEvent>)
    ensures
        t.after_all(ours, a + b) == t.after_all(ours, a).after_all(ours, b),
        t.some_fault(ours, a + b) <==> t.some_fault(ours, a) || t.after_all(ours, a).some_fault(
            ours,
            b,
        ),
{
    lemma_after_all_split(t, ours, a, b);
    let both = a + b;
    let middle = t.after_all(ours, a);
    assert(t.some_fault(ours, a) ==> t.some_fault(ours, both)) by {
        if t.some_fault(ours, a) {
            let i = choose|i: int| 0 <= i < a.len() && (#[trigger] t.fault_at(ours, a, i)) is Some;
            lemma_fault_in_first(t, ours, a, b, i);
        }
    }
    assert(middle.some_fault(ours, b) ==> t.some_fault(ours, both)) by {
        if middle.some_fault(ours, b) {
            let i = choose|i: int|
                0 <= i < b.len() && (#[trigger] middle.fault_at(ours, b, i)) is Some;
            lemma_fault_in_second(t, ours, a, b, i);
        }
    }
    assert(t.some_fault(ours, both) ==> t.some_fault(ours, a) || middle.some_fault(ours, b)) by {
        if t.some_fault(ours, both) {
            let i = choose|i: int|
                0 <= i < both.len() && (#[trigger] t.fault_at(ours, both, i)) is Some;
            if i < a.len() {
                lemma_fault_in_first(t, ours, a, b, i);
            } else {
                lemma_fault_in_second(t, ours, a, b, i - a.len());
            }
        }
    }
}

/// Once the number for our next message is known, older messages do not change
/// it.
pub proof fn next_serial_stays(t: Tracking, ours: Seq<char>, events: Seq<PageEvent>)
    requires
        t.next is Some,
    ensures
        t.after_all(ours, events).next == t.next,
    decreases events.len(),
{
    if events.len() > 0 {
        next_serial_stays(t, ours, events.drop_last());
    }
}

/// Whether an event is a sound message.
pub open spec fn is_message(event: PageEvent) -> bool {
    !is_tolerated(event) && read_event(event) is Ok
}

/// The sender of a sound message.
pub open spec fn sender_of(event: PageEvent) -> Seq<char> {
    read_event(event)->Ok_0.0
}

/// The serial number of a sound message.
pub open spec fn serial_of(event: PageEvent) -> u64 {
    read_event(event)->Ok_0.1
}

/// Position of the sender's oldest message, or -1.
pub open spec fn oldest_of(events: Seq<PageEvent>, sender: Seq<char>) -> int
    decreases events.len(),
{
    if events.len() == 0 {
        -1
    } else if is_message(events.last()) && sender_of(events.last()) == sender {
        events.len() - 1
    } else {
        oldest_of(events.drop_last(), sender)
    }
}

proof fn lemma_oldest_of(events: Seq<PageEvent>, sender: Seq<char>)
    ensures
        -1 <= oldest_of(events, sender) < events.len(),
        oldest_of(events, sender) >= 0 ==> is_message(events[oldest_of(events, sender)])
            && sender_of(events[oldest_of(events, sender)]) == sender,
        forall|k: int|
            oldest_of(events, sender) < k < events.len() ==> !(is_message(#[trigger] events[k])
                && sender_of(events[k]) == sender),
    decreases events.len(),
{
    if events.len() > 0 && !(is_message(events.last()) && sender_of(events.last()) == sender) {
        let front = events.drop_last();
        lemma_oldest_of(front, sender);
        assert forall|k: int|
            oldest_of(events, sender) < k < events.len() implies !(is_message(#[trigger] events[k])
            && sender_of(events[k]) == sender) by {
            if k < front.len() {
                assert(events[k] == front[k]);
            }
        }
    }
}

/// Whether the messages at `i` and `j` are by one sender, with none of that
/// sender between them. The one at `j` is the older.
pub open spec fn neighbours(events: Seq<PageEvent>, i: int, j: int) -> bool {
    &&& 0 <= i < j < events.len()
    &&& is_message(events[i])
    &&& is_message(events[j])
    &&& sender_of(events[i]) == sender_of(events[j])
    &&& forall|k: int|
        i < k < j ==> !(is_message(#[trigger] events[k]) && sender_of(events[k]) == sender_of(
            events[j],
        ))
}

/// Whether two neighbouring messages of one sender do not have consecutive
/// serial numbers.
pub open spec fn has_gap(events: Seq<PageEvent>) -> bool {
    exists|i: int, j: int| #[trigger]
        neighbours(events, i, j) && serial_of(events[j]) + 1 != serial_of(events[i])
}

/// Whether every event is a sound message or a change of state.
pub open spec fn all_sound(events: Seq<PageEvent>) -> bool {
    forall|i: int| 0 <= i < events.len() ==> is_message(#[trigger] events[i]) || events[i] is State
}

/// What is known of a room at the start.
pub open spec fn nothing_known() -> Tracking {
    Tracking { last: Map::empty(), next: None }
}

proof fn lemma_known_serials(ours: Seq<char>, events: Seq<PageEvent>, sender: Seq<char>)
    requires
        all_sound(events),
    ensures
        nothing_known().after_all(ours, events).known(sender) == (if oldest_of(events, sender)
            >= 0 {
            Some(serial_of(events[oldest_of(events, sender)]))
        } else {
            None
        }),
    decreases events.len(),
{
    if events.len() > 0 {
        let front = events.drop_last();
        assert(all_sound(front)) by {
            assert forall|i: int| 0 <= i < front.len() implies is_message(#[trigger] front[i])
                || front[i] is State by {
                assert(front[i] == events[i]);
            }
        }
        lemma_known_serials(ours, front, sender);
        lemma_oldest_of(front, sender);
        assert(is_message(events.last()) || events.last() is State);
    }
}

/// Of a history of sound messages, the check finds fault with exactly the gaps:
/// it fails if and only if some sender's serial numbers are not consecutive.
pub proof fn gaps_are_found(ours: Seq<char>, events: Seq<PageEvent>)
    requires
        all_sound(events),
    ensures
        nothing_known().some_fault(ours, events) <==> has_gap(events),
{
    let t = nothing_known();
    assert forall|j: int| 0 <= j < events.len() && is_message(#[trigger] events[j]) implies (
    t.fault_at(ours, events, j) is Some <==> (oldest_of(events.take(j), sender_of(events[j])) >= 0
        && serial_of(events[j]) + 1 != serial_of(
        events[oldest_of(events.take(j), sender_of(events[j]))],
    ))) by {
        let prefix = events.take(j);
        let sender = sender_of(events[j]);
        assert(all_sound(prefix)) by {
            assert forall|i: int| 0 <= i < prefix.len() implies is_message(#[trigger] prefix[i])
                || prefix[i] is State by {
                assert(prefix[i] == events[i]);
            }
        }
        lemma_known_serials(ours, prefix, sender);
        lemma_oldest_of(prefix, sender);
    }
    if t.some_fault(ours, events) {
        let j = choose|j: int|
            0 <= j < events.len() && (#[trigger] t.fault_at(ours, events, j)) is Some;
        assert(is_message(events[j]) || events[j] is State);
        let prefix = events.take(j);
        let sender = sender_of(events[j]);
        lemma_oldest_of(prefix, sender);
        let i = oldest_of(prefix, sender);
        assert(prefix[i] == events[i]);
        assert forall|k: int| i < k < j implies !(is_message(#[trigger] events[k]) && sender_of(
            events[k],
        ) == sender) by {
            assert(prefix[k] == events[k]);
        }
        assert(neighbours(events, i, j));
    }
    if has_gap(events) {
        let (i, j) = choose|i: int, j: int| #[trigger]
            neighbours(events, i, j) && serial_of(events[j]) + 1 != serial_of(events[i]);
        lemma_neighbour_is_oldest(events, i, j);
        assert(is_message(events[j]));
        assert(t.fault_at(ours, events, j) is Some);
    }
}

proof fn lemma_neighbour_is_oldest(events: Seq<PageEvent>, i: int, j: int)
    requires
        neighbours(events, i, j),
    ensures
        oldest_of(events.take(j), sender_of(events[j])) == i,
{
    let prefix = events.take(j);
    let sender = sender_of(events[j]);
    lemma_oldest_of(prefix, sender);
    let o = oldest_of(prefix, sender);
    if o > i {
        assert(prefix[o] == events[o]);
    }
    if o < i {
        assert(prefix[i] == events[i]);
    }
}

/// Position of our newest message, or the number of events.
pub open spec fn newest_own(events: Seq<PageEvent>, ours: Seq<char>) -> int
    decreases events.len(),
{
    if events.len() == 0 {
        0
    } else {
        let earlier = newest_own(events.drop_last(), ours);
        if earlier < events.len() - 1 {
            earlier
        } else if is_message(events.last()) && sender_of(events.last()) == ours {
            events.len() - 1
        } else {
            events.len() as int
        }
    }
}

/// Of a history of sound messages, our newest message tells our next serial
/// number: the one after it.
pub proof fn resumes_after_newest(ours: Seq<char>, events: Seq<PageEvent>)
    requires
        all_sound(events),
    ensures
        0 <= newest_own(events, ours) <= events.len(),
        nothing_known().after_all(ours, events).next == (if newest_own(events, ours)
            < events.len() {
            Some(serial_after(serial_of(events[newest_own(events, ours)])))
        } else {
            None
        }),
    decreases events.len(),
{
    if events.len() > 0 {
        let front = events.drop_last();
        assert(all_sound(front)) by {
            assert forall|i: int| 0 <= i < front.len() implies is_message(#[trigger] front[i])
                || front[i] is State by {
                assert(front[i] == events[i]);
            }
        }
        resumes_after_newest(ours, front);
        assert(is_message(events.last()) || events.last() is State);
    }
}

/// Whether every sender has counted without gaps.
pub open spec fn counted_honestly(events: Seq<PageEvent>) -> bool {
    forall|i: int, j: int| #[trigger]
        neighbours(events, i, j) ==> serial_of(events[j]) + 1 == serial_of(events[i])
}

/// Whether `seen` is `event`, or `event` is a message and `seen` the same
/// message without its text.
pub open spec fn same_or_hidden(seen: PageEvent, event: PageEvent) -> bool {
    ||| seen == event
    ||| {
        &&& is_message(event)
        &&& seen matches PageEvent::Undecryptable { known_sender: Some(s) }
        &&& s@ == sender_of(event)
    }
}

/// Whether `seen` is `events` with some messages made undecryptable.
pub open spec fn partly_hidden(seen: Seq<PageEvent>, events: Seq<PageEvent>) -> bool {
    &&& seen.len() == events.len()
    &&& forall|i: int|
        #![trigger seen[i]]
        #![trigger events[i]]
        0 <= i < events.len() ==> same_or_hidden(seen[i], events[i])
}

proof fn lemma_hidden_serials(
    ours: Seq<char>,
    seen: Seq<PageEvent>,
    events: Seq<PageEvent>,
    sender: Seq<char>,
)
    requires
        all_sound(events),
        counted_honestly(events),
        partly_hidden(seen, events),
    ensures
        ({
            let known = nothing_known().after_all(ours, seen).known(sender);
            let o = oldest_of(events, sender);
            known is None || (o >= 0 && known == Some(serial_of(events[o])))
        }),
    decreases events.len(),
{
    if events.len() > 0 {
        let front = events.drop_last();
        let seen_front = seen.drop_last();
        assert forall|i: int| 0 <= i < front.len() implies is_message(#[trigger] front[i])
            || front[i] is State by {
            assert(front[i] == events[i]);
        }
        assert forall|i: int, j: int| #[trigger] neighbours(front, i, j) implies serial_of(front[j])
            + 1 == serial_of(front[i]) by {
            lemma_neighbours_in_prefix(events, front.len() as int, i, j);
        }
        assert(partly_hidden(seen_front, front)) by {
            assert forall|i: int|
                #![trigger seen_front[i]]
                #![trigger front[i]]
                0 <= i < front.len() implies same_or_hidden(seen_front[i], front[i]) by {
                assert(seen_front[i] == seen[i] && front[i] == events[i]);
            }
        }
        lemma_hidden_serials(ours, seen_front, front, sender);
        lemma_oldest_of(front, sender);
        let last = events.len() - 1;
        assert(seen[last] == seen.last() && events[last] == events.last());
        assert(is_message(events.last()) || events.last() is State);
        let o = oldest_of(front, sender);
        if is_message(events.last()) && sender_of(events.last()) == sender && o >= 0 {
            assert(front[o] == events[o]);
            assert forall|k: int| o < k < last implies !(is_message(#[trigger] events[k])
                && sender_of(events[k]) == sender) by {
                assert(front[k] == events[k]);
            }
            assert(neighbours(events, o, last));
        }
    }
}

proof fn lemma_neighbours_in_prefix(events: Seq<PageEvent>, n: int, i: int, j: int)
    requires
        0 <= n <= events.len(),
        neighbours(events.take(n), i, j),
    ensures
        neighbours(events, i, j),
{
    let prefix = events.take(n);
    assert(prefix[i] == events[i] && prefix[j] == events[j]);
    assert forall|k: int| i < k < j implies !(is_message(#[trigger] events[k]) && sender_of(
        events[k],
    ) == sender_of(events[j])) by {
        assert(prefix[k] == events[k]);
    }
}

/// Messages that cannot be decrypted are counted, so hiding any of them from
/// an honest history causes no fault.
pub proof fn hidden_messages_are_tolerated(
    ours: Seq<char>,
    seen: Seq<PageEvent>,
    events: Seq<PageEvent>,
)
    requires
        all_sound(events),
        counted_honestly(events),
        partly_hidden(seen, events),
    ensures
        !nothing_known().some_fault(ours, seen),
{
    let t = nothing_known();
    assert forall|j: int| 0 <= j < seen.len() implies (#[trigger] t.fault_at(
        ours,
        seen,
        j,
    )) is None by {
        let prefix = events.take(j);
        let seen_prefix = seen.take(j);
        assert(seen[j] == seen[j] && events[j] == events[j]);
        assert forall|i: int| 0 <= i < prefix.len() implies is_message(#[trigger] prefix[i])
            || prefix[i] is State by {
            assert(prefix[i] == events[i]);
        }
        assert forall|i: int, k: int| #[trigger] neighbours(prefix, i, k) implies serial_of(
            prefix[k],
        ) + 1 == serial_of(prefix[i]) by {
            lemma_neighbours_in_prefix(events, j, i, k);
        }
        assert(partly_hidden(seen_prefix, prefix)) by {
            assert forall|i: int|
                #![trigger seen_prefix[i]]
                #![trigger prefix[i]]
                0 <= i < prefix.len() implies same_or_hidden(seen_prefix[i], prefix[i]) by {
                assert(seen_prefix[i] == seen[i] && prefix[i] == events[i]);
            }
        }
        if is_message(seen[j]) {
            let sender = sender_of(seen[j]);
            lemma_hidden_serials(ours, seen_prefix, prefix, sender);
            lemma_oldest_of(prefix, sender);
            let o = oldest_of(prefix, sender);
            if o >= 0 {
                assert(prefix[o] == events[o]);
                assert forall|k: int| o < k < j implies !(is_message(#[trigger] events[k])
                    && sender_of(events[k]) == sender) by {
                    assert(prefix[k] == events[k]);
                }
                assert(neighbours(events, o, j));
            }
        } else {
            assert(is_message(events[j]) || events[j] is State);
        }
    }
}

} // verus!
