//! Which of a user's devices sends: the first one among those that are in use.
use crate::clock::clock_gives;
use crate::clock::readings_come_of_calls;
use crate::clock::since_epoch;
use crate::number::fixed_hex;
use crate::number::fixed_hex_chars;
use crate::number::hex_char;
use crate::number::lemma_fixed_hex_len;
use crate::number::lemma_pow_step;
use crate::text::chars_of;
use crate::text::text_of;
use crate::text::text_option;
use vstd::arithmetic::power::lemma_pow0;
use vstd::arithmetic::power::pow;
use vstd::prelude::*;

verus! {

// ── Order of texts ──────────────────────────────────────────────────────

/// Whether `a` comes before `b` when texts are compared code point by code
/// point.
pub open spec fn lex_less(a: Seq<char>, b: Seq<char>) -> bool
    decreases a.len(),
{
    if b.len() == 0 {
        false
    } else if a.len() == 0 {
        true
    } else if a[0] != b[0] {
        a[0] < b[0]
    } else {
        lex_less(a.drop_first(), b.drop_first())
    }
}

proof fn lemma_lex_transitive(a: Seq<char>, b: Seq<char>, c: Seq<char>)
    requires
        lex_less(a, b),
        lex_less(b, c),
    ensures
        lex_less(a, c),
    decreases a.len(),
{
    if a.len() > 0 && b.len() > 0 && c.len() > 0 && a[0] == b[0] && b[0] == c[0] {
        lemma_lex_transitive(a.drop_first(), b.drop_first(), c.drop_first());
    }
}

proof fn lemma_lex_total(a: Seq<char>, b: Seq<char>)
    requires
        !lex_less(a, b),
        !lex_less(b, a),
    ensures
        a == b,
    decreases a.len(),
{
    if a.len() > 0 && b.len() > 0 {
        assert(a[0] == b[0]);
        lemma_lex_total(a.drop_first(), b.drop_first());
        assert(a =~= seq![a[0]] + a.drop_first());
        assert(b =~= seq![b[0]] + b.drop_first());
    } else {
        assert(a =~= b);
    }
}

pub(crate) proof fn lemma_lex_irreflexive(a: Seq<char>)
    ensures
        !lex_less(a, a),
    decreases a.len(),
{
    if a.len() > 0 {
        lemma_lex_irreflexive(a.drop_first());
    }
}

proof fn lemma_lex_common(a: Seq<char>, b: Seq<char>, i: int)
    requires
        0 <= i <= a.len(),
        i <= b.len(),
        a.take(i) == b.take(i),
    ensures
        lex_less(a, b) == lex_less(a.skip(i), b.skip(i)),
    decreases i,
{
    if i == 0 {
        assert(a.skip(0) =~= a);
        assert(b.skip(0) =~= b);
    } else {
        assert(a[0] == a.take(i)[0] && b[0] == b.take(i)[0]);
        let x = a.drop_first();
        let y = b.drop_first();
        assert(x.take(i - 1) =~= a.take(i).drop_first());
        assert(y.take(i - 1) =~= b.take(i).drop_first());
        lemma_lex_common(x, y, i - 1);
        assert(x.skip(i - 1) =~= a.skip(i));
        assert(y.skip(i - 1) =~= b.skip(i));
    }
}

/// Whether the first text comes before the second.
pub fn text_less(a: &str, b: &str) -> (r: bool)
    ensures
        r == lex_less(a@, b@),
{
    let x = chars_of(a);
    let y = chars_of(b);
    let mut i: usize = 0;
    while i < x.len() && i < y.len() && x[i] == y[i]
        invariant
            i <= x@.len(),
            i <= y@.len(),
            x@.take(i as int) == y@.take(i as int),
        decreases x@.len() - i,
    {
        i = i + 1;
        assert(x@.take(i as int) =~= x@.take(i - 1).push(x@[i - 1]));
        assert(y@.take(i as int) =~= y@.take(i - 1).push(y@[i - 1]));
    }
    proof {
        lemma_lex_common(x@, y@, i as int);
    }
    if i == y.len() {
        false
    } else if i == x.len() {
        true
    } else {
        x[i] < y[i]
    }
}

// ── Devices ─────────────────────────────────────────────────────────────

/// A device of the user.
#[derive(Debug)]
pub struct Device {
    pub device_id: String,
    pub display_name: Option<String>,
    /// UNIX time in milliseconds at which the device was last seen.
    pub last_seen_ms: Option<u64>,
}

/// Whether one device comes before the other: by display name, without one
/// first, then by ID.
pub open spec fn comes_before(a: Device, b: Device) -> bool {
    match (a.display_name, b.display_name) {
        (None, Some(_)) => true,
        (Some(_), None) => false,
        (None, None) => lex_less(a.device_id@, b.device_id@),
        (Some(x), Some(y)) => if x@ == y@ {
            lex_less(a.device_id@, b.device_id@)
        } else {
            lex_less(x@, y@)
        },
    }
}

fn is_before(a: &Device, b: &Device) -> (r: bool)
    ensures
        r == comes_before(*a, *b),
{
    match (&a.display_name, &b.display_name) {
        (None, Some(_)) => true,
        (Some(_), None) => false,
        (None, None) => text_less(a.device_id.as_str(), b.device_id.as_str()),
        (Some(x), Some(y)) => if *x == *y {
            text_less(a.device_id.as_str(), b.device_id.as_str())
        } else {
            text_less(x.as_str(), y.as_str())
        },
    }
}

proof fn lemma_before_transitive(a: Device, b: Device, c: Device)
    requires
        comes_before(a, b),
        comes_before(b, c),
    ensures
        comes_before(a, c),
{
    if let (Some(x), Some(y), Some(z)) = (a.display_name, b.display_name, c.display_name) {
        if x@ == y@ && y@ == z@ {
            lemma_lex_transitive(a.device_id@, b.device_id@, c.device_id@);
        } else if x@ != y@ && y@ != z@ {
            lemma_lex_transitive(x@, y@, z@);
            lemma_lex_irreflexive(x@);
            if x@ == z@ {
                assert(false);
            }
        }
    } else if a.display_name is None && b.display_name is None && c.display_name is None {
        lemma_lex_transitive(a.device_id@, b.device_id@, c.device_id@);
    }
}

pub(crate) proof fn lemma_before_total(a: Device, b: Device)
    requires
        !comes_before(a, b),
        !comes_before(b, a),
    ensures
        a.device_id@ == b.device_id@,
{
    match (a.display_name, b.display_name) {
        (Some(x), Some(y)) => if x@ == y@ {
            lemma_lex_total(a.device_id@, b.device_id@);
        } else {
            lemma_lex_total(x@, y@);
        },
        _ => {
            lemma_lex_total(a.device_id@, b.device_id@);
        },
    }
}

/// Nanoseconds since the epoch at a clock reading.
pub open spec fn nanos_at(secs: u64, nanos: u32) -> int {
    secs * 1_000_000_000 + nanos
}

/// Whether a device that was last seen at `last_seen_ms` was seen more than
/// `timeout` seconds ago. A device of which nothing is known is not stale, nor
/// is any while the clock stands before the epoch.
pub open spec fn is_stale_at(
    last_seen_ms: Option<u64>,
    now: Option<(u64, u32)>,
    timeout: u64,
) -> bool {
    match (last_seen_ms, now) {
        (Some(ms), Some((secs, nanos))) => nanos_at(secs, nanos) - ms * 1_000_000 > timeout
            * 1_000_000_000,
        _ => false,
    }
}

/// Whether a device has not been seen for longer than the timeout.
pub fn is_stale(last_seen_ms: Option<u64>, now: Option<(u64, u32)>, timeout: u64) -> (r: bool)
    ensures
        r == is_stale_at(last_seen_ms, now, timeout),
{
    match (last_seen_ms, now) {
        (Some(ms), Some((secs, nanos))) => {
            let at: u128 = secs as u128 * 1_000_000_000 + nanos as u128;
            let limit: u128 = ms as u128 * 1_000_000 + timeout as u128 * 1_000_000_000;
            at > limit
        },
        _ => false,
    }
}

/// Whether a device is to be deleted: it is not ours, and it is stale.
pub open spec fn to_delete(
    device: Device,
    ours: Option<Seq<char>>,
    now: Option<(u64, u32)>,
    timeout: u64,
) -> bool {
    ours != Some(device.device_id@) && is_stale_at(device.last_seen_ms, now, timeout)
}

/// The IDs of the devices to delete, in order.
pub open spec fn stale_ids(
    devices: Seq<Device>,
    ours: Option<Seq<char>>,
    now: Option<(u64, u32)>,
    timeout: u64,
) -> Seq<Seq<char>>
    decreases devices.len(),
{
    if devices.len() == 0 {
        Seq::empty()
    } else {
        let before = stale_ids(devices.drop_last(), ours, now, timeout);
        if to_delete(devices.last(), ours, now, timeout) {
            before.push(devices.last().device_id@)
        } else {
            before
        }
    }
}

fn is_ours(device: &Device, ours: &Option<String>) -> (r: bool)
    ensures
        r == (text_option(*ours) == Some(device.device_id@)),
{
    match ours {
        Some(id) => *id == device.device_id,
        None => false,
    }
}

/// The IDs of the devices that are stale and not ours.
pub fn stale_device_ids(
    devices: &Vec<Device>,
    ours: &Option<String>,
    now: Option<(u64, u32)>,
    timeout: u64,
) -> (r: Vec<String>)
    ensures
        r.deep_view() == stale_ids(devices@, text_option(*ours), now, timeout),
{
    let ghost our_id = text_option(*ours);
    let mut out: Vec<String> = Vec::new();
    let mut i: usize = 0;
    assert(devices@.take(0) =~= Seq::<Device>::empty());
    assert(out.deep_view() =~= Seq::<Seq<char>>::empty());
    while i < devices.len()
        invariant
            i <= devices@.len(),
            our_id == text_option(*ours),
            out.deep_view() == stale_ids(devices@.take(i as int), our_id, now, timeout),
        decreases devices@.len() - i,
    {
        let device = &devices[i];
        let ghost before = out.deep_view();
        if !is_ours(device, ours) && is_stale(device.last_seen_ms, now, timeout) {
            out.push(device.device_id.clone());
            assert(out.deep_view() =~= before.push(device.device_id@));
        }
        i = i + 1;
        assert(devices@.take(i as int).drop_last() =~= devices@.take(i - 1));
        assert(devices@.take(i as int).last() == devices@[i - 1]);
    }
    assert(devices@.take(devices@.len() as int) =~= devices@);
    out
}

// ── Election ────────────────────────────────────────────────────────────

/// Whether the device at `i` takes part: its ID is not among the stale ones.
pub open spec fn takes_part(devices: Seq<Device>, stale: Seq<Seq<char>>, i: int) -> bool {
    0 <= i < devices.len() && !stale.contains(devices[i].device_id@)
}

/// Whether the device at `i` takes part and none that takes part comes before
/// it.
pub open spec fn is_first_at(devices: Seq<Device>, stale: Seq<Seq<char>>, i: int) -> bool {
    takes_part(devices, stale, i) && forall|j: int| #[trigger]
        takes_part(devices, stale, j) ==> !comes_before(devices[j], devices[i])
}

/// Whether the device with the given ID is the first one.
pub open spec fn is_first(devices: Seq<Device>, stale: Seq<Seq<char>>, id: Seq<char>) -> bool {
    exists|i: int| #[trigger] is_first_at(devices, stale, i) && devices[i].device_id@ == id
}

fn holds(ids: &Vec<String>, id: &String) -> (r: bool)
    ensures
        r == ids.deep_view().contains(id@),
{
    let ghost texts = ids.deep_view();
    let mut i: usize = 0;
    while i < ids.len()
        invariant
            i <= ids@.len(),
            texts == ids.deep_view(),
            forall|k: int| 0 <= k < i ==> #[trigger] texts[k] != id@,
        decreases ids@.len() - i,
    {
        assert(texts[i as int] == ids@[i as int]@);
        if ids[i] == *id {
            assert(texts.contains(id@));
            return true;
        }
        i = i + 1;
    }
    false
}

/// Whether our device is the first one among those that are not stale.
pub fn is_first_device(
    devices: &Vec<Device>,
    stale: &Vec<String>,
    ours: &Option<String>,
) -> (r: bool)
    ensures
        r == (ours matches Some(id) && is_first(devices@, stale.deep_view(), id@)),
{
    let ghost ids = stale.deep_view();
    let mut best: Option<usize> = None;
    let mut i: usize = 0;
    while i < devices.len()
        invariant
            i <= devices@.len(),
            ids == stale.deep_view(),
            best matches Some(b) ==> b < i && takes_part(devices@, ids, b as int),
            best matches Some(b) ==> forall|j: int|
                j < i && #[trigger] takes_part(devices@, ids, j) ==> !comes_before(
                    devices@[j],
                    devices@[b as int],
                ),
            best is None ==> forall|j: int| j < i ==> !#[trigger] takes_part(devices@, ids, j),
        decreases devices@.len() - i,
    {
        if !holds(stale, &devices[i].device_id) {
            assert(takes_part(devices@, ids, i as int));
            match best {
                None => {
                    proof {
                        lemma_before_irreflexive(devices@[i as int]);
                    }
                    best = Some(i);
                },
                Some(b) => {
                    if is_before(&devices[i], &devices[b]) {
                        proof {
                            lemma_before_irreflexive(devices@[i as int]);
                            assert forall|j: int|
                                j < i + 1 && #[trigger] takes_part(
                                    devices@,
                                    ids,
                                    j,
                                ) implies !comes_before(devices@[j], devices@[i as int]) by {
                                if j < i && comes_before(devices@[j], devices@[i as int]) {
                                    lemma_before_transitive(
                                        devices@[j],
                                        devices@[i as int],
                                        devices@[b as int],
                                    );
                                }
                            }
                        }
                        best = Some(i);
                    }
                },
            }
        }
        i = i + 1;
    }
    match (ours, best) {
        (Some(id), Some(b)) => {
            proof {
                assert(is_first_at(devices@, ids, b as int));
                if is_first(devices@, ids, id@) {
                    first_is_unique(devices@, ids, id@, devices@[b as int].device_id@);
                }
            }
            devices[b].device_id == *id
        },
        _ => {
            proof {
                if let Some(id) = ours {
                    if is_first(devices@, ids, id@) {
                        let k = choose|k: int| #[trigger]
                            is_first_at(devices@, ids, k) && devices@[k].device_id@ == id@;
                        assert(takes_part(devices@, ids, k));
                    }
                }
            }
            false
        },
    }
}

pub(crate) proof fn lemma_before_irreflexive(a: Device)
    ensures
        !comes_before(a, a),
{
    lemma_lex_irreflexive(a.device_id@);
}

/// Of the devices that take part at most one is the first.
pub proof fn first_is_unique(
    devices: Seq<Device>,
    stale: Seq<Seq<char>>,
    a: Seq<char>,
    b: Seq<char>,
)
    requires
        is_first(devices, stale, a),
        is_first(devices, stale, b),
    ensures
        a == b,
{
    let i = choose|i: int| #[trigger]
        is_first_at(devices, stale, i) && devices[i].device_id@ == a;
    let j = choose|j: int| #[trigger]
        is_first_at(devices, stale, j) && devices[j].device_id@ == b;
    assert(takes_part(devices, stale, i) && takes_part(devices, stale, j));
    lemma_before_total(devices[i], devices[j]);
}

/// Two clients that see the same devices, neither of them stale itself, delete
/// the same ones, provided that their clocks tell the same devices stale.
pub proof fn fresh_clients_agree(
    devices: Seq<Device>,
    a: Seq<char>,
    a_now: Option<(u64, u32)>,
    b: Seq<char>,
    b_now: Option<(u64, u32)>,
    timeout: u64,
)
    requires
        forall|i: int|
            0 <= i < devices.len() ==> is_stale_at(
                (#[trigger] devices[i]).last_seen_ms,
                a_now,
                timeout,
            ) == is_stale_at(devices[i].last_seen_ms, b_now, timeout),
        forall|i: int|
            0 <= i < devices.len() && ((#[trigger] devices[i]).device_id@ == a
                || devices[i].device_id@ == b) ==> !is_stale_at(
                devices[i].last_seen_ms,
                a_now,
                timeout,
            ),
    ensures
        stale_ids(devices, Some(a), a_now, timeout) == stale_ids(devices, Some(b), b_now, timeout),
    decreases devices.len(),
{
    if devices.len() > 0 {
        let front = devices.drop_last();
        assert forall|i: int| 0 <= i < front.len() implies is_stale_at(
            (#[trigger] front[i]).last_seen_ms,
            a_now,
            timeout,
        ) == is_stale_at(front[i].last_seen_ms, b_now, timeout) by {
            assert(front[i] == devices[i]);
        }
        assert forall|i: int|
            0 <= i < front.len() && ((#[trigger] front[i]).device_id@ == a || front[i].device_id@
                == b) implies !is_stale_at(front[i].last_seen_ms, a_now, timeout) by {
            assert(front[i] == devices[i]);
        }
        fresh_clients_agree(front, a, a_now, b, b_now, timeout);
        assert(devices[devices.len() - 1] == devices.last());
    }
}

/// Of two such clients at most one finds itself first, so that no two of them
/// send.
pub proof fn fresh_clients_do_not_both_send(
    devices: Seq<Device>,
    a: Seq<char>,
    a_now: Option<(u64, u32)>,
    b: Seq<char>,
    b_now: Option<(u64, u32)>,
    timeout: u64,
)
    requires
        forall|i: int|
            0 <= i < devices.len() ==> is_stale_at(
                (#[trigger] devices[i]).last_seen_ms,
                a_now,
                timeout,
            ) == is_stale_at(devices[i].last_seen_ms, b_now, timeout),
        forall|i: int|
            0 <= i < devices.len() && ((#[trigger] devices[i]).device_id@ == a
                || devices[i].device_id@ == b) ==> !is_stale_at(
                devices[i].last_seen_ms,
                a_now,
                timeout,
            ),
        is_first(devices, stale_ids(devices, Some(a), a_now, timeout), a),
        is_first(devices, stale_ids(devices, Some(b), b_now, timeout), b),
    ensures
        a == b,
{
    fresh_clients_agree(devices, a, a_now, b, b_now, timeout);
    first_is_unique(devices, stale_ids(devices, Some(a), a_now, timeout), a, b);
}

/// As long as some device takes part, one of them is the first: when the first
/// one goes, another takes its place.
pub proof fn some_device_is_first(devices: Seq<Device>, stale: Seq<Seq<char>>, some: int)
    requires
        takes_part(devices, stale, some),
    ensures
        exists|i: int| #[trigger] is_first_at(devices, stale, i),
{
    let b = lemma_first_of_prefix(devices, stale, devices.len() as int, some);
    assert(is_first_at(devices, stale, b));
}

/// Whether the device at `b` takes part and none of the first `n` that takes
/// part comes before it.
spec fn leads(devices: Seq<Device>, stale: Seq<Seq<char>>, n: int, b: int) -> bool {
    takes_part(devices, stale, b) && forall|j: int|
        j < n && #[trigger] takes_part(devices, stale, j) ==> !comes_before(devices[j], devices[b])
}

proof fn lemma_first_of_prefix(
    devices: Seq<Device>,
    stale: Seq<Seq<char>>,
    n: int,
    some: int,
) -> (b: int)
    requires
        0 <= n <= devices.len(),
        takes_part(devices, stale, some),
    ensures
        leads(devices, stale, n, b),
    decreases n,
{
    if n == 0 {
        some
    } else {
        let last = n - 1;
        let b = lemma_first_of_prefix(devices, stale, last, some);
        if takes_part(devices, stale, last) && comes_before(devices[last], devices[b]) {
            lemma_before_irreflexive(devices[last]);
            assert forall|j: int|
                j < n && #[trigger] takes_part(devices, stale, j) implies !comes_before(
                devices[j],
                devices[last],
            ) by {
                if j < last && comes_before(devices[j], devices[last]) {
                    lemma_before_transitive(devices[j], devices[last], devices[b]);
                }
            }
            last
        } else {
            assert forall|j: int|
                j < n && #[trigger] takes_part(devices, stale, j) implies !comes_before(
                devices[j],
                devices[b],
            ) by {
                assert(j == last || j < last);
            }
            b
        }
    }
}

// ── Display names ───────────────────────────────────────────────────────

/// The number of hexadecimal digits in a display name.
pub const NAME_WIDTH: usize = 11;

/// The display name of a device that logs in at the given UNIX time in
/// milliseconds, if the time fits the digits of a name.
pub fn device_name(now_ms: u64) -> (r: Option<String>)
    ensures
        match r {
            Some(name) => now_ms < 0x1000_0000_0000 && name@ == fixed_hex(
                now_ms as nat,
                NAME_WIDTH as nat,
            ) && name@.len() == NAME_WIDTH,
            None => now_ms >= 0x1000_0000_0000,
        },
{
    if now_ms >= 0x1000_0000_0000 {
        return None;
    }
    proof {
        lemma_fixed_hex_len(now_ms as nat, NAME_WIDTH as nat);
    }
    Some(text_of(&fixed_hex_chars(now_ms, NAME_WIDTH)))
}

proof fn lemma_lex_push(a: Seq<char>, b: Seq<char>, x: char, y: char)
    requires
        a.len() == b.len(),
    ensures
        lex_less(a.push(x), b.push(y)) == (if a == b {
            x < y
        } else {
            lex_less(a, b)
        }),
    decreases a.len(),
{
    if a.len() == 0 {
        assert(a =~= b);
        assert(a.push(x).drop_first() =~= Seq::<char>::empty());
        assert(b.push(y).drop_first() =~= Seq::<char>::empty());
        assert(a.push(x)[0] == x && b.push(y)[0] == y);
        assert(!lex_less(Seq::<char>::empty(), Seq::<char>::empty()));
        assert(lex_less(a.push(x), b.push(y)) == (x < y));
    } else {
        assert(a.push(x)[0] == a[0] && b.push(y)[0] == b[0]);
        assert(a.push(x).drop_first() =~= a.drop_first().push(x));
        assert(b.push(y).drop_first() =~= b.drop_first().push(y));
        lemma_lex_push(a.drop_first(), b.drop_first(), x, y);
        if a[0] == b[0] {
            assert(lex_less(a.push(x), b.push(y)) == lex_less(
                a.drop_first().push(x),
                b.drop_first().push(y),
            ));
            if a.drop_first() == b.drop_first() {
                assert(a =~= seq![a[0]] + a.drop_first());
                assert(b =~= seq![b[0]] + b.drop_first());
                assert(a == b);
            } else {
                assert(a != b);
            }
        } else {
            assert(a != b);
        }
    }
}

proof fn lemma_hex_order(m: nat, n: nat, width: nat)
    requires
        m < n < pow(16, width),
    ensures
        lex_less(fixed_hex(m, width), fixed_hex(n, width)),
    decreases width,
{
    if width == 0 {
        lemma_pow0(16);
    } else {
        let w = (width - 1) as nat;
        lemma_pow_step(w);
        lemma_fixed_hex_len(m / 16, w);
        lemma_fixed_hex_len(n / 16, w);
        let a = fixed_hex(m / 16, w);
        let b = fixed_hex(n / 16, w);
        lemma_lex_push(a, b, hex_char(m % 16), hex_char(n % 16));
        if m / 16 < n / 16 {
            lemma_hex_order(m / 16, n / 16, w);
            lemma_lex_irreflexive(a);
        } else {
            assert(m / 16 == n / 16);
            assert(m % 16 < n % 16);
        }
    }
}

pub(crate) proof fn lemma_name_range()
    ensures
        pow(16, 11) == 0x1000_0000_0000,
{
    lemma_pow0(16);
    lemma_pow_step(0);
    lemma_pow_step(1);
    lemma_pow_step(2);
    lemma_pow_step(3);
    lemma_pow_step(4);
    lemma_pow_step(5);
    lemma_pow_step(6);
    lemma_pow_step(7);
    lemma_pow_step(8);
    lemma_pow_step(9);
    lemma_pow_step(10);
}

/// Devices come in the order of their logins: the one that logged in earlier
/// comes before the other.
pub proof fn earlier_login_comes_first(a: Device, a_ms: u64, b: Device, b_ms: u64)
    requires
        a_ms < b_ms < 0x1000_0000_0000,
        a.display_name matches Some(name) && name@ == fixed_hex(a_ms as nat, NAME_WIDTH as nat),
        b.display_name matches Some(name) && name@ == fixed_hex(b_ms as nat, NAME_WIDTH as nat),
    ensures
        comes_before(a, b),
        !comes_before(b, a),
{
    lemma_name_range();
    lemma_hex_order(a_ms as nat, b_ms as nat, NAME_WIDTH as nat);
    let x = fixed_hex(a_ms as nat, NAME_WIDTH as nat);
    let y = fixed_hex(b_ms as nat, NAME_WIDTH as nat);
    lemma_lex_irreflexive(x);
    if lex_less(y, x) {
        lemma_lex_transitive(x, y, x);
    }
}

/// Where all devices that take part are named by the times of their logins, the
/// first one is one that logged in earliest.
pub proof fn first_logged_in_earliest(
    devices: Seq<Device>,
    stale: Seq<Seq<char>>,
    times: Seq<u64>,
    first: int,
    other: int,
)
    requires
        times.len() == devices.len(),
        forall|i: int| #[trigger]
            takes_part(devices, stale, i) ==> times[i] < 0x1000_0000_0000 && (
            devices[i].display_name matches Some(name) && name@ == fixed_hex(
                times[i] as nat,
                NAME_WIDTH as nat,
            )),
        is_first_at(devices, stale, first),
        takes_part(devices, stale, other),
    ensures
        times[first] <= times[other],
{
    assert(takes_part(devices, stale, first));
    if times[other] < times[first] {
        earlier_login_comes_first(devices[other], times[other], devices[first], times[first]);
    }
}

// ── Deletion ────────────────────────────────────────────────────────────

/// The IDs of the devices that are stale now and not ours: those that are stale
/// at a reading that the clock gives.
pub fn stale_device_ids_now(devices: &Vec<Device>, ours: &Option<String>, timeout: u64) -> (r: Vec<
    String,
>)
    ensures
        exists|now: Option<(u64, u32)>| #[trigger]
            clock_gives(now) && r.deep_view() == stale_ids(
                devices@,
                text_option(*ours),
                now,
                timeout,
            ),
{
    let now = since_epoch();
    proof {
        readings_come_of_calls(now);
    }
    stale_device_ids(devices, ours, now, timeout)
}

/// Whether a request to delete devices is to be made: there are some.
pub fn needs_delete(stale: &Vec<String>) -> (r: bool)
    ensures
        r == (stale@.len() > 0),
{
    stale.len() > 0
}

/// The reply to a request that deletes devices.
#[derive(Debug)]
pub enum DeleteReply {
    Deleted,
    /// The server asks for interactive authentication.
    Challenged { session: Option<String> },
    Failed,
}

/// What follows the reply.
#[derive(Debug)]
pub enum AfterDelete {
    /// The devices are gone.
    Done,
    /// Ask again, with a password in the session of the challenge.
    Retry { user: String, password: String, session: Option<String> },
    /// A password is asked for, and there is none.
    NoPassword,
    /// The devices stay.
    Failed,
}

/// What follows the reply to a first request, which carries no authentication.
pub fn after_delete(reply: DeleteReply, username: &str, password: &Option<String>) -> (r:
    AfterDelete)
    ensures
        match reply {
            DeleteReply::Deleted => r is Done,
            DeleteReply::Failed => r is Failed,
            DeleteReply::Challenged { session } => match *password {
                None => r is NoPassword,
                Some(secret) => {
                    &&& r matches AfterDelete::Retry { user, password: p, session: s }
                    &&& user@ == username@
                    &&& p@ == secret@
                    &&& s == session
                },
            },
        },
{
    match reply {
        DeleteReply::Deleted => AfterDelete::Done,
        DeleteReply::Failed => AfterDelete::Failed,
        DeleteReply::Challenged { session } => match password {
            None => AfterDelete::NoPassword,
            Some(secret) => AfterDelete::Retry {
                user: username.to_owned(),
                password: secret.clone(),
                session,
            },
        },
    }
}

/// Our own device is never deleted, whatever the clock says.
pub proof fn own_device_stays(
    devices: Seq<Device>,
    ours: Seq<char>,
    now: Option<(u64, u32)>,
    timeout: u64,
)
    ensures
        !stale_ids(devices, Some(ours), now, timeout).contains(ours),
    decreases devices.len(),
{
    if devices.len() > 0 {
        own_device_stays(devices.drop_last(), ours, now, timeout);
        let before = stale_ids(devices.drop_last(), Some(ours), now, timeout);
        let all = stale_ids(devices, Some(ours), now, timeout);
        if all.contains(ours) {
            let i = choose|i: int| 0 <= i < all.len() && all[i] == ours;
            if i < before.len() {
                assert(before[i] == ours);
            }
        }
    }
}

} // verus!
