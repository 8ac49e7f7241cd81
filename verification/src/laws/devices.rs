//! Which of a user's devices are in use, and which of them sends.
use crate::clock::clock_gives;
use crate::devices::after_delete;
use crate::devices::comes_before;
use crate::devices::device_name;
use crate::devices::earlier_login_comes_first;
use crate::devices::is_first;
use crate::devices::is_first_at;
use crate::devices::is_first_device;
use crate::devices::is_stale;
use crate::devices::lemma_before_irreflexive;
use crate::devices::lemma_before_total;
use crate::devices::lemma_lex_irreflexive;
use crate::devices::lemma_name_range;
use crate::devices::lex_less;
use crate::devices::needs_delete;
use crate::devices::stale_device_ids;
use crate::devices::stale_device_ids_now;
use crate::devices::stale_ids;
use crate::devices::takes_part;
use crate::devices::text_less;
use crate::devices::AfterDelete;
use crate::devices::DeleteReply;
use crate::devices::Device;
use crate::number::fixed_hex;
use crate::number::hex_char;
use crate::number::lemma_pow_step;
use crate::text::text_option;
use vstd::arithmetic::power::lemma_pow0;
use vstd::arithmetic::power::pow;
use vstd::prelude::*;

verus! {

// ── Stale devices ───────────────────────────────────────────────────────

/// Whether a device was seen before the clock reading by more than the timeout
/// in seconds.
pub open spec fn unseen_for(
    last_seen_ms: Option<u64>,
    now: Option<(u64, u32)>,
    timeout: u64,
) -> bool {
    match (last_seen_ms, now) {
        (Some(ms), Some((secs, nanos))) => ms * 1_000_000 + timeout * 1_000_000_000 < secs
            * 1_000_000_000 + nanos,
        _ => false,
    }
}

/// A device is stale if and only if it was last seen longer ago than the
/// timeout. One that was never seen is not, nor is any before the epoch.
pub proof fn staleness_is_a_matter_of_time(
    last_seen_ms: Option<u64>,
    now: Option<(u64, u32)>,
    timeout: u64,
    r: bool,
)
    requires
        call_ensures(is_stale, (last_seen_ms, now, timeout), r),
    ensures
        r <==> unseen_for(last_seen_ms, now, timeout),
{
}

/// Whether the ID is that of a device which is not ours and is stale.
pub open spec fn is_others_stale(
    devices: Seq<Device>,
    ours: Option<Seq<char>>,
    now: Option<(u64, u32)>,
    timeout: u64,
    id: Seq<char>,
) -> bool {
    ours != Some(id) && exists|i: int|
        0 <= i < devices.len() && (#[trigger] devices[i]).device_id@ == id && unseen_for(
            devices[i].last_seen_ms,
            now,
            timeout,
        )
}

proof fn lemma_stale_ids(
    devices: Seq<Device>,
    ours: Option<Seq<char>>,
    now: Option<(u64, u32)>,
    timeout: u64,
    id: Seq<char>,
)
    ensures
        stale_ids(devices, ours, now, timeout).contains(id) <==> is_others_stale(
            devices,
            ours,
            now,
            timeout,
            id,
        ),
    decreases devices.len(),
{
    let all = stale_ids(devices, ours, now, timeout);
    if devices.len() > 0 {
        let front = devices.drop_last();
        let last = devices.last();
        let before = stale_ids(front, ours, now, timeout);
        lemma_stale_ids(front, ours, now, timeout, id);
        assert(devices[devices.len() - 1] == last);
        if all.contains(id) {
            let k = choose|k: int| 0 <= k < all.len() && all[k] == id;
            if k < before.len() {
                assert(before[k] == id);
                assert(before.contains(id));
                let i = choose|i: int|
                    0 <= i < front.len() && (#[trigger] front[i]).device_id@ == id && unseen_for(
                        front[i].last_seen_ms,
                        now,
                        timeout,
                    );
                assert(devices[i] == front[i]);
            }
        }
        if is_others_stale(devices, ours, now, timeout, id) {
            let i = choose|i: int|
                0 <= i < devices.len() && (#[trigger] devices[i]).device_id@ == id && unseen_for(
                    devices[i].last_seen_ms,
                    now,
                    timeout,
                );
            if i < front.len() {
                assert(front[i] == devices[i]);
                assert(before.contains(id));
                let k = choose|k: int| 0 <= k < before.len() && before[k] == id;
                assert(all[k] == id);
            } else {
                assert(all[before.len() as int] == id);
            }
        }
    }
}

/// The devices to delete are exactly the stale ones that are not ours.
pub proof fn others_stale_devices_go(
    devices: &Vec<Device>,
    ours: &Option<String>,
    now: Option<(u64, u32)>,
    timeout: u64,
    r: Vec<String>,
    id: Seq<char>,
)
    requires
        call_ensures(stale_device_ids, (devices, ours, now, timeout), r),
    ensures
        r.deep_view().contains(id) <==> is_others_stale(
            devices@,
            match *ours {
                Some(text) => Some(text@),
                None => None,
            },
            now,
            timeout,
            id,
        ),
{
    lemma_stale_ids(devices@, text_option(*ours), now, timeout, id);
}

/// The devices to delete come in the order of the list, each as often as it is
/// there: one more device in the list is one more to delete, behind the others,
/// or changes nothing.
pub proof fn stale_devices_keep_their_order(
    devices: &Vec<Device>,
    longer: &Vec<Device>,
    last: Device,
    ours: &Option<String>,
    now: Option<(u64, u32)>,
    timeout: u64,
    r: Vec<String>,
    s: Vec<String>,
)
    requires
        longer@ == devices@.push(last),
        call_ensures(stale_device_ids, (devices, ours, now, timeout), r),
        call_ensures(stale_device_ids, (longer, ours, now, timeout), s),
    ensures
        devices@.len() == 0 ==> r.deep_view() == Seq::<Seq<char>>::empty(),
        s.deep_view() == (if unseen_for(last.last_seen_ms, now, timeout) && !(*ours matches Some(
            id,
        ) && id@ == last.device_id@) {
            r.deep_view().push(last.device_id@)
        } else {
            r.deep_view()
        }),
{
    assert(longer@.drop_last() =~= devices@);
    assert(longer@.last() == last);
}

/// The devices to delete now are those that are stale at a reading that the
/// clock gives.
pub proof fn stale_now_is_by_the_clock(
    devices: &Vec<Device>,
    ours: &Option<String>,
    timeout: u64,
    r: Vec<String>,
)
    requires
        call_ensures(stale_device_ids_now, (devices, ours, timeout), r),
    ensures
        exists|now: Option<(u64, u32)>| #[trigger]
            clock_gives(now) && forall|id: Seq<char>| #[trigger]
                r.deep_view().contains(id) <==> is_others_stale(
                    devices@,
                    match *ours {
                        Some(text) => Some(text@),
                        None => None,
                    },
                    now,
                    timeout,
                    id,
                ),
{
    let now = choose|now: Option<(u64, u32)>| #[trigger]
        clock_gives(now) && r.deep_view() == stale_ids(
            devices@,
            text_option(*ours),
            now,
            timeout,
        );
    assert(clock_gives(now));
    assert forall|id: Seq<char>| #[trigger] r.deep_view().contains(id) <==> is_others_stale(
        devices@,
        match *ours {
            Some(text) => Some(text@),
            None => None,
        },
        now,
        timeout,
        id,
    ) by {
        lemma_stale_ids(devices@, text_option(*ours), now, timeout, id);
    }
}

/// A request to delete is made if and only if there is a device to delete.
pub proof fn nothing_stale_needs_no_request(stale: &Vec<String>, r: bool)
    requires
        call_ensures(needs_delete, (stale,), r),
    ensures
        r <==> stale@ != Seq::<String>::empty(),
{
    assert(stale@.len() == 0 ==> stale@ =~= Seq::<String>::empty());
}

/// A challenge is answered with the user's password in its own session, if there
/// is a password; success and failure end the matter.
pub proof fn challenges_are_answered(
    reply: DeleteReply,
    username: &str,
    password: &Option<String>,
    r: AfterDelete,
)
    requires
        call_ensures(after_delete, (reply, username, password), r),
    ensures
        r is Done <==> reply is Deleted,
        r is Failed <==> reply is Failed,
        r is NoPassword <==> reply is Challenged && *password is None,
        r is Retry <==> reply is Challenged && *password is Some,
        r matches AfterDelete::Retry { user, password: secret, session } ==> user@ == username@
            && secret@ == password->0@ && reply == (DeleteReply::Challenged { session }),
{
}

// ── Order ───────────────────────────────────────────────────────────────

/// Whether `a` comes before `b` in the order of dictionaries: they agree up to a
/// position at which `a` ends or has the smaller character.
pub open spec fn precedes(a: Seq<char>, b: Seq<char>) -> bool {
    exists|k: int| #[trigger] parts_at(a, b, k)
}

/// Whether `a` and `b` part at position `k`, where `a` is the smaller.
pub open spec fn parts_at(a: Seq<char>, b: Seq<char>, k: int) -> bool {
    &&& 0 <= k <= a.len()
    &&& k < b.len()
    &&& forall|i: int| 0 <= i < k ==> a[i] == b[i]
    &&& k < a.len() ==> a[k] < b[k]
}

proof fn lemma_precedes(a: Seq<char>, b: Seq<char>)
    ensures
        lex_less(a, b) <==> precedes(a, b),
    decreases a.len(),
{
    if b.len() == 0 {
        assert forall|k: int| !#[trigger] parts_at(a, b, k) by {}
    } else if a.len() == 0 {
        assert(parts_at(a, b, 0));
    } else if a[0] != b[0] {
        if a[0] < b[0] {
            assert(parts_at(a, b, 0));
        } else {
            assert forall|k: int| !#[trigger] parts_at(a, b, k) by {
                if parts_at(a, b, k) && k > 0 {
                    assert(a[0] == b[0]);
                }
            }
        }
    } else {
        let (c, d) = (a.drop_first(), b.drop_first());
        lemma_precedes(c, d);
        if precedes(c, d) {
            let k = choose|k: int| #[trigger] parts_at(c, d, k);
            assert(parts_at(a, b, k + 1)) by {
                assert forall|i: int| 0 <= i < k + 1 implies a[i] == b[i] by {
                    if i > 0 {
                        assert(c[i - 1] == d[i - 1]);
                    }
                }
            }
        }
        if precedes(a, b) {
            let k = choose|k: int| #[trigger] parts_at(a, b, k);
            assert(parts_at(c, d, k - 1)) by {
                assert forall|i: int| 0 <= i < k - 1 implies c[i] == d[i] by {
                    assert(a[i + 1] == b[i + 1]);
                }
            }
        }
    }
}

/// Texts are compared in the order of dictionaries.
pub proof fn texts_have_dictionary_order(a: &str, b: &str, r: bool)
    requires
        call_ensures(text_less, (a, b), r),
    ensures
        r <==> precedes(a@, b@),
{
    lemma_precedes(a@, b@);
}

// ── Election ────────────────────────────────────────────────────────────

/// Whether a device goes before another: by display name, one without a name
/// first, and by ID where the names are the same.
pub open spec fn outranks(a: Device, b: Device) -> bool {
    match (a.display_name, b.display_name) {
        (None, Some(_)) => true,
        (Some(_), None) => false,
        (None, None) => precedes(a.device_id@, b.device_id@),
        (Some(x), Some(y)) => precedes(x@, y@) || (x@ == y@ && precedes(
            a.device_id@,
            b.device_id@,
        )),
    }
}

proof fn lemma_outranks(a: Device, b: Device)
    ensures
        comes_before(a, b) <==> outranks(a, b),
{
    lemma_precedes(a.device_id@, b.device_id@);
    if let (Some(x), Some(y)) = (a.display_name, b.display_name) {
        lemma_precedes(x@, y@);
        if x@ == y@ {
            lemma_lex_irreflexive(x@);
        }
    }
}

/// Our device is the first one if and only if it is in the list, is not stale,
/// and goes before every other device that is not stale.
pub proof fn first_device_outranks_all(
    devices: &Vec<Device>,
    stale: &Vec<String>,
    ours: &Option<String>,
    r: bool,
)
    requires
        call_ensures(is_first_device, (devices, stale, ours), r),
        forall|i: int, j: int|
            0 <= i < j < devices@.len() ==> (#[trigger] devices@[i]).device_id@ != (
            #[trigger] devices@[j]).device_id@,
    ensures
        r <==> (ours matches Some(id) && exists|i: int| #[trigger]
            wins(devices@, stale.deep_view(), i) && devices@[i].device_id@ == id@),
{
    let ids = stale.deep_view();
    if let Some(id) = *ours {
        if is_first(devices@, ids, id@) {
            let i = choose|i: int| #[trigger]
                is_first_at(devices@, ids, i) && devices@[i].device_id@ == id@;
            assert(takes_part(devices@, ids, i));
            assert forall|j: int|
                0 <= j < devices@.len() && j != i && !ids.contains(
                    (#[trigger] devices@[j]).device_id@,
                ) implies outranks(devices@[i], devices@[j]) by {
                assert(takes_part(devices@, ids, j));
                if !comes_before(devices@[i], devices@[j]) {
                    lemma_before_total(devices@[j], devices@[i]);
                }
                lemma_outranks(devices@[i], devices@[j]);
            }
            assert(wins(devices@, ids, i));
        }
        if exists|i: int| #[trigger] wins(devices@, ids, i) && devices@[i].device_id@ == id@ {
            let i = choose|i: int| #[trigger]
                wins(devices@, ids, i) && devices@[i].device_id@ == id@;
            assert(takes_part(devices@, ids, i));
            assert forall|j: int| #[trigger] takes_part(devices@, ids, j) implies !comes_before(
                devices@[j],
                devices@[i],
            ) by {
                if j == i {
                    lemma_before_irreflexive(devices@[i]);
                } else {
                    assert(outranks(devices@[i], devices@[j]));
                    lemma_outranks(devices@[i], devices@[j]);
                    lemma_outranks(devices@[j], devices@[i]);
                    lemma_not_both(devices@[i], devices@[j]);
                }
            }
            assert(is_first_at(devices@, ids, i));
        }
    }
}

/// So it is whether or not the IDs differ: our device is the first one if and only
/// if no device that is not stale goes before it, and it is not stale itself.
pub proof fn nothing_outranks_the_first_device(
    devices: &Vec<Device>,
    stale: &Vec<String>,
    ours: &Option<String>,
    r: bool,
)
    requires
        call_ensures(is_first_device, (devices, stale, ours), r),
    ensures
        r <==> (ours matches Some(id) && exists|i: int| #[trigger]
            is_unbeaten(devices@, stale.deep_view(), i) && devices@[i].device_id@ == id@),
{
    let ids = stale.deep_view();
    assert forall|i: int| #[trigger] is_unbeaten(devices@, ids, i) <==> is_first_at(
        devices@,
        ids,
        i,
    ) by {
        if is_unbeaten(devices@, ids, i) {
            assert forall|j: int| #[trigger] takes_part(devices@, ids, j) implies !comes_before(
                devices@[j],
                devices@[i],
            ) by {
                lemma_outranks(devices@[j], devices@[i]);
                assert(!ids.contains(devices@[j].device_id@));
            }
        }
        if is_first_at(devices@, ids, i) {
            assert forall|j: int|
                0 <= j < devices@.len() && !ids.contains(
                    (#[trigger] devices@[j]).device_id@,
                ) implies !outranks(devices@[j], devices@[i]) by {
                assert(takes_part(devices@, ids, j));
                lemma_outranks(devices@[j], devices@[i]);
            }
        }
    }
    if let Some(id) = *ours {
        if is_first(devices@, ids, id@) {
            let i = choose|i: int| #[trigger]
                is_first_at(devices@, ids, i) && devices@[i].device_id@ == id@;
            assert(is_unbeaten(devices@, ids, i));
        }
        if exists|i: int| #[trigger]
            is_unbeaten(devices@, ids, i) && devices@[i].device_id@ == id@ {
            let i = choose|i: int| #[trigger]
                is_unbeaten(devices@, ids, i) && devices@[i].device_id@ == id@;
            assert(is_first_at(devices@, ids, i));
        }
    }
}

/// Whether the device at `i` is not stale and no device that is not stale goes
/// before it.
pub open spec fn is_unbeaten(devices: Seq<Device>, stale: Seq<Seq<char>>, i: int) -> bool {
    &&& 0 <= i < devices.len()
    &&& !stale.contains(devices[i].device_id@)
    &&& forall|j: int|
        0 <= j < devices.len() && !stale.contains((#[trigger] devices[j]).device_id@) ==> !outranks(
            devices[j],
            devices[i],
        )
}

proof fn lemma_parts_once(a: Seq<char>, b: Seq<char>, k: int, l: int)
    requires
        parts_at(a, b, k),
    ensures
        !parts_at(b, a, l),
{
    if parts_at(b, a, l) {
        if k < l {
            assert(b[k] == a[k]);
        } else if l < k {
            assert(a[l] == b[l]);
        }
    }
}

proof fn lemma_not_both(a: Device, b: Device)
    requires
        outranks(a, b),
    ensures
        !outranks(b, a),
{
    if outranks(b, a) {
        if let (Some(x), Some(y)) = (a.display_name, b.display_name) {
            if precedes(x@, y@) && precedes(y@, x@) {
                let k = choose|k: int| #[trigger] parts_at(x@, y@, k);
                let l = choose|l: int| #[trigger] parts_at(y@, x@, l);
                lemma_parts_once(x@, y@, k, l);
            }
            if x@ == y@ && precedes(x@, y@) {
                let k = choose|k: int| #[trigger] parts_at(x@, y@, k);
                lemma_parts_once(x@, y@, k, k);
            }
        }
        if precedes(a.device_id@, b.device_id@) && precedes(b.device_id@, a.device_id@) {
            let k = choose|k: int| #[trigger] parts_at(a.device_id@, b.device_id@, k);
            let l = choose|l: int| #[trigger] parts_at(b.device_id@, a.device_id@, l);
            lemma_parts_once(a.device_id@, b.device_id@, k, l);
        }
    }
}

/// Whether the device at `i` is not stale and goes before all others that are
/// not.
pub open spec fn wins(devices: Seq<Device>, stale: Seq<Seq<char>>, i: int) -> bool {
    &&& 0 <= i < devices.len()
    &&& !stale.contains(devices[i].device_id@)
    &&& forall|j: int|
        0 <= j < devices.len() && j != i && !stale.contains((#[trigger] devices[j]).device_id@)
            ==> outranks(devices[i], devices[j])
}

// ── Display names ───────────────────────────────────────────────────────

/// The value of a lower-case hexadecimal digit.
pub open spec fn hex_digit(c: char) -> int {
    if '0' <= c <= '9' {
        c as int - '0' as int
    } else {
        c as int - 'a' as int + 10
    }
}

/// The number that hexadecimal digits spell.
pub open spec fn hex_value(s: Seq<char>) -> int
    decreases s.len(),
{
    if s.len() == 0 {
        0
    } else {
        hex_value(s.drop_last()) * 16 + hex_digit(s.last())
    }
}

proof fn lemma_hex_value(n: nat, width: nat)
    requires
        n < pow(16, width),
    ensures
        hex_value(fixed_hex(n, width)) == n,
        forall|i: int|
            0 <= i < width ==> '0' <= #[trigger] fixed_hex(n, width)[i] <= '9' || 'a' <= fixed_hex(
                n,
                width,
            )[i] <= 'f',
        fixed_hex(n, width).len() == width,
    decreases width,
{
    if width == 0 {
        lemma_pow0(16);
    } else {
        let w = (width - 1) as nat;
        lemma_pow_step(w);
        assert(n / 16 < pow(16, w));
        lemma_hex_value(n / 16, w);
        let s = fixed_hex(n, width);
        let c = hex_char(n % 16);
        assert(s.drop_last() =~= fixed_hex(n / 16, w));
        assert(hex_digit(c) == n % 16);
        assert('0' <= c <= '9' || 'a' <= c <= 'f');
        assert forall|i: int| 0 <= i < width implies '0' <= #[trigger] s[i] <= '9' || 'a' <= s[i]
            <= 'f' by {
            if i < w {
                assert(s[i] == fixed_hex(n / 16, w)[i]);
            }
        }
    }
}

/// The display name of a device is the time of its login in milliseconds, as
/// eleven hexadecimal digits; a time beyond them has no name.
pub proof fn names_spell_the_login(now_ms: u64, r: Option<String>)
    requires
        call_ensures(device_name, (now_ms,), r),
    ensures
        r is Some <==> now_ms < 0x1000_0000_0000,
        r matches Some(name) ==> hex_value(name@) == now_ms && name@.len() == 11 && forall|i: int|
            0 <= i < 11 ==> '0' <= #[trigger] name@[i] <= '9' || 'a' <= name@[i] <= 'f',
{
    if now_ms < 0x1000_0000_0000 {
        lemma_name_range();
        lemma_hex_value(now_ms as nat, 11);
    }
}

/// The device that logged in earlier has the name that comes first.
pub proof fn names_have_the_order_of_logins(
    a_ms: u64,
    b_ms: u64,
    a: String,
    b: String,
    first: &str,
    second: &str,
    r: bool,
)
    requires
        call_ensures(device_name, (a_ms,), Some(a)),
        call_ensures(device_name, (b_ms,), Some(b)),
        a_ms < b_ms,
        first@ == a@,
        second@ == b@,
        call_ensures(text_less, (first, second), r),
    ensures
        r,
{
    names_spell_the_login(a_ms, Some(a));
    names_spell_the_login(b_ms, Some(b));
    let x = Device { device_id: a, display_name: Some(a), last_seen_ms: None };
    let y = Device { device_id: a, display_name: Some(b), last_seen_ms: None };
    earlier_login_comes_first(x, a_ms, y, b_ms);
    lemma_precedes(a@, b@);
}

} // verus!
