//! The texts of messages: a serial number and the time of sending.
use crate::number::decimal;
use crate::number::decimal_round_trip;
use crate::number::decimal_text;
use crate::number::is_digit;
use crate::number::lemma_decimal_digits;
use crate::number::number_of;
use crate::number::parse_number;
use crate::text::begins;
use crate::text::chars_of;
use crate::text::find;
use crate::text::find_char;
use crate::text::joined;
use crate::text::lemma_find_unique;
use crate::text::part_of;
use crate::text::starts_with;
use vstd::prelude::*;

verus! {

/// What every message begins with.
pub open spec fn message_prefix() -> Seq<char> {
    "Message #"@
}

/// The text of a message.
pub open spec fn message_of(serial: u64, timestamp_ms: u64) -> Seq<char> {
    message_prefix() + decimal(serial as nat) + " "@ + decimal(timestamp_ms as nat)
}

/// The serial number and the time of sending in milliseconds that a text holds,
/// if it is that of a message: what follows the prefix is one number up to the
/// first blank and one number after it.
pub open spec fn parsed_message(body: Seq<char>) -> Option<(u64, u64)> {
    if !starts_with(body, message_prefix()) {
        None
    } else {
        let rest = body.skip(message_prefix().len() as int);
        let blank = find(rest, ' ');
        if blank == rest.len() {
            None
        } else {
            match (
                number_of(rest.take(blank), u64::MAX as nat),
                number_of(rest.skip(blank + 1), u64::MAX as nat),
            ) {
                (Ok(serial), Ok(ts)) => Some((serial as u64, ts as u64)),
                _ => None,
            }
        }
    }
}

/// The text of a message with a serial number and the time of sending.
pub fn message_text(serial: u64, timestamp_ms: u64) -> (r: String)
    ensures
        r@ == message_of(serial, timestamp_ms),
{
    let mut out = joined("Message #", decimal_text(serial).as_str());
    out.append(" ");
    out.append(decimal_text(timestamp_ms).as_str());
    out
}

/// The serial number and the time of sending in a text, if it is that of a
/// message.
pub fn parse_message_body(body: &str) -> (r: Option<(u64, u64)>)
    ensures
        r == parsed_message(body@),
{
    let chars = chars_of(body);
    if !begins(&chars, "Message #") {
        return None;
    }
    proof {
        reveal_strlit("Message #");
    }
    let rest = part_of(&chars, 9, chars.len());
    assert(rest@ =~= body@.skip(9));
    let blank: usize = find_char(&rest, ' ');
    if blank == rest.len() {
        return None;
    }
    let first = part_of(&rest, 0, blank);
    let second = part_of(&rest, blank + 1, rest.len());
    assert(first@ =~= rest@.take(blank as int));
    assert(second@ =~= rest@.skip(blank + 1));
    match (parse_number(&first, u64::MAX), parse_number(&second, u64::MAX)) {
        (Ok(serial), Ok(ts)) => Some((serial, ts)),
        _ => None,
    }
}

/// What is sent is what is read: the text of a message holds its serial number
/// and its time.
pub proof fn message_round_trip(serial: u64, timestamp_ms: u64)
    ensures
        parsed_message(message_of(serial, timestamp_ms)) == Some((serial, timestamp_ms)),
{
    reveal_strlit(" ");
    let body = message_of(serial, timestamp_ms);
    let prefix = message_prefix();
    let first = decimal(serial as nat);
    let second = decimal(timestamp_ms as nat);
    let rest = first + " "@ + second;
    assert(body.take(prefix.len() as int) =~= prefix);
    assert(body.skip(prefix.len() as int) =~= rest);
    lemma_decimal_digits(serial as nat);
    assert forall|j: int| 0 <= j < first.len() implies rest[j] != ' ' by {
        assert(is_digit(first[j]));
        assert(rest[j] == first[j]);
    }
    lemma_find_unique(rest, ' ', first.len() as int);
    assert(rest.take(first.len() as int) =~= first);
    assert(rest.skip(first.len() as int + 1) =~= second);
    decimal_round_trip(serial as nat, u64::MAX as nat);
    decimal_round_trip(timestamp_ms as nat, u64::MAX as nat);
}

} // verus!
