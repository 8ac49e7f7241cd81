//! The texts of messages.
use crate::message::message_round_trip;
use crate::message::message_text;
use crate::message::parse_message_body;
use crate::number::decimal_text;
use crate::number::parse_number;
use crate::number::NumberError;
use crate::text::lemma_find;
use vstd::prelude::*;

verus! {

/// A message spells its serial number and the time of sending, in this order.
pub proof fn messages_are_spelled(
    serial: u64,
    timestamp_ms: u64,
    r: String,
    first: String,
    second: String,
)
    requires
        call_ensures(message_text, (serial, timestamp_ms), r),
        call_ensures(decimal_text, (serial,), first),
        call_ensures(decimal_text, (timestamp_ms,), second),
    ensures
        r@ == "Message #"@ + first@ + " "@ + second@,
{
}

/// What was written is read back.
pub proof fn messages_are_read_back(
    serial: u64,
    timestamp_ms: u64,
    text: String,
    body: &str,
    r: Option<(u64, u64)>,
)
    requires
        call_ensures(message_text, (serial, timestamp_ms), text),
        body@ == text@,
        call_ensures(parse_message_body, (body,), r),
    ensures
        r == Some((serial, timestamp_ms)),
{
    message_round_trip(serial, timestamp_ms);
}

/// What is read as a message is one: the sign of a message, a number, a blank,
/// and another number, with nothing before, between or behind them.
pub proof fn only_messages_are_read(
    body: &str,
    r: Option<(u64, u64)>,
    first: &Vec<char>,
    second: &Vec<char>,
    n: Result<u64, NumberError>,
    t: Result<u64, NumberError>,
)
    requires
        call_ensures(parse_message_body, (body,), r),
        call_ensures(parse_number, (first, u64::MAX), n),
        call_ensures(parse_number, (second, u64::MAX), t),
        !first@.contains(' '),
    ensures
        body@ == "Message #"@ + first@ + " "@ + second@ ==> match (n, t) {
            (Ok(a), Ok(b)) => r == Some((a, b)),
            _ => r is None,
        },
        r is Some ==> exists|a: Seq<char>, b: Seq<char>|
            body@ == #[trigger] ("Message #"@ + a + " "@ + b) && !a.contains(' '),
{
    reveal_strlit("Message #");
    reveal_strlit(" ");
    let prefix = "Message #"@;
    if body@ == prefix + first@ + " "@ + second@ {
        let rest = body@.skip(9);
        assert(body@.take(9) =~= prefix);
        assert(rest =~= first@ + " "@ + second@);
        assert forall|i: int| 0 <= i < first@.len() implies rest[i] != ' ' by {
            assert(rest[i] == first@[i]);
        }
        crate::text::lemma_find_unique(rest, ' ', first@.len() as int);
        assert(rest.take(first@.len() as int) =~= first@);
        assert(rest.skip(first@.len() as int + 1) =~= second@);
    }
    if r is Some {
        let rest = body@.skip(9);
        lemma_find(rest, ' ');
        let k = crate::text::find(rest, ' ');
        let a = rest.take(k);
        let b = rest.skip(k + 1);
        assert(body@ =~= prefix + a + " "@ + b) by {
            assert(body@.take(9) == prefix);
            assert(rest =~= a + " "@ + b);
            assert(body@ =~= body@.take(9) + rest);
        }
        assert(!a.contains(' ')) by {
            if a.contains(' ') {
                let i = choose|i: int| 0 <= i < a.len() && a[i] == ' ';
                assert(rest[i] == ' ');
            }
        }
    }
}

} // verus!
