//! Numbers as text.
use crate::number::decimal;
use crate::number::decimal_chars;
use crate::number::decimal_text;
use crate::number::digit_value;
use crate::number::fixed_hex_chars;
use crate::number::lemma_scan_prefix_error;
use crate::number::parse_number;
use crate::number::scan_digits;
use crate::number::NumberError;
use vstd::prelude::*;

verus! {

/// Whether a text is made of decimal digits, at least one of them.
pub open spec fn all_digits(s: Seq<char>) -> bool {
    s.len() > 0 && forall|i: int| 0 <= i < s.len() ==> '0' <= #[trigger] s[i] <= '9'
}

/// The number that decimal digits spell.
pub open spec fn value_of(s: Seq<char>) -> int
    decreases s.len(),
{
    if s.len() == 0 {
        0
    } else {
        value_of(s.drop_last()) * 10 + (s.last() as int - '0' as int)
    }
}

proof fn lemma_scan(s: Seq<char>, max: nat)
    requires
        forall|i: int| 0 <= i < s.len() ==> '0' <= #[trigger] s[i] <= '9',
    ensures
        0 <= value_of(s),
        value_of(s) <= max ==> scan_digits(s, max) == Ok::<nat, NumberError>(value_of(s) as nat),
        value_of(s) > max ==> scan_digits(s, max) == Err::<nat, NumberError>(
            NumberError::TooLarge,
        ),
    decreases s.len(),
{
    if s.len() > 0 {
        let front = s.drop_last();
        assert forall|i: int| 0 <= i < front.len() implies '0' <= #[trigger] front[i] <= '9' by {
            assert(front[i] == s[i]);
        }
        lemma_scan(front, max);
        assert('0' <= s[s.len() - 1] <= '9');
        assert(digit_value(s.last()) == s.last() as int - '0' as int);
    }
}

proof fn lemma_scan_fails(s: Seq<char>, max: nat, i: int)
    requires
        0 <= i < s.len(),
        !('0' <= s[i] <= '9'),
    ensures
        scan_digits(s, max) is Err,
    decreases s.len(),
{
    if i < s.len() - 1 {
        assert(s.drop_last()[i] == s[i]);
        lemma_scan_fails(s.drop_last(), max, i);
    }
}

/// Digits are read as the number that they spell, with or without a plus sign
/// before them, as long as it does not exceed the bound.
pub proof fn digits_are_read(
    s: &Vec<char>,
    signed: &Vec<char>,
    max: u64,
    r: Result<u64, NumberError>,
    t: Result<u64, NumberError>,
)
    requires
        call_ensures(parse_number, (s, max), r),
        call_ensures(parse_number, (signed, max), t),
        all_digits(s@),
        signed@ == seq!['+'] + s@,
    ensures
        value_of(s@) <= max ==> (r matches Ok(n) && n == value_of(s@)) && (t matches Ok(n) && n
            == value_of(s@)),
        value_of(s@) > max ==> r == Err::<u64, NumberError>(NumberError::TooLarge) && t == Err::<
            u64,
            NumberError,
        >(NumberError::TooLarge),
{
    lemma_scan(s@, max as nat);
    assert('0' <= s@[0] <= '9');
    assert(signed@.skip(1) =~= s@);
}

/// Anything but digits, and a plus sign before them, is no number; nor is
/// nothing at all.
pub proof fn other_texts_are_no_numbers(s: &Vec<char>, max: u64, r: Result<u64, NumberError>)
    requires
        call_ensures(parse_number, (s, max), r),
    ensures
        s@.len() == 0 <==> r == Err::<u64, NumberError>(NumberError::Empty),
        r is Ok ==> all_digits(s@) || (s@[0] == '+' && all_digits(s@.skip(1))),
{
    if s@.len() > 0 && r is Ok {
        let digits = if s@[0] == '+' && s@.len() > 1 {
            s@.skip(1)
        } else {
            s@
        };
        assert forall|i: int| 0 <= i < digits.len() implies '0' <= #[trigger] digits[i] <= '9' by {
            if !('0' <= digits[i] <= '9') {
                lemma_scan_fails(digits, max as nat, i);
            }
        }
    }
    if s@.len() > 0 {
        lemma_not_empty(s@, max as nat);
        lemma_not_empty(s@.skip(1), max as nat);
    }
}

/// A text with something other than a digit in it is refused for that, unless the
/// digits before it, without the sign, make too large a number already.
pub proof fn first_flaw_is_told(
    s: &Vec<char>,
    max: u64,
    r: Result<u64, NumberError>,
    sign: Seq<char>,
    digits: Seq<char>,
    flaw: char,
    rest: Seq<char>,
)
    requires
        call_ensures(parse_number, (s, max), r),
        sign == Seq::<char>::empty() || sign == seq!['+'],
        forall|i: int| 0 <= i < digits.len() ==> '0' <= #[trigger] digits[i] <= '9',
        !('0' <= flaw <= '9'),
        sign.len() == 0 && digits.len() == 0 && flaw == '+' ==> rest.len() == 0,
        s@ == sign + digits + seq![flaw] + rest,
    ensures
        value_of(digits) <= max ==> r == Err::<u64, NumberError>(NumberError::InvalidDigit),
        value_of(digits) > max ==> r == Err::<u64, NumberError>(NumberError::TooLarge),
{
    let body = digits + seq![flaw] + rest;
    let n = digits.len() as int;
    if sign.len() == 0 {
        assert(s@ =~= body);
        if digits.len() > 0 {
            assert(s@[0] == digits[0]);
        } else {
            assert(s@[0] == flaw);
            assert(flaw == '+' ==> s@.len() == 1);
        }
    } else {
        assert(s@[0] == '+');
        assert(s@.skip(1) =~= body);
    }
    assert(body.take(n) =~= digits);
    lemma_scan(digits, max as nat);
    if value_of(digits) > max {
        lemma_scan_prefix_error(body, n, max as nat);
    } else {
        let upto = body.take(n + 1);
        assert(upto.drop_last() =~= digits);
        assert(upto.last() == flaw);
        lemma_scan_prefix_error(body, n + 1, max as nat);
    }
}

proof fn lemma_not_empty(s: Seq<char>, max: nat)
    ensures
        scan_digits(s, max) != Err::<nat, NumberError>(NumberError::Empty),
    decreases s.len(),
{
    if s.len() > 0 {
        lemma_not_empty(s.drop_last(), max);
    }
}

proof fn lemma_decimal_value(n: nat)
    ensures
        all_digits(decimal(n)),
        value_of(decimal(n)) == n,
        decimal(n)[0] == '0' ==> n == 0,
        n == 0 ==> decimal(n).len() == 1,
    decreases n,
{
    let s = decimal(n);
    if n < 10 {
        assert(s.drop_last() =~= Seq::<char>::empty());
        assert(value_of(s.drop_last()) == 0);
        assert(value_of(s) == s.last() as int - '0' as int);
    } else {
        lemma_decimal_value(n / 10);
        assert(s.drop_last() =~= decimal(n / 10));
        assert forall|i: int| 0 <= i < s.len() implies '0' <= #[trigger] s[i] <= '9' by {
            if i < s.len() - 1 {
                assert(s[i] == decimal(n / 10)[i]);
            }
        }
        assert(s[0] == decimal(n / 10)[0]);
        assert(s.last() as int - '0' as int == n % 10);
        assert(value_of(s) == value_of(s.drop_last()) * 10 + n % 10);
    }
}

/// A number is written with digits that spell it, without zeros before them.
pub proof fn numbers_are_spelled(n: u64, r: String)
    requires
        call_ensures(decimal_text, (n,), r),
    ensures
        all_digits(r@),
        value_of(r@) == n,
        r@[0] == '0' ==> r@ == seq!['0'],
{
    lemma_decimal_value(n as nat);
    if r@[0] == '0' {
        assert(r@ =~= seq!['0']);
    }
}

/// So are numbers of 128 bits.
pub proof fn long_numbers_are_spelled(n: u128, r: Vec<char>)
    requires
        call_ensures(decimal_chars, (n,), r),
    ensures
        all_digits(r@),
        value_of(r@) == n,
        r@[0] == '0' ==> r@ == seq!['0'],
{
    lemma_decimal_value(n as nat);
    if r@[0] == '0' {
        assert(r@ =~= seq!['0']);
    }
}

/// Hexadecimal digits of a fixed width: one more digit is that of what is left
/// after division by 16, in lower case. Without any width there are no digits.
pub proof fn hex_digits_follow_division(n: u64, width: usize, r: Vec<char>, s: Vec<char>)
    requires
        width < usize::MAX,
        call_ensures(fixed_hex_chars, (n, (width + 1) as usize), r),
        call_ensures(fixed_hex_chars, (n / 16, width), s),
    ensures
        r@.len() == s@.len() + 1,
        r@.drop_last() == s@,
        n % 16 < 10 ==> r@.last() as int == '0' as int + n % 16,
        n % 16 >= 10 ==> r@.last() as int == 'a' as int + n % 16 - 10,
        width == 0 ==> s@.len() == 0,
{
    assert(r@.drop_last() =~= s@);
}

/// What is wrong with a text that is no number.
pub proof fn number_errors_are_described(e: &NumberError, r: String)
    requires
        call_ensures(NumberError::message, (e,), r),
    ensures
        *e is Empty ==> r@ == "cannot parse integer from empty string"@,
        *e is InvalidDigit ==> r@ == "invalid digit found in string"@,
        *e is TooLarge ==> r@ == "number too large to fit in target type"@,
{
}

} // verus!
