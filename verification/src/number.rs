//! Numbers as text: decimal parsing and printing, and hexadecimal printing of
//! a fixed width.
use vstd::arithmetic::power::lemma_pow1;
use vstd::arithmetic::power::pow;
use vstd::prelude::*;

verus! {

/// Why a text is not a number in range.
#[derive(Debug, Clone, Copy, PartialEq, Eq, Structural)]
pub enum NumberError {
    /// There is no character at all.
    Empty,
    /// A character is not a decimal digit.
    InvalidDigit,
    /// The number exceeds the largest value admitted.
    TooLarge,
}

impl NumberError {
    /// The text that describes the error.
    pub open spec fn text(self) -> Seq<char> {
        match self {
            NumberError::Empty => "cannot parse integer from empty string"@,
            NumberError::InvalidDigit => "invalid digit found in string"@,
            NumberError::TooLarge => "number too large to fit in target type"@,
        }
    }

    /// A description of the error for people.
    pub fn message(&self) -> (r: String)
        ensures
            r@ == self.text(),
    {
        match self {
            NumberError::Empty => "cannot parse integer from empty string".to_owned(),
            NumberError::InvalidDigit => "invalid digit found in string".to_owned(),
            NumberError::TooLarge => "number too large to fit in target type".to_owned(),
        }
    }
}

// ── Parsing ─────────────────────────────────────────────────────────────

/// Whether `c` is one of `0` to `9`.
pub open spec fn is_digit(c: char) -> bool {
    '0' <= c <= '9'
}

/// The value of a decimal digit.
pub open spec fn digit_value(c: char) -> nat {
    (c as nat - '0' as nat) as nat
}

/// The number that the digits spell, read from left to right: the first
/// character that is no digit, or that takes the value above `max`, decides.
pub open spec fn scan_digits(s: Seq<char>, max: nat) -> Result<nat, NumberError>
    decreases s.len(),
{
    if s.len() == 0 {
        Ok(0)
    } else {
        match scan_digits(s.drop_last(), max) {
            Err(e) => Err(e),
            Ok(v) => if !is_digit(s.last()) {
                Err(NumberError::InvalidDigit)
            } else if v * 10 + digit_value(s.last()) > max {
                Err(NumberError::TooLarge)
            } else {
                Ok((v * 10 + digit_value(s.last())) as nat)
            },
        }
    }
}

/// The number that a text spells: an optional `+`, then at least one digit
/// and nothing else, with a value of at most `max`.
pub open spec fn number_of(s: Seq<char>, max: nat) -> Result<nat, NumberError> {
    if s.len() == 0 {
        Err(NumberError::Empty)
    } else if s[0] == '+' && s.len() > 1 {
        scan_digits(s.skip(1), max)
    } else {
        scan_digits(s, max)
    }
}

/// Once the scan of a prefix has failed, the scan of the whole fails likewise.
pub(crate) proof fn lemma_scan_prefix_error(s: Seq<char>, n: int, max: nat)
    requires
        0 <= n <= s.len(),
        scan_digits(s.take(n), max) is Err,
    ensures
        scan_digits(s, max) == scan_digits(s.take(n), max),
    decreases s.len() - n,
{
    if n == s.len() {
        assert(s.take(n) =~= s);
    } else {
        assert(s.take(n + 1).drop_last() =~= s.take(n));
        lemma_scan_prefix_error(s, n + 1, max);
    }
}

proof fn lemma_scan_digits_only(s: Seq<char>, max: nat)
    requires
        scan_digits(s, max) is Ok,
    ensures
        forall|i: int| 0 <= i < s.len() ==> is_digit(#[trigger] s[i]),
    decreases s.len(),
{
    if s.len() > 0 {
        lemma_scan_digits_only(s.drop_last(), max);
        assert forall|i: int| 0 <= i < s.len() implies is_digit(#[trigger] s[i]) by {
            if i < s.len() - 1 {
                assert(s[i] == s.drop_last()[i]);
            }
        }
    }
}

/// A text that spells a number holds digits, and perhaps a sign before them.
pub proof fn lemma_number_chars(s: Seq<char>, max: nat)
    requires
        number_of(s, max) is Ok,
    ensures
        forall|i: int| 0 <= i < s.len() ==> is_digit(#[trigger] s[i]) || s[i] == '+',
{
    if s[0] == '+' && s.len() > 1 {
        lemma_scan_digits_only(s.skip(1), max);
        assert forall|i: int| 0 <= i < s.len() implies is_digit(#[trigger] s[i]) || s[i]
            == '+' by {
            if i > 0 {
                assert(s[i] == s.skip(1)[i - 1]);
            }
        }
    } else {
        lemma_scan_digits_only(s, max);
    }
}

/// Reads the digits from position `from` to the end.
fn scan_from(s: &Vec<char>, from: usize, max: u64) -> (r: Result<u64, NumberError>)
    requires
        from <= s@.len(),
    ensures
        match (r, scan_digits(s@.skip(from as int), max as nat)) {
            (Ok(v), Ok(n)) => v as nat == n,
            (Err(e), Err(f)) => e == f,
            _ => false,
        },
{
    let ghost digits = s@.skip(from as int);
    let mut value: u64 = 0;
    let mut i: usize = from;
    assert(digits.take(0) =~= Seq::<char>::empty());
    while i < s.len()
        invariant
            from <= i <= s@.len(),
            digits == s@.skip(from as int),
            value <= max,
            scan_digits(digits.take(i - from), max as nat) == Ok::<nat, NumberError>(value as nat),
        decreases s@.len() - i,
    {
        let c = s[i];
        let ghost prefix = digits.take(i - from + 1);
        assert(prefix.drop_last() =~= digits.take(i - from));
        assert(prefix.last() == c);
        if !('0' <= c && c <= '9') {
            proof {
                lemma_scan_prefix_error(digits, i - from + 1, max as nat);
            }
            return Err(NumberError::InvalidDigit);
        }
        let d: u64 = (c as u32 - '0' as u32) as u64;
        assert(d as nat == digit_value(c));
        let next: u128 = value as u128 * 10 + d as u128;
        if next > max as u128 {
            proof {
                lemma_scan_prefix_error(digits, i - from + 1, max as nat);
            }
            return Err(NumberError::TooLarge);
        }
        value = next as u64;
        i = i + 1;
    }
    assert(digits.take(digits.len() as int) =~= digits);
    Ok(value)
}

/// The number that the characters spell.
pub fn parse_number(s: &Vec<char>, max: u64) -> (r: Result<u64, NumberError>)
    ensures
        match (r, number_of(s@, max as nat)) {
            (Ok(v), Ok(n)) => v as nat == n,
            (Err(e), Err(f)) => e == f,
            _ => false,
        },
{
    if s.len() == 0 {
        return Err(NumberError::Empty);
    }
    if s[0] == '+' && s.len() > 1 {
        scan_from(s, 1, max)
    } else {
        assert(s@.skip(0) =~= s@);
        scan_from(s, 0, max)
    }
}

// ── Decimal printing ────────────────────────────────────────────────────

/// The character that stands for a digit below ten.
pub open spec fn digit_char(d: nat) -> char {
    ('0' as nat + d) as char
}

/// The decimal notation of `n`, without leading zeros.
pub open spec fn decimal(n: nat) -> Seq<char>
    decreases n,
{
    if n < 10 {
        seq![digit_char(n)]
    } else {
        decimal(n / 10).push(digit_char(n % 10))
    }
}

/// The character of a decimal digit.
fn digit_to_char(d: u64) -> (r: char)
    requires
        d < 10,
    ensures
        r == digit_char(d as nat),
{
    match d {
        0 => '0',
        1 => '1',
        2 => '2',
        3 => '3',
        4 => '4',
        5 => '5',
        6 => '6',
        7 => '7',
        8 => '8',
        _ => '9',
    }
}

/// The decimal notation of the number, as characters.
pub fn decimal_chars(n: u128) -> (r: Vec<char>)
    ensures
        r@ == decimal(n as nat),
    decreases n,
{
    if n < 10 {
        let mut out: Vec<char> = Vec::new();
        out.push(digit_to_char(n as u64));
        assert(out@ =~= seq![digit_char(n as nat)]);
        out
    } else {
        let mut out = decimal_chars(n / 10);
        out.push(digit_to_char((n % 10) as u64));
        out
    }
}

/// The decimal notation of the number.
pub fn decimal_text(n: u64) -> (r: String)
    ensures
        r@ == decimal(n as nat),
{
    crate::text::text_of(&decimal_chars(n as u128))
}

/// Decimal notation is one or more digits.
pub proof fn lemma_decimal_digits(n: nat)
    ensures
        decimal(n).len() > 0,
        forall|i: int| 0 <= i < decimal(n).len() ==> is_digit(#[trigger] decimal(n)[i]),
    decreases n,
{
    if n >= 10 {
        lemma_decimal_digits(n / 10);
    }
}

proof fn lemma_scan_decimal(n: nat, max: nat)
    requires
        n <= max,
    ensures
        scan_digits(decimal(n), max) == Ok::<nat, NumberError>(n),
    decreases n,
{
    if n < 10 {
        let s = decimal(n);
        assert(s.drop_last() =~= Seq::<char>::empty());
        assert(scan_digits(s.drop_last(), max) == Ok::<nat, NumberError>(0));
        assert(is_digit(s.last()) && digit_value(s.last()) == n);
    } else {
        lemma_scan_decimal(n / 10, max);
        let s = decimal(n);
        assert(s.drop_last() =~= decimal(n / 10));
        assert(is_digit(s.last()) && digit_value(s.last()) == n % 10);
        assert((n / 10) * 10 + n % 10 == n);
    }
}

/// Printing a number and parsing the text gives the number back, whatever
/// bound the parser has that the number respects.
pub proof fn decimal_round_trip(n: nat, max: nat)
    requires
        n <= max,
    ensures
        number_of(decimal(n), max) == Ok::<nat, NumberError>(n),
{
    lemma_decimal_digits(n);
    lemma_scan_decimal(n, max);
    assert(is_digit(decimal(n)[0]));
}

// ── Hexadecimal printing ────────────────────────────────────────────────

/// The lower-case character of a hexadecimal digit.
pub open spec fn hex_char(d: nat) -> char {
    if d < 10 {
        ('0' as nat + d) as char
    } else {
        ('a' as nat + (d - 10)) as char
    }
}

/// The last `width` hexadecimal digits of `n`, most significant first.
pub open spec fn fixed_hex(n: nat, width: nat) -> Seq<char>
    decreases width,
{
    if width == 0 {
        Seq::empty()
    } else {
        fixed_hex(n / 16, (width - 1) as nat).push(hex_char(n % 16))
    }
}

/// The character of a hexadecimal digit.
fn hex_to_char(d: u64) -> (r: char)
    requires
        d < 16,
    ensures
        r == hex_char(d as nat),
{
    match d {
        10 => 'a',
        11 => 'b',
        12 => 'c',
        13 => 'd',
        14 => 'e',
        15 => 'f',
        _ => digit_to_char(d),
    }
}

/// The last `width` hexadecimal digits of the number, as characters.
pub fn fixed_hex_chars(n: u64, width: usize) -> (r: Vec<char>)
    ensures
        r@ == fixed_hex(n as nat, width as nat),
    decreases width,
{
    if width == 0 {
        let out: Vec<char> = Vec::new();
        assert(out@ =~= fixed_hex(n as nat, 0));
        out
    } else {
        let mut out = fixed_hex_chars(n / 16, width - 1);
        out.push(hex_to_char(n % 16));
        out
    }
}

pub proof fn lemma_fixed_hex_len(n: nat, width: nat)
    ensures
        fixed_hex(n, width).len() == width,
    decreases width,
{
    if width > 0 {
        lemma_fixed_hex_len(n / 16, (width - 1) as nat);
    }
}

pub proof fn lemma_pow_step(w: nat)
    ensures
        pow(16, w + 1) == 16 * pow(16, w),
{
    lemma_pow1(16);
    vstd::arithmetic::power::lemma_pow_adds(16, 1, w);
}

} // verus!
