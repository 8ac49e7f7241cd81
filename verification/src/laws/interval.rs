//! Time spans with random length.
use crate::interval::dots_at;
use crate::interval::is_drawn;
use crate::interval::lemma_find_dots;
use crate::interval::IntervalRange;
use crate::number::parse_number;
use crate::number::NumberError;
use crate::text::trim_chars;
use vstd::prelude::*;

verus! {

/// Whether two consecutive dots stand nowhere in a text.
pub open spec fn has_no_range(s: Seq<char>) -> bool {
    forall|i: int| 0 <= i && i + 1 < s.len() ==> !(#[trigger] s[i] == '.' && s[i + 1] == '.')
}

/// Two numbers with two dots between them are the range from the smaller to the
/// larger one. White space around the numbers does not count. If one of them is
/// no number, the text is refused, because of the first that is none.
pub proof fn ranges_lie_between_their_bounds(
    s: &str,
    a: &Vec<char>,
    b: &Vec<char>,
    lower: Vec<char>,
    upper: Vec<char>,
    m: Result<u64, NumberError>,
    n: Result<u64, NumberError>,
    r: Result<IntervalRange, String>,
    why: String,
)
    requires
        s@ == a@ + seq!['.', '.'] + b@,
        has_no_range(a@),
        a@.len() > 0 ==> a@.last() != '.',
        call_ensures(trim_chars, (a,), lower),
        call_ensures(trim_chars, (b,), upper),
        call_ensures(parse_number, (&lower, u64::MAX), m),
        call_ensures(parse_number, (&upper, u64::MAX), n),
        call_ensures(IntervalRange::from_str, (s,), r),
    ensures
        match (m, n) {
            (Ok(x), Ok(y)) => r matches Ok(range) && range.lo == (if x <= y {
                x
            } else {
                y
            }) && range.hi == (if x <= y {
                y
            } else {
                x
            }),
            (Err(e), _) => r matches Err(text) && (call_ensures(NumberError::message, (&e,), why)
                ==> text@ == "bad lower bound: "@ + why@),
            (Ok(_), Err(e)) => r matches Err(text) && (call_ensures(
                NumberError::message,
                (&e,),
                why,
            ) ==> text@ == "bad upper bound: "@ + why@),
        },
{
    let dots = a@.len() as int;
    assert forall|j: int| 0 <= j < dots implies !dots_at(s@, j) by {
        assert(s@[j] == a@[j]);
        if j + 1 < dots {
            assert(s@[j + 1] == a@[j + 1]);
            assert(!(a@[j] == '.' && a@[j + 1] == '.'));
        }
    }
    assert(dots_at(s@, dots));
    lemma_find_dots(s@, dots);
    assert(s@.take(dots) =~= a@);
    assert(s@.skip(dots + 2) =~= b@);
}

/// A single number is the range of that number alone.
pub proof fn single_numbers_are_points(
    s: &str,
    chars: &Vec<char>,
    core: Vec<char>,
    n: Result<u64, NumberError>,
    r: Result<IntervalRange, String>,
    why: String,
)
    requires
        chars@ == s@,
        has_no_range(s@),
        call_ensures(trim_chars, (chars,), core),
        call_ensures(parse_number, (&core, u64::MAX), n),
        call_ensures(IntervalRange::from_str, (s,), r),
    ensures
        match n {
            Ok(x) => r matches Ok(range) && range.lo == x && range.hi == x,
            Err(e) => r matches Err(text) && (call_ensures(NumberError::message, (&e,), why)
                ==> text@ == "bad interval value: "@ + why@),
        },
{
    assert forall|j: int| 0 <= j < s@.len() implies !dots_at(s@, j) by {
        if j + 1 < s@.len() {
            assert(!(s@[j] == '.' && s@[j + 1] == '.'));
        }
    }
    lemma_find_dots(s@, s@.len() as int);
}

/// A time span is never shorter or longer than the range allows, and where the
/// range allows several it is drawn from just this range.
pub proof fn samples_stay_in_the_range(range: IntervalRange, r: u64)
    requires
        range.lo <= range.hi,
        call_ensures(IntervalRange::sample, (range,), r),
    ensures
        range.lo <= r <= range.hi,
        range.lo < range.hi ==> is_drawn(range.lo, range.hi, r),
{
}

/// Every range that a text stands for can be drawn from.
pub proof fn ranges_can_be_drawn_from(s: &str, range: IntervalRange)
    requires
        call_ensures(IntervalRange::from_str, (s,), Ok(range)),
    ensures
        range.lo <= range.hi,
        call_requires(IntervalRange::sample, (range,)),
{
}

} // verus!
