//! Time spans with random length.
use crate::number::lemma_number_chars;
use crate::number::number_of;
use crate::number::parse_number;
use crate::number::NumberError;
use crate::text::chars_of;
use crate::text::joined;
use crate::text::lemma_trimmed_keeps;
use crate::text::part_of;
use crate::text::trim_chars;
use crate::text::trimmed;
use rand::Rng;
use vstd::prelude::*;

verus! {

/// `rand::Rng::random_range` of the thread's generator over an inclusive range:
/// any value in the range may come back, and no other. Nothing is said of how
/// often each comes.
#[verifier::external_body]
fn random_between(lo: u64, hi: u64) -> (r: u64)
    requires
        lo <= hi,
    ensures
        lo <= r <= hi,
{
    rand::rng().random_range(lo..=hi)
}

/// Whether the generator can give the number for the range: it is what
/// [`random_between`] came back with.
pub closed spec fn is_drawn(lo: u64, hi: u64, r: u64) -> bool {
    call_ensures(random_between, (lo, hi), r)
}

/// A closed range of seconds.
#[derive(Debug, Clone, Copy, PartialEq, Eq, Structural)]
pub struct IntervalRange {
    pub lo: u64,
    pub hi: u64,
}

/// Position of the first two consecutive dots, or the length.
pub open spec fn find_dots(s: Seq<char>) -> int
    decreases s.len(),
{
    if s.len() < 2 {
        s.len() as int
    } else if s[0] == '.' && s[1] == '.' {
        0
    } else {
        1 + find_dots(s.drop_first())
    }
}

/// Whether there are two consecutive dots at `i`.
pub open spec fn dots_at(s: Seq<char>, i: int) -> bool {
    0 <= i && i + 1 < s.len() && s[i] == '.' && s[i + 1] == '.'
}

pub(crate) proof fn lemma_find_dots(s: Seq<char>, i: int)
    requires
        0 <= i <= s.len(),
        forall|j: int| 0 <= j < i ==> !dots_at(s, j),
        i < s.len() ==> dots_at(s, i),
    ensures
        find_dots(s) == i,
    decreases s.len(),
{
    if s.len() >= 2 {
        if i == 0 {
            assert(dots_at(s, 0));
        } else {
            assert(!dots_at(s, 0));
            let rest = s.drop_first();
            assert forall|j: int| 0 <= j < i - 1 implies !dots_at(rest, j) by {
                assert(!dots_at(s, j + 1));
            }
            if i < s.len() {
                assert(dots_at(rest, i - 1));
            }
            lemma_find_dots(rest, i - 1);
        }
    }
}

fn find_double_dot(s: &Vec<char>) -> (r: usize)
    ensures
        r as int == find_dots(s@),
        r <= s@.len(),
        r < s@.len() ==> r + 2 <= s@.len(),
{
    let mut i: usize = 0;
    while i < s.len()
        invariant
            i <= s@.len(),
            forall|j: int| 0 <= j < i ==> !dots_at(s@, j),
        decreases s@.len() - i,
    {
        if s.len() - i >= 2 && s[i] == '.' && s[i + 1] == '.' {
            assert(dots_at(s@, i as int));
            proof {
                lemma_find_dots(s@, i as int);
            }
            return i;
        }
        assert(!dots_at(s@, i as int));
        i = i + 1;
    }
    proof {
        lemma_find_dots(s@, i as int);
    }
    i
}

/// The number in a text, without white space around it.
pub open spec fn bound_of(s: Seq<char>) -> Result<nat, NumberError> {
    number_of(trimmed(s), u64::MAX as nat)
}

/// The range that a text stands for, as its lower and upper bound, or the text
/// of the error. `a..b` is the range between `a` and `b` in either order; a
/// single number is the range of that number.
pub open spec fn range_of(s: Seq<char>) -> Result<(nat, nat), Seq<char>> {
    let dots = find_dots(s);
    if dots < s.len() {
        match (bound_of(s.take(dots)), bound_of(s.skip(dots + 2))) {
            (Err(e), _) => Err("bad lower bound: "@ + e.text()),
            (Ok(_), Err(e)) => Err("bad upper bound: "@ + e.text()),
            (Ok(a), Ok(b)) => if a <= b {
                Ok((a, b))
            } else {
                Ok((b, a))
            },
        }
    } else {
        match bound_of(s) {
            Err(e) => Err("bad interval value: "@ + e.text()),
            Ok(v) => Ok((v, v)),
        }
    }
}

fn parse_bound(s: &Vec<char>) -> (r: Result<u64, NumberError>)
    ensures
        match (r, bound_of(s@)) {
            (Ok(v), Ok(n)) => v as nat == n,
            (Err(e), Err(f)) => e == f,
            _ => false,
        },
{
    parse_number(&trim_chars(s), u64::MAX)
}

impl IntervalRange {
    /// The lower bound does not exceed the upper.
    pub open spec fn valid(self) -> bool {
        self.lo <= self.hi
    }

    /// The range that a text stands for, or the text of the error.
    pub fn from_str(s: &str) -> (r: Result<Self, String>)
        ensures
            match (r, range_of(s@)) {
                (Ok(range), Ok((lo, hi))) => range.lo as nat == lo && range.hi as nat == hi
                    && range.valid(),
                (Err(e), Err(f)) => e@ == f,
                _ => false,
            },
    {
        let chars = chars_of(s);
        let dots: usize = find_double_dot(&chars);
        if dots < chars.len() {
            let first = part_of(&chars, 0, dots);
            let second = part_of(&chars, dots + 2, chars.len());
            assert(first@ =~= s@.take(dots as int));
            assert(second@ =~= s@.skip(dots + 2));
            let a: u64 = match parse_bound(&first) {
                Ok(a) => a,
                Err(e) => return Err(joined("bad lower bound: ", e.message().as_str())),
            };
            let b: u64 = match parse_bound(&second) {
                Ok(b) => b,
                Err(e) => return Err(joined("bad upper bound: ", e.message().as_str())),
            };
            if a <= b {
                Ok(IntervalRange { lo: a, hi: b })
            } else {
                Ok(IntervalRange { lo: b, hi: a })
            }
        } else {
            match parse_bound(&chars) {
                Ok(v) => Ok(IntervalRange { lo: v, hi: v }),
                Err(e) => Err(joined("bad interval value: ", e.message().as_str())),
            }
        }
    }

    /// A random number of seconds from the range. Where the bounds differ it is
    /// drawn between them.
    pub fn sample(self) -> (r: u64)
        requires
            self.valid(),
        ensures
            self.lo <= r <= self.hi,
            self.lo < self.hi ==> is_drawn(self.lo, self.hi, r),
    {
        if self.lo == self.hi {
            self.lo
        } else {
            let seconds: u64 = random_between(self.lo, self.hi);
            assert(is_drawn(self.lo, self.hi, seconds));
            seconds
        }
    }
}

/// A text that spells a bound holds no dot.
proof fn lemma_bound_without_dot(s: Seq<char>)
    requires
        bound_of(s) is Ok,
    ensures
        !s.contains('.'),
{
    lemma_number_chars(trimmed(s), u64::MAX as nat);
    if s.contains('.') {
        lemma_trimmed_keeps(s, '.');
        let t = trimmed(s);
        let i = choose|i: int| 0 <= i < t.len() && t[i] == '.';
        assert(t[i] == '.');
    }
}

/// Two bounds with two dots between them are split where they were joined.
proof fn lemma_range_text(a: Seq<char>, b: Seq<char>)
    requires
        bound_of(a) is Ok,
        bound_of(b) is Ok,
    ensures
        range_of(a + seq!['.', '.'] + b) == (match (bound_of(a), bound_of(b)) {
            (Ok(x), Ok(y)) => Ok::<(nat, nat), Seq<char>>(
                if x <= y {
                    (x, y)
                } else {
                    (y, x)
                },
            ),
            _ => Err(Seq::<char>::empty()),
        }),
{
    let s = a + seq!['.', '.'] + b;
    lemma_bound_without_dot(a);
    assert forall|j: int| 0 <= j < a.len() implies !dots_at(s, j) by {
        assert(s[j] == a[j]);
        assert(a.contains(a[j]));
    }
    lemma_find_dots(s, a.len() as int);
    assert(s.take(a.len() as int) =~= a);
    assert(s.skip(a.len() as int + 2) =~= b);
}

/// The order of the bounds makes no difference.
pub proof fn bounds_in_either_order(a: Seq<char>, b: Seq<char>)
    requires
        bound_of(a) is Ok,
        bound_of(b) is Ok,
    ensures
        range_of(a + seq!['.', '.'] + b) == range_of(b + seq!['.', '.'] + a),
        range_of(a + seq!['.', '.'] + b) is Ok,
{
    lemma_range_text(a, b);
    lemma_range_text(b, a);
}

/// A single number is the range from that number to itself, as if it were
/// given twice.
pub proof fn point_is_a_range(a: Seq<char>)
    requires
        bound_of(a) is Ok,
    ensures
        range_of(a) == range_of(a + seq!['.', '.'] + a),
{
    lemma_range_text(a, a);
    lemma_bound_without_dot(a);
    assert forall|j: int| 0 <= j < a.len() implies !dots_at(a, j) by {
        assert(a.contains(a[j]));
    }
    lemma_find_dots(a, a.len() as int);
}

} // verus!
