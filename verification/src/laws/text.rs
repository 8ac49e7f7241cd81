//! Trimming and splitting texts.
use crate::text::begins;
use crate::text::chars_of;
use crate::text::find_char;
use crate::text::has_part_at;
use crate::text::is_space;
use crate::text::is_whitespace;
use crate::text::joined;
use crate::text::lemma_find;
use crate::text::lemma_trimmed_fixed;
use crate::text::part_of;
use crate::text::push_utf8;
use crate::text::split_chars;
use crate::text::split_entries;
use crate::text::split_on;
use crate::text::split_whitespace;
use crate::text::text_between;
use crate::text::text_of;
use crate::text::trim;
use crate::text::trim_chars;
use crate::text::trim_end;
use crate::text::trim_start;
use crate::text::trimmed;
use crate::text::trimmed_entries;
use crate::text::words_of;
use vstd::prelude::*;
use vstd::utf8::encode_utf8;

verus! {

// ── White space ─────────────────────────────────────────────────────────

/// White space is what has the Unicode property of that name.
pub proof fn white_space_is_that_of_unicode(c: char, r: bool)
    requires
        call_ensures(is_whitespace, (c,), r),
    ensures
        r <==> {
            let n = c as u32;
            n == 9 || n == 10 || n == 11 || n == 12 || n == 13 || n == 32 || n == 0x85 || n == 0xA0
                || n == 0x1680 || (0x2000 <= n && n <= 0x200A) || n == 0x2028 || n == 0x2029 || n
                == 0x202F || n == 0x205F || n == 0x3000
        },
{
}

/// Whether a text is white space only.
pub open spec fn is_blank(s: Seq<char>) -> bool {
    forall|i: int| 0 <= i < s.len() ==> is_space(#[trigger] s[i])
}

/// Whether a text neither begins nor ends with white space.
pub open spec fn is_tight(s: Seq<char>) -> bool {
    s.len() > 0 ==> !is_space(s[0]) && !is_space(s.last())
}

proof fn lemma_trim_start_blank(a: Seq<char>, s: Seq<char>)
    requires
        is_blank(a),
    ensures
        trim_start(a + s) == trim_start(s),
    decreases a.len(),
{
    if a.len() == 0 {
        assert(a + s =~= s);
    } else {
        assert(is_space(a[0]));
        assert((a + s)[0] == a[0]);
        assert((a + s).drop_first() =~= a.drop_first() + s);
        assert forall|i: int| 0 <= i < a.drop_first().len() implies is_space(
            #[trigger] a.drop_first()[i],
        ) by {
            assert(a.drop_first()[i] == a[i + 1]);
        }
        lemma_trim_start_blank(a.drop_first(), s);
    }
}

proof fn lemma_trim_end_blank(s: Seq<char>, b: Seq<char>)
    requires
        is_blank(b),
    ensures
        trim_end(s + b) == trim_end(s),
    decreases b.len(),
{
    if b.len() == 0 {
        assert(s + b =~= s);
    } else {
        assert(is_space(b[b.len() - 1]));
        assert((s + b).last() == b.last());
        assert((s + b).drop_last() =~= s + b.drop_last());
        assert forall|i: int| 0 <= i < b.drop_last().len() implies is_space(
            #[trigger] b.drop_last()[i],
        ) by {
            assert(b.drop_last()[i] == b[i]);
        }
        lemma_trim_end_blank(s, b.drop_last());
    }
}

pub(crate) proof fn lemma_trimmed_parts(a: Seq<char>, core: Seq<char>, b: Seq<char>)
    requires
        is_blank(a),
        is_blank(b),
        is_tight(core),
    ensures
        trimmed(a + core + b) == core,
{
    assert(a + core + b =~= a + (core + b));
    lemma_trim_start_blank(a, core + b);
    if core.len() > 0 {
        assert((core + b)[0] == core[0]);
        assert(trim_start(core + b) == core + b);
    } else {
        assert(core + b =~= b + core);
        lemma_trim_start_blank(b, core);
        assert(trim_start(core) =~= core);
        assert(trim_start(b + core) == core);
        assert(trim_end(core) =~= core);
    }
    lemma_trim_end_blank(core, b);
    lemma_trimmed_fixed(core);
}

/// Trimming takes away the white space around a text and nothing else.
pub proof fn trimming_takes_the_margins(
    s: &str,
    r: String,
    chars: &Vec<char>,
    t: Vec<char>,
    a: Seq<char>,
    core: Seq<char>,
    b: Seq<char>,
)
    requires
        call_ensures(trim, (s,), r),
        call_ensures(trim_chars, (chars,), t),
        chars@ == s@,
        s@ == a + core + b,
        is_blank(a),
        is_blank(b),
        is_tight(core),
    ensures
        r@ == core,
        t@ == core,
{
    lemma_trimmed_parts(a, core, b);
}

// ── Searching ───────────────────────────────────────────────────────────

/// The position of a character is that of its first occurrence, or the length
/// where there is none.
pub proof fn first_occurrence_is_found(s: &Vec<char>, c: char, r: usize)
    requires
        call_ensures(find_char, (s, c), r),
    ensures
        r <= s@.len(),
        r < s@.len() ==> s@[r as int] == c,
        forall|i: int| 0 <= i < r ==> s@[i] != c,
{
    lemma_find(s@, c);
}

/// A text begins with another one if and only if it is that one with something
/// behind it.
pub proof fn beginnings_are_recognised(s: &Vec<char>, prefix: &str, r: bool)
    requires
        call_ensures(begins, (s, prefix), r),
    ensures
        r <==> exists|rest: Seq<char>| s@ == #[trigger] (prefix@ + rest),
{
    if r {
        let rest = s@.skip(prefix@.len() as int);
        assert(s@ =~= prefix@ + rest);
    }
    if exists|rest: Seq<char>| s@ == #[trigger] (prefix@ + rest) {
        let rest = choose|rest: Seq<char>| s@ == #[trigger] (prefix@ + rest);
        assert(s@.take(prefix@.len() as int) =~= prefix@);
    }
}

/// Joining puts one text behind the other.
pub proof fn joining_appends(a: &str, b: &str, r: String)
    requires
        call_ensures(joined, (a, b), r),
    ensures
        r@ == a@ + b@,
{
}

/// A text and its characters hold the same, part by part.
pub proof fn parts_are_cut_out(
    s: &str,
    chars: Vec<char>,
    back: String,
    from: usize,
    to: usize,
    part: Vec<char>,
    text: String,
)
    requires
        call_ensures(chars_of, (s,), chars),
        call_ensures(text_of, (&chars,), back),
        from <= to <= chars@.len(),
        call_ensures(part_of, (&chars, from, to), part),
        call_ensures(text_between, (&chars, from, to), text),
    ensures
        back@ == s@,
        part@.len() == to - from,
        text@.len() == to - from,
        forall|i: int|
            0 <= i < to - from ==> #[trigger] part@[i] == s@[from + i] && text@[i] == s@[from + i],
{
    assert forall|i: int| 0 <= i < to - from implies #[trigger] part@[i] == s@[from + i] && text@[i]
        == s@[from + i] by {
        assert(part@[i] == s@.subrange(from as int, to as int)[i]);
    }
}

/// A part is at a place if and only if the text is that part between something
/// as long as the place tells and something else.
pub proof fn parts_are_found_at_their_place(s: &Vec<char>, at: usize, part: &Vec<char>, r: bool)
    requires
        at <= s@.len(),
        call_ensures(has_part_at, (s, at, part), r),
    ensures
        r <==> exists|a: Seq<char>, b: Seq<char>|
            s@ == #[trigger] (a + part@ + b) && a.len() == at,
{
    if r {
        let a = s@.take(at as int);
        let b = s@.skip(at + part@.len());
        assert(s@ =~= a + part@ + b);
    }
    if exists|a: Seq<char>, b: Seq<char>| s@ == #[trigger] (a + part@ + b) && a.len() == at {
        let (a, b) = choose|a: Seq<char>, b: Seq<char>|
            s@ == #[trigger] (a + part@ + b) && a.len() == at;
        assert(s@.subrange(at as int, at + part@.len()) =~= part@);
    }
}

/// The bytes of a text are appended, and nothing else changes.
pub proof fn bytes_are_appended(out: &mut Vec<u8>, s: &str)
    requires
        call_ensures(push_utf8, (out, s), ()),
    ensures
        final(out)@ == old(out)@ + encode_utf8(s@),
{
}

// ── Splitting ───────────────────────────────────────────────────────────

pub(crate) proof fn lemma_split_whole(s: Seq<char>, sep: char)
    requires
        !s.contains(sep),
    ensures
        split_on(s, sep) == seq![s],
    decreases s.len(),
{
    if s.len() == 0 {
        assert(s =~= Seq::<char>::empty());
    } else {
        let front = s.drop_last();
        assert(s[s.len() - 1] == s.last());
        assert(!front.contains(sep)) by {
            if front.contains(sep) {
                let i = choose|i: int| 0 <= i < front.len() && front[i] == sep;
                assert(s[i] == sep);
            }
        }
        lemma_split_whole(front, sep);
        assert(split_on(s, sep) =~= seq![front.push(s.last())]);
        assert(front.push(s.last()) =~= s);
    }
}

proof fn lemma_split_len(s: Seq<char>, sep: char)
    ensures
        split_on(s, sep).len() > 0,
    decreases s.len(),
{
    if s.len() > 0 {
        lemma_split_len(s.drop_last(), sep);
    }
}

pub(crate) proof fn lemma_split_joins(a: Seq<char>, b: Seq<char>, sep: char)
    ensures
        split_on(a.push(sep) + b, sep) == split_on(a, sep) + split_on(b, sep),
    decreases b.len(),
{
    let s = a.push(sep) + b;
    lemma_split_len(b, sep);
    if b.len() == 0 {
        assert(s =~= a.push(sep));
        assert(s.drop_last() =~= a);
        assert(split_on(s, sep) =~= split_on(a, sep) + split_on(b, sep));
    } else {
        let front = b.drop_last();
        lemma_split_joins(a, front, sep);
        lemma_split_len(front, sep);
        assert(s.drop_last() =~= a.push(sep) + front);
        assert(s.last() == b.last());
        assert(split_on(s, sep) =~= split_on(a, sep) + split_on(b, sep));
    }
}

/// A text without the separator is one piece, and a separator parts what stands
/// before it from what stands behind it.
pub proof fn separators_part_texts(
    a: &Vec<char>,
    b: &Vec<char>,
    both: &Vec<char>,
    sep: char,
    r: Vec<Vec<char>>,
    s: Vec<Vec<char>>,
    t: Vec<Vec<char>>,
)
    requires
        call_ensures(split_chars, (a, sep), r),
        call_ensures(split_chars, (b, sep), s),
        call_ensures(split_chars, (both, sep), t),
        both@ == a@.push(sep) + b@,
    ensures
        !a@.contains(sep) ==> r.deep_view() == seq![a@],
        t.deep_view() == r.deep_view() + s.deep_view(),
{
    if !a@.contains(sep) {
        lemma_split_whole(a@, sep);
    }
    lemma_split_joins(a@, b@, sep);
}

pub(crate) proof fn lemma_entries_join(a: Seq<Seq<char>>, b: Seq<Seq<char>>)
    ensures
        trimmed_entries(a + b) == trimmed_entries(a) + trimmed_entries(b),
    decreases b.len(),
{
    if b.len() == 0 {
        assert(a + b =~= a);
        assert(trimmed_entries(a) + trimmed_entries(b) =~= trimmed_entries(a));
    } else {
        assert((a + b).drop_last() =~= a + b.drop_last());
        assert((a + b).last() == b.last());
        lemma_entries_join(a, b.drop_last());
        assert(trimmed_entries(a + b) =~= trimmed_entries(a) + trimmed_entries(b));
    }
}

pub(crate) proof fn lemma_one_entry(s: Seq<char>, sep: char)
    requires
        !s.contains(sep),
    ensures
        trimmed_entries(split_on(s, sep)) == (if trimmed(s).len() == 0 {
            Seq::<Seq<char>>::empty()
        } else {
            seq![trimmed(s)]
        }),
{
    lemma_split_whole(s, sep);
    let one = seq![s];
    assert(one.drop_last() =~= Seq::<Seq<char>>::empty());
    assert(trimmed_entries(Seq::<Seq<char>>::empty()) =~= Seq::<Seq<char>>::empty());
    assert(trimmed_entries(one) =~= (if trimmed(s).len() == 0 {
        Seq::<Seq<char>>::empty()
    } else {
        seq![trimmed(s)]
    }));
}

/// The entries of a list are its pieces without the white space around them; a
/// piece of white space is none. A separator parts the entries before it from
/// those behind it.
pub proof fn lists_are_parted_by_separators(
    a: &Vec<char>,
    b: &Vec<char>,
    both: &Vec<char>,
    sep: char,
    r: Vec<Vec<char>>,
    s: Vec<Vec<char>>,
    t: Vec<Vec<char>>,
    core: Vec<char>,
)
    requires
        call_ensures(split_entries, (a, sep), r),
        call_ensures(split_entries, (b, sep), s),
        call_ensures(split_entries, (both, sep), t),
        call_ensures(trim_chars, (a,), core),
        both@ == a@.push(sep) + b@,
    ensures
        !a@.contains(sep) && core@.len() > 0 ==> r.deep_view() == seq![core@],
        !a@.contains(sep) && core@.len() == 0 ==> r.deep_view() == Seq::<Seq<char>>::empty(),
        t.deep_view() == r.deep_view() + s.deep_view(),
{
    if !a@.contains(sep) {
        lemma_one_entry(a@, sep);
    }
    lemma_split_joins(a@, b@, sep);
    lemma_entries_join(split_on(a@, sep), split_on(b@, sep));
}

proof fn lemma_one_word(s: Seq<char>)
    requires
        s.len() > 0,
        forall|i: int| 0 <= i < s.len() ==> !is_space(#[trigger] s[i]),
    ensures
        words_of(s) == seq![s],
    decreases s.len(),
{
    let front = s.drop_last();
    assert(!is_space(s[s.len() - 1]));
    if s.len() == 1 {
        assert(front =~= Seq::<char>::empty());
        assert(words_of(front) =~= Seq::<Seq<char>>::empty());
        assert(words_of(s) =~= seq![seq![s.last()]]);
        assert(seq![s.last()] =~= s);
    } else {
        assert forall|i: int| 0 <= i < front.len() implies !is_space(#[trigger] front[i]) by {
            assert(front[i] == s[i]);
        }
        lemma_one_word(front);
        assert(!is_space(s[s.len() - 2]));
        assert(front.push(s.last()) =~= s);
        assert(words_of(s) =~= seq![s]);
    }
}

proof fn lemma_words_join(a: Seq<char>, c: char, b: Seq<char>)
    requires
        is_space(c),
    ensures
        words_of(a.push(c) + b) == words_of(a) + words_of(b),
        b.len() > 0 && !is_space(b.last()) ==> words_of(b).len() > 0,
    decreases b.len(),
{
    let s = a.push(c) + b;
    if b.len() == 0 {
        assert(s =~= a.push(c));
        assert(s.drop_last() =~= a);
        assert(words_of(s) =~= words_of(a) + words_of(b));
    } else {
        let front = b.drop_last();
        lemma_words_join(a, c, front);
        assert(s.drop_last() =~= a.push(c) + front);
        assert(s.last() == b.last());
        if b.len() == 1 {
            assert(s[s.len() - 2] == c);
        } else {
            assert(s[s.len() - 2] == b[b.len() - 2]);
            assert(front.last() == b[b.len() - 2]);
        }
        assert(words_of(s) =~= words_of(a) + words_of(b));
    }
}

/// A text without white space is one word, unless it is empty, and white space
/// parts the words before it from those behind it.
pub proof fn white_space_parts_words(
    a: &Vec<char>,
    c: char,
    b: &Vec<char>,
    both: &Vec<char>,
    r: Vec<Vec<char>>,
    s: Vec<Vec<char>>,
    t: Vec<Vec<char>>,
)
    requires
        call_ensures(split_whitespace, (a,), r),
        call_ensures(split_whitespace, (b,), s),
        call_ensures(split_whitespace, (both,), t),
        is_space(c),
        both@ == a@.push(c) + b@,
    ensures
        a@.len() == 0 ==> r.deep_view() == Seq::<Seq<char>>::empty(),
        a@.len() > 0 && (forall|i: int| 0 <= i < a@.len() ==> !is_space(#[trigger] a@[i]))
            ==> r.deep_view() == seq![a@],
        t.deep_view() == r.deep_view() + s.deep_view(),
{
    if a@.len() > 0 && (forall|i: int| 0 <= i < a@.len() ==> !is_space(#[trigger] a@[i])) {
        lemma_one_word(a@);
    }
    if a@.len() == 0 {
        assert(words_of(a@) =~= Seq::<Seq<char>>::empty());
    }
    lemma_words_join(a@, c, b@);
}

} // verus!
