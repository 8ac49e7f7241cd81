//! Which invitations are accepted.
use crate::invites::accepts_invite;
use crate::invites::accepts_room;
use crate::invites::add_local_servers;
use crate::invites::all_patterns;
use crate::invites::matches_invite_domain;
use crate::invites::parse_patterns;
use crate::invites::pattern_of;
use crate::invites::some_accepts;
use crate::invites::InviteDomainPattern;
use crate::laws::text::is_blank;
use crate::laws::text::is_tight;
use crate::laws::text::lemma_split_joins;
use crate::laws::text::lemma_split_whole;
use crate::laws::text::lemma_trimmed_parts;
use crate::text::ends_with;
use crate::text::is_space;
use crate::text::split_on;
use crate::text::starts_with;
use crate::users::has_server;
use crate::users::user_has_server;
use crate::users::UserSpec;
use vstd::prelude::*;

verus! {

// ── The three forms ─────────────────────────────────────────────────────

/// A plain name matches itself and nothing else; white space around it does not
/// count.
pub proof fn plain_names_match_themselves(
    s: &str,
    r: Result<InviteDomainPattern, String>,
    a: Seq<char>,
    d: Seq<char>,
    b: Seq<char>,
    name: &str,
    m: bool,
)
    requires
        call_ensures(InviteDomainPattern::from_str, (s,), r),
        s@ == a + d + b,
        is_blank(a),
        is_blank(b),
        is_tight(d),
        d.len() > 0,
        d[0] != '.',
        !(d.len() > 1 && d[0] == '*' && d[1] == '.'),
    ensures
        r matches Ok(p) && (call_ensures(InviteDomainPattern::matches, (&p, name), m) ==> (m
            <==> name@ == d)),
{
    lemma_trimmed_parts(a, d, b);
    reveal_strlit("*.");
    assert(!starts_with(d, "*."@)) by {
        if starts_with(d, "*."@) {
            assert(d.take(2)[0] == '*');
            assert(d.take(2)[1] == '.');
        }
    }
}

/// A name with a dot before it matches what ends with the dot and the name,
/// whatever stands before them, and nothing else.
pub proof fn dotted_names_match_below(
    s: &str,
    r: Result<InviteDomainPattern, String>,
    a: Seq<char>,
    d: Seq<char>,
    b: Seq<char>,
    name: &str,
    m: bool,
)
    requires
        call_ensures(InviteDomainPattern::from_str, (s,), r),
        s@ == a + (seq!['.'] + d) + b,
        is_blank(a),
        is_blank(b),
        d.len() > 0,
        !is_space(d.last()),
    ensures
        r matches Ok(p) && (call_ensures(InviteDomainPattern::matches, (&p, name), m) ==> (m
            <==> exists|front: Seq<char>| name@ == #[trigger] (front + (seq!['.'] + d)))),
{
    let t = seq!['.'] + d;
    assert(t[0] == '.' && t.last() == d.last());
    lemma_trimmed_parts(a, t, b);
    reveal_strlit("*.");
    assert(!starts_with(t, "*."@)) by {
        if starts_with(t, "*."@) {
            assert(t.take(2)[0] == '*');
        }
    }
    lemma_ends(name@, t);
}

proof fn lemma_ends(name: Seq<char>, t: Seq<char>)
    ensures
        ends_with(name, t) <==> exists|front: Seq<char>| name == #[trigger] (front + t),
{
    if ends_with(name, t) {
        let front = name.take(name.len() - t.len());
        assert(name =~= front + t);
    }
    if exists|front: Seq<char>| name == #[trigger] (front + t) {
        let front = choose|front: Seq<char>| name == #[trigger] (front + t);
        assert(name.skip(name.len() - t.len()) =~= t);
    }
}

/// A name with a star and a dot before it matches what has one label and a dot
/// before the name, and nothing else.
pub proof fn starred_names_match_one_label(
    s: &str,
    r: Result<InviteDomainPattern, String>,
    a: Seq<char>,
    d: Seq<char>,
    b: Seq<char>,
    name: &str,
    m: bool,
)
    requires
        call_ensures(InviteDomainPattern::from_str, (s,), r),
        s@ == a + (seq!['*', '.'] + d) + b,
        is_blank(a),
        is_blank(b),
        d.len() > 0,
        !is_space(d.last()),
    ensures
        r matches Ok(p) && (call_ensures(InviteDomainPattern::matches, (&p, name), m) ==> (m
            <==> exists|label: Seq<char>|
            name@ == #[trigger] (label + (seq!['.'] + d)) && label.len() > 0 && !label.contains(
                '.',
            ))),
{
    let t = seq!['*', '.'] + d;
    let suffix = seq!['.'] + d;
    assert(t[0] == '*' && t.last() == d.last());
    lemma_trimmed_parts(a, t, b);
    reveal_strlit("*.");
    assert(t.take(2) =~= "*."@);
    assert(t.skip(1) =~= suffix);
    lemma_ends(name@, suffix);
    if exists|label: Seq<char>|
        name@ == #[trigger] (label + suffix) && label.len() > 0 && !label.contains('.') {
        let label = choose|label: Seq<char>|
            name@ == #[trigger] (label + suffix) && label.len() > 0 && !label.contains('.');
        assert(name@.take(name@.len() - suffix.len()) =~= label);
    }
    let front = name@.take(name@.len() - suffix.len());
    if ends_with(name@, suffix) {
        assert(name@ =~= front + suffix);
    }
}

/// Nothing, a dot, and a star with a dot are no patterns.
pub proof fn patterns_need_a_name(
    s: &str,
    r: Result<InviteDomainPattern, String>,
    a: Seq<char>,
    d: Seq<char>,
    b: Seq<char>,
)
    requires
        call_ensures(InviteDomainPattern::from_str, (s,), r),
        s@ == a + d + b,
        is_blank(a),
        is_blank(b),
        d == Seq::<char>::empty() || d == seq!['.'] || d == seq!['*', '.'],
    ensures
        r matches Err(e) && e@.len() == 0,
{
    lemma_trimmed_parts(a, d, b);
    reveal_strlit("*.");
    assert(seq!['*', '.'].take(2) =~= "*."@);
    assert(d.len() == 1 ==> !starts_with(d, "*."@));
}

/// The pattern made of a server name matches that server alone.
pub proof fn made_patterns_match_the_server(
    server: &str,
    p: InviteDomainPattern,
    name: &str,
    m: bool,
)
    requires
        call_ensures(InviteDomainPattern::exact, (server,), p),
        call_ensures(InviteDomainPattern::matches, (&p, name), m),
    ensures
        m <==> name@ == server@,
{
}

// ── Lists ───────────────────────────────────────────────────────────────

/// A list without a comma is one pattern.
pub proof fn single_patterns_are_lists(
    raw: &str,
    r: Result<Vec<InviteDomainPattern>, String>,
    one: Result<InviteDomainPattern, String>,
    name: &str,
    m: bool,
    n: bool,
)
    requires
        !raw@.contains(','),
        call_ensures(parse_patterns, (raw,), r),
        call_ensures(InviteDomainPattern::from_str, (raw,), one),
    ensures
        r is Ok <==> one is Ok,
        r matches Err(e) ==> e@.len() == 0,
        r matches Ok(patterns) ==> (one matches Ok(p) ==> (call_ensures(
            matches_invite_domain,
            (&patterns, name),
            m,
        ) && call_ensures(InviteDomainPattern::matches, (&p, name), n) ==> m == n)),
{
    lemma_split_whole(raw@, ',');
    let texts = split_on(raw@, ',');
    assert(texts[0] == raw@);
    if r is Ok {
        let patterns = r->Ok_0;
        assert(pattern_of(texts[0]) == Some(patterns@[0]@));
        assert(some_accepts(patterns@, name@) <==> patterns@[0]@.accepts(name@));
    }
    if one is Ok {
        assert(all_patterns(texts));
    }
}

/// A comma parts two lists: what the whole matches is what one of them matches,
/// and the whole is accepted if and only if both of them are.
pub proof fn commas_part_lists(
    a: &str,
    b: &str,
    both: &str,
    r: Result<Vec<InviteDomainPattern>, String>,
    s: Result<Vec<InviteDomainPattern>, String>,
    t: Result<Vec<InviteDomainPattern>, String>,
    name: &str,
    k: bool,
    m: bool,
    n: bool,
)
    requires
        both@ == a@.push(',') + b@,
        call_ensures(parse_patterns, (a,), r),
        call_ensures(parse_patterns, (b,), s),
        call_ensures(parse_patterns, (both,), t),
    ensures
        t is Ok <==> r is Ok && s is Ok,
        t matches Err(e) ==> e@.len() == 0,
        match (r, s, t) {
            (Ok(p), Ok(q), Ok(all)) => call_ensures(matches_invite_domain, (&p, name), k)
                && call_ensures(matches_invite_domain, (&q, name), m) && call_ensures(
                matches_invite_domain,
                (&all, name),
                n,
            ) ==> (n <==> k || m),
            _ => true,
        },
{
    lemma_split_joins(a@, b@, ',');
    let x = split_on(a@, ',');
    let y = split_on(b@, ',');
    let z = split_on(both@, ',');
    assert(z == x + y);
    if all_patterns(z) {
        assert forall|i: int| 0 <= i < x.len() implies pattern_of(#[trigger] x[i]) is Some by {
            assert(z[i] == x[i]);
        }
        assert forall|i: int| 0 <= i < y.len() implies pattern_of(#[trigger] y[i]) is Some by {
            assert(z[x.len() + i] == y[i]);
        }
    }
    if all_patterns(x) && all_patterns(y) {
        assert forall|i: int| 0 <= i < z.len() implies pattern_of(#[trigger] z[i]) is Some by {
            if i < x.len() {
                assert(z[i] == x[i]);
            } else {
                assert(z[i] == y[i - x.len()]);
            }
        }
    }
    if r is Ok && s is Ok && t is Ok {
        let p = r->Ok_0@;
        let q = s->Ok_0@;
        let all = t->Ok_0@;
        assert forall|i: int| 0 <= i < p.len() implies all[i]@ == (#[trigger] p[i])@ by {
            assert(pattern_of(z[i]) == Some(all[i]@));
            assert(pattern_of(x[i]) == Some(p[i]@));
        }
        assert forall|i: int| 0 <= i < q.len() implies all[p.len() + i]@ == (
        #[trigger] q[i])@ by {
            assert(pattern_of(z[x.len() + i]) == Some(all[p.len() + i]@));
            assert(pattern_of(y[i]) == Some(q[i]@));
        }
        if some_accepts(p, name@) {
            let i = choose|i: int| 0 <= i < p.len() && (#[trigger] p[i])@.accepts(name@);
            assert(all[i]@.accepts(name@));
        }
        if some_accepts(q, name@) {
            let i = choose|i: int| 0 <= i < q.len() && (#[trigger] q[i])@.accepts(name@);
            assert(all[p.len() + i]@.accepts(name@));
        }
        if some_accepts(all, name@) {
            let i = choose|i: int| 0 <= i < all.len() && (#[trigger] all[i])@.accepts(name@);
            if i < p.len() {
                assert(p[i]@.accepts(name@));
            } else {
                assert(q[i - p.len()]@.accepts(name@));
            }
        }
    }
}

// ── Invitations ─────────────────────────────────────────────────────────

/// A room on a server is accepted if and only if the server matches; a room
/// without one is not. An invitation counts if and only if it is for us and its
/// room is accepted.
pub proof fn invitations_go_by_server(
    patterns: &Vec<InviteDomainPattern>,
    name: &str,
    m: bool,
    room: bool,
    nowhere: bool,
    ours: &str,
    invited: &str,
    r: bool,
    none: bool,
)
    requires
        call_ensures(matches_invite_domain, (patterns, name), m),
        call_ensures(accepts_room, (patterns, Some(name)), room),
        call_ensures(accepts_room, (patterns, None), nowhere),
        call_ensures(accepts_invite, (patterns, ours, invited, Some(name)), r),
        call_ensures(accepts_invite, (patterns, ours, invited, None), none),
    ensures
        room == m,
        !nowhere,
        r <==> m && invited@ == ours@,
        !none,
{
}

/// Every server of a user or a peer matches from then on, and what matched
/// before still does; nothing else is added.
pub proof fn local_servers_are_accepted(
    patterns: &mut Vec<InviteDomainPattern>,
    users: &Vec<UserSpec>,
    name: &str,
    before: bool,
    after: bool,
)
    requires
        call_ensures(add_local_servers, (patterns, users), ()),
        call_ensures(matches_invite_domain, (&*old(patterns), name), before),
        call_ensures(matches_invite_domain, (&*final(patterns), name), after),
    ensures
        after <==> before || exists|i: int|
            0 <= i < users@.len() && ((#[trigger] users@[i]).mxid.server_name@ == name@ || exists|
                j: int,
            |
                0 <= j < users@[i].peers@.len() && (#[trigger] users@[i].peers@[j]).server_name@
                    == name@),
{
    let old_ones = old(patterns)@;
    let new_ones = final(patterns)@;
    if before {
        let k = choose|k: int| 0 <= k < old_ones.len() && (#[trigger] old_ones[k])@.accepts(name@);
        assert(new_ones[k]@.accepts(name@));
    }
    if after {
        let k = choose|k: int| 0 <= k < new_ones.len() && (#[trigger] new_ones[k])@.accepts(name@);
        if k < old_ones.len() {
            assert(old_ones[k]@.accepts(name@));
        } else {
            assert(has_server(users@, name@));
            let i = choose|i: int|
                0 <= i < users@.len() && user_has_server(#[trigger] users@[i], name@);
            assert(user_has_server(users@[i], name@));
        }
    }
}

} // verus!
