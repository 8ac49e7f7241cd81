//! Which invitations are accepted.
use crate::text::begins;
use crate::text::chars_of;
use crate::text::ends_with;
use crate::text::find_char;
use crate::text::has_part_at;
use crate::text::lemma_find;
use crate::text::lemma_trimmed_ends;
use crate::text::lemma_trimmed_fixed;
use crate::text::split_chars;
use crate::text::split_on;
use crate::text::starts_with;
use crate::text::text_between;
use crate::text::text_of;
use crate::text::trim_chars;
use crate::text::trimmed;
use crate::users::among;
use crate::users::has_server;
use crate::users::local_servers;
use crate::users::user_has_server;
use crate::users::UserSpec;
use vstd::prelude::*;

verus! {

/// A pattern for server names.
#[derive(Debug)]
pub enum InviteDomainPattern {
    /// The name itself.
    Exact(String),
    /// Names that end with this text, which begins with a dot.
    DotSubdomain(String),
    /// Names with one label before this text, which begins with a dot.
    WildcardSubdomain(String),
}

/// The mathematical counterpart of [`InviteDomainPattern`].
pub enum DomainPattern {
    Exact(Seq<char>),
    DotSubdomain(Seq<char>),
    WildcardSubdomain(Seq<char>),
}

impl View for InviteDomainPattern {
    type V = DomainPattern;

    open spec fn view(&self) -> DomainPattern {
        match *self {
            InviteDomainPattern::Exact(domain) => DomainPattern::Exact(domain@),
            InviteDomainPattern::DotSubdomain(suffix) => DomainPattern::DotSubdomain(suffix@),
            InviteDomainPattern::WildcardSubdomain(suffix) => DomainPattern::WildcardSubdomain(
                suffix@,
            ),
        }
    }
}

/// The pattern that a text stands for, without white space around it:
/// `*.domain`, `.domain` or `domain`, none of which may be empty.
pub open spec fn pattern_of(s: Seq<char>) -> Option<DomainPattern> {
    let t = trimmed(s);
    if t.len() == 0 {
        None
    } else if starts_with(t, "*."@) {
        if t.len() == 2 {
            None
        } else {
            Some(DomainPattern::WildcardSubdomain(t.skip(1)))
        }
    } else if t[0] == '.' {
        if t.len() == 1 {
            None
        } else {
            Some(DomainPattern::DotSubdomain(t))
        }
    } else {
        Some(DomainPattern::Exact(t))
    }
}

impl DomainPattern {
    /// Whether a server name matches the pattern.
    pub open spec fn accepts(self, server_name: Seq<char>) -> bool {
        match self {
            DomainPattern::Exact(domain) => server_name == domain,
            DomainPattern::DotSubdomain(suffix) => ends_with(server_name, suffix),
            DomainPattern::WildcardSubdomain(suffix) => {
                &&& ends_with(server_name, suffix)
                &&& server_name.len() > suffix.len()
                &&& !server_name.take(server_name.len() - suffix.len()).contains('.')
            },
        }
    }
}

/// Whether `name` ends with the characters of `suffix`.
fn ends(name: &Vec<char>, suffix: &Vec<char>) -> (r: bool)
    ensures
        r == ends_with(name@, suffix@),
{
    if suffix.len() > name.len() {
        return false;
    }
    let at: usize = name.len() - suffix.len();
    assert(name@.subrange(at as int, at + suffix@.len()) =~= name@.skip(at as int));
    has_part_at(name, at, suffix)
}

impl InviteDomainPattern {
    /// The pattern that matches only the given server.
    pub fn exact(server_name: &str) -> (r: Self)
        ensures
            r@ == DomainPattern::Exact(server_name@),
    {
        InviteDomainPattern::Exact(server_name.to_owned())
    }

    /// The pattern that a text stands for; the text of the error is empty.
    pub fn from_str(s: &str) -> (r: Result<Self, String>)
        ensures
            match r {
                Ok(pattern) => pattern_of(s@) == Some(pattern@),
                Err(e) => pattern_of(s@) is None && e@.len() == 0,
            },
    {
        let t = trim_chars(&chars_of(s));
        if t.len() == 0 {
            return Err(String::new());
        }
        proof {
            reveal_strlit("*.");
        }
        if begins(&t, "*.") {
            if t.len() == 2 {
                return Err(String::new());
            }
            assert(t@.subrange(1, t@.len() as int) =~= t@.skip(1));
            Ok(InviteDomainPattern::WildcardSubdomain(text_between(&t, 1, t.len())))
        } else if t[0] == '.' {
            if t.len() == 1 {
                return Err(String::new());
            }
            Ok(InviteDomainPattern::DotSubdomain(text_of(&t)))
        } else {
            Ok(InviteDomainPattern::Exact(text_of(&t)))
        }
    }

    /// Whether a server name matches the pattern.
    pub fn matches(&self, server_name: &str) -> (r: bool)
        ensures
            r == self@.accepts(server_name@),
    {
        match self {
            InviteDomainPattern::Exact(domain) => server_name.to_owned() == *domain,
            InviteDomainPattern::DotSubdomain(suffix) => ends(
                &chars_of(server_name),
                &chars_of(suffix.as_str()),
            ),
            InviteDomainPattern::WildcardSubdomain(suffix) => {
                let name = chars_of(server_name);
                let end = chars_of(suffix.as_str());
                if !ends(&name, &end) || name.len() == end.len() {
                    return false;
                }
                let label: usize = name.len() - end.len();
                let dot: usize = find_char(&name, '.');
                proof {
                    lemma_find(name@, '.');
                    let prefix = name@.take(label as int);
                    if dot < label {
                        assert(prefix[dot as int] == '.');
                    } else {
                        assert forall|i: int| 0 <= i < prefix.len() implies prefix[i] != '.' by {
                            assert(prefix[i] == name@[i]);
                        }
                    }
                }
                dot >= label
            },
        }
    }
}

/// Whether every text stands for a pattern.
pub open spec fn all_patterns(texts: Seq<Seq<char>>) -> bool {
    forall|i: int| 0 <= i < texts.len() ==> pattern_of(#[trigger] texts[i]) is Some
}

/// The patterns in a list, separated by commas. Every piece must be a pattern;
/// the text of the error is empty.
pub fn parse_patterns(raw: &str) -> (r: Result<Vec<InviteDomainPattern>, String>)
    ensures
        match r {
            Ok(patterns) => {
                &&& all_patterns(split_on(raw@, ','))
                &&& patterns@.len() == split_on(raw@, ',').len()
                &&& forall|i: int|
                    0 <= i < patterns@.len() ==> pattern_of(split_on(raw@, ',')[i]) == Some(
                        (#[trigger] patterns@[i])@,
                    )
            },
            Err(e) => !all_patterns(split_on(raw@, ',')) && e@.len() == 0,
        },
{
    let pieces = split_chars(&chars_of(raw), ',');
    let ghost texts = pieces.deep_view();
    let mut patterns: Vec<InviteDomainPattern> = Vec::new();
    let mut i: usize = 0;
    while i < pieces.len()
        invariant
            i <= pieces@.len(),
            texts == pieces.deep_view(),
            texts == split_on(raw@, ','),
            patterns@.len() == i,
            forall|k: int|
                0 <= k < i ==> pattern_of(texts[k]) == Some((#[trigger] patterns@[k])@),
        decreases pieces@.len() - i,
    {
        let piece = text_of(&pieces[i]);
        assert(texts[i as int] =~= pieces@[i as int]@);
        match InviteDomainPattern::from_str(piece.as_str()) {
            Ok(pattern) => patterns.push(pattern),
            Err(e) => {
                assert(pattern_of(texts[i as int]) is None);
                return Err(e);
            },
        }
        i = i + 1;
    }
    assert forall|k: int| 0 <= k < texts.len() implies pattern_of(#[trigger] texts[k]) is Some by {
        assert(pattern_of(texts[k]) == Some(patterns@[k]@));
    }
    Ok(patterns)
}

/// Whether some pattern accepts a server name.
pub open spec fn some_accepts(patterns: Seq<InviteDomainPattern>, server_name: Seq<char>) -> bool {
    exists|i: int| 0 <= i < patterns.len() && (#[trigger] patterns[i])@.accepts(server_name)
}

/// Whether a server name matches some pattern.
pub fn matches_invite_domain(patterns: &Vec<InviteDomainPattern>, server_name: &str) -> (r: bool)
    ensures
        r == some_accepts(patterns@, server_name@),
{
    let mut i: usize = 0;
    while i < patterns.len()
        invariant
            i <= patterns@.len(),
            forall|k: int| 0 <= k < i ==> !(#[trigger] patterns@[k])@.accepts(server_name@),
        decreases patterns@.len() - i,
    {
        if patterns[i].matches(server_name) {
            return true;
        }
        i = i + 1;
    }
    false
}

/// Whether an invitation is accepted: its room's ID names a server, and the
/// server matches some pattern.
pub fn accepts_room(patterns: &Vec<InviteDomainPattern>, server_name: Option<&str>) -> (r: bool)
    ensures
        r == (server_name matches Some(name) && some_accepts(patterns@, name@)),
{
    match server_name {
        Some(name) => matches_invite_domain(patterns, name),
        None => false,
    }
}

/// Whether an invitation is to be acted on: it is for us, and it is accepted.
pub fn accepts_invite(
    patterns: &Vec<InviteDomainPattern>,
    our_user_id: &str,
    invited: &str,
    server_name: Option<&str>,
) -> (r: bool)
    ensures
        r == (invited@ == our_user_id@ && (server_name matches Some(name) && some_accepts(
            patterns@,
            name@,
        ))),
{
    invited.to_owned() == our_user_id.to_owned() && accepts_room(patterns, server_name)
}

/// Adds the servers of the users and their peers to the patterns.
pub fn add_local_servers(patterns: &mut Vec<InviteDomainPattern>, users: &Vec<UserSpec>)
    ensures
        forall|name: Seq<char>| #[trigger]
            some_accepts(final(patterns)@, name) <==> some_accepts(old(patterns)@, name)
                || has_server(users@, name),
        old(patterns)@.len() <= final(patterns)@.len(),
        forall|k: int|
            0 <= k < old(patterns)@.len() ==> #[trigger] final(patterns)@[k] == old(patterns)@[k],
        forall|k: int|
            old(patterns)@.len() <= k < final(patterns)@.len() ==> ((#[trigger] final(patterns)@[k])@
                matches DomainPattern::Exact(server) && has_server(users@, server)),
        forall|i: int|
            0 <= i < users@.len() ==> some_accepts(
                final(patterns)@,
                (#[trigger] users@[i]).mxid.server_name@,
            ),
        forall|i: int, j: int|
            0 <= i < users@.len() && 0 <= j < users@[i].peers@.len() ==> some_accepts(
                final(patterns)@,
                (#[trigger] users@[i].peers@[j]).server_name@,
            ),
{
    let servers = local_servers(users);
    let ghost before = patterns@;
    let mut i: usize = 0;
    while i < servers.len()
        invariant
            i <= servers@.len(),
            patterns@.len() == before.len() + i,
            forall|k: int| 0 <= k < before.len() ==> patterns@[k] == before[k],
            forall|k: int|
                0 <= k < i ==> (#[trigger] patterns@[before.len() + k])@ == DomainPattern::Exact(
                    servers@[k]@,
                ),
        decreases servers@.len() - i,
    {
        patterns.push(InviteDomainPattern::exact(servers[i].as_str()));
        i = i + 1;
    }
    assert forall|name: Seq<char>| #[trigger]
        some_accepts(patterns@, name) <==> some_accepts(before, name) || has_server(
            users@,
            name,
        ) by {
        if some_accepts(before, name) {
            let k = choose|k: int| 0 <= k < before.len() && (#[trigger] before[k])@.accepts(name);
            assert(patterns@[k]@.accepts(name));
        }
        if has_server(users@, name) {
            assert(among(servers@, name));
            let k = choose|k: int| 0 <= k < servers@.len() && (#[trigger] servers@[k])@ == name;
            assert(patterns@[before.len() + k]@.accepts(name));
        }
        if some_accepts(patterns@, name) {
            let k = choose|k: int|
                0 <= k < patterns@.len() && (#[trigger] patterns@[k])@.accepts(name);
            if k < before.len() {
                assert(before[k]@.accepts(name));
            } else {
                let j = k - before.len();
                assert(patterns@[before.len() + j]@ == DomainPattern::Exact(servers@[j]@));
                assert(among(servers@, name));
            }
        }
    }
    proof {
        assert forall|k: int| before.len() <= k < patterns@.len() implies ((#[trigger] patterns@[k])@
            matches DomainPattern::Exact(server) && has_server(users@, server)) by {
            let j = k - before.len();
            assert(patterns@[before.len() + j]@ == DomainPattern::Exact(servers@[j]@));
            assert(among(servers@, servers@[j]@));
        }
        assert forall|i: int| 0 <= i < users@.len() implies some_accepts(
            patterns@,
            (#[trigger] users@[i]).mxid.server_name@,
        ) by {
            assert(user_has_server(users@[i], users@[i].mxid.server_name@));
        }
        assert forall|i: int, j: int|
            0 <= i < users@.len() && 0 <= j < users@[i].peers@.len() implies some_accepts(
            patterns@,
            (#[trigger] users@[i].peers@[j]).server_name@,
        ) by {
            assert(user_has_server(users@[i], users@[i].peers@[j].server_name@));
        }
    }
}

// ── What the three forms mean ───────────────────────────────────────────

/// Whether a text is a domain as it stands in a pattern: not empty, without
/// white space at its ends and without the signs of the other two forms.
pub open spec fn is_domain(d: Seq<char>) -> bool {
    &&& d.len() > 0
    &&& trimmed(d) == d
    &&& d[0] != '.'
    &&& !starts_with(d, "*."@)
}

/// A sign before a domain is not lost in trimming.
proof fn lemma_signed_domain(d: Seq<char>)
    requires
        is_domain(d),
    ensures
        trimmed("."@ + d) == "."@ + d,
        trimmed("*."@ + d) == "*."@ + d,
{
    reveal_strlit(".");
    reveal_strlit("*.");
    lemma_trimmed_ends(d);
    let dotted = "."@ + d;
    let starred = "*."@ + d;
    assert(dotted[0] == '.' && dotted.last() == d.last());
    assert(starred[0] == '*' && starred.last() == d.last());
    lemma_trimmed_fixed(dotted);
    lemma_trimmed_fixed(starred);
}

/// `domain` matches that name and no other.
pub proof fn exact_form(d: Seq<char>, name: Seq<char>)
    requires
        is_domain(d),
    ensures
        pattern_of(d) matches Some(p) && (p.accepts(name) <==> name == d),
{
}

/// `.domain` matches the names that have something and a dot before the
/// domain, and not the domain itself.
pub proof fn dot_form(d: Seq<char>, prefix: Seq<char>)
    requires
        is_domain(d),
    ensures
        pattern_of("."@ + d) matches Some(p) && p.accepts(prefix + ("."@ + d)) && !p.accepts(d),
{
    reveal_strlit(".");
    reveal_strlit("*.");
    lemma_signed_domain(d);
    let t = "."@ + d;
    assert(t[0] == '.');
    assert(!starts_with(t, "*."@)) by {
        if starts_with(t, "*."@) {
            assert(t.take(2)[0] == "*."@[0]);
        }
    }
    let name = prefix + t;
    assert(name.skip(name.len() - t.len()) =~= t);
}

/// `*.domain` matches the names that have one label and a dot before the
/// domain, and neither deeper names nor the domain itself.
pub proof fn wildcard_form(d: Seq<char>, prefix: Seq<char>)
    requires
        is_domain(d),
    ensures
        pattern_of("*."@ + d) matches Some(p) && (p.accepts(prefix + ("."@ + d)) <==> prefix.len()
            > 0 && !prefix.contains('.')) && !p.accepts(d),
{
    reveal_strlit(".");
    reveal_strlit("*.");
    lemma_signed_domain(d);
    let t = "*."@ + d;
    let suffix = "."@ + d;
    assert(t.take(2) =~= "*."@);
    assert(t.skip(1) =~= suffix);
    let name = prefix + suffix;
    assert(name.skip(name.len() - suffix.len()) =~= suffix);
    assert(name.take(name.len() - suffix.len()) =~= prefix);
}

/// What `*.domain` matches, `.domain` matches as well.
pub proof fn wildcard_is_narrower(d: Seq<char>, name: Seq<char>)
    requires
        is_domain(d),
        pattern_of("*."@ + d) matches Some(p) && p.accepts(name),
    ensures
        pattern_of("."@ + d) matches Some(p) && p.accepts(name),
{
    reveal_strlit(".");
    reveal_strlit("*.");
    lemma_signed_domain(d);
    let t = "*."@ + d;
    assert(t.take(2) =~= "*."@);
    assert(t.skip(1) =~= "."@ + d);
    dot_form(d, Seq::empty());
}

} // verus!
