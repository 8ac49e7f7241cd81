//! User IDs and the users that the program plays.
use crate::auth::AuthConfig;
use crate::text::debug_form;
use crate::text::find;
use crate::text::lemma_find;
use crate::text::split_entries;
use crate::text::split_whitespace;
use crate::users::among;
use crate::users::comma_joined;
use crate::users::credentials_line;
use crate::users::entry_fault;
use crate::users::entry_parts;
use crate::users::first_bad_entry;
use crate::users::first_fault;
use crate::users::has_server;
use crate::users::local_servers;
use crate::users::mxid_fault;
use crate::users::mxid_is_its_parts;
use crate::users::mxid_texts;
use crate::users::parse_users;
use crate::users::user_has_server;
use crate::users::Distance;
use crate::users::Mxid;
use crate::users::UserSpec;
use vstd::prelude::*;

verus! {

// ── User IDs ────────────────────────────────────────────────────────────

/// A text with an at sign, a local part, a colon and a server name is taken
/// apart into these; the local part ends at the first colon.
pub proof fn ids_are_taken_apart(
    s: &str,
    local: Seq<char>,
    server: Seq<char>,
    r: Option<Mxid>,
    p: Result<Mxid, String>,
)
    requires
        s@ == seq!['@'] + local + seq![':'] + server,
        !local.contains(':'),
        call_ensures(Mxid::from_text, (s,), r),
        call_ensures(Mxid::parse, (s,), p),
    ensures
        r matches Some(id) && id.full@ == s@ && id.localpart@ == local && id.server_name@ == server,
        p matches Ok(id) ==> id.full@ == s@ && id.localpart@ == local && id.server_name@ == server,
{
    let colon = 1 + local.len() as int;
    assert(s@[colon] == ':');
    assert forall|i: int| 0 <= i < colon implies s@[i] != ':' by {
        if i > 0 {
            assert(s@[i] == local[i - 1]);
        }
    }
    lemma_find(s@, ':');
    assert(find(s@, ':') == colon);
    assert(s@.subrange(1, colon) =~= local);
    assert(s@.skip(colon + 1) =~= server);
}

/// Other texts are no user IDs. What is refused is refused for the reason that is
/// found in it.
pub proof fn other_texts_are_no_ids(s: &str, r: Option<Mxid>, p: Result<Mxid, String>)
    requires
        call_ensures(Mxid::from_text, (s,), r),
        call_ensures(Mxid::parse, (s,), p),
    ensures
        r is Some || p is Ok ==> exists|local: Seq<char>, server: Seq<char>|
            s@ == #[trigger] (seq!['@'] + local + seq![':'] + server) && !local.contains(':'),
        p matches Err(e) ==> mxid_fault(s@) == Some(e@),
        p is Ok ==> mxid_fault(s@) is None,
{
    if r is Some {
        mxid_is_its_parts(r->0);
    }
    if p is Ok {
        mxid_is_its_parts(p->Ok_0);
    }
}

/// The names of the distances.
pub proof fn distances_are_named(d: &Distance, r: &'static str)
    requires
        call_ensures(Distance::name, (d,), r),
    ensures
        *d is SameUser ==> r@ == "same_user"@,
        *d is SameServer ==> r@ == "same_server"@,
        *d is Federated ==> r@ == "federated"@,
{
}

// ── Configured users ────────────────────────────────────────────────────

/// The first ID of an entry is the user's and the others are those of its peers,
/// in their order. The address is the server's, over TLS, and the user's name is
/// the local part.
pub proof fn entries_name_user_and_peers(
    entry: &str,
    chars: &Vec<char>,
    parts: Vec<Vec<char>>,
    r: Result<UserSpec, String>,
    k: int,
)
    requires
        chars@ == entry@,
        call_ensures(split_entries, (chars, ','), parts),
        call_ensures(UserSpec::from_str, (entry,), r),
        0 <= k < parts@.len() - 1,
    ensures
        r matches Ok(user) ==> {
            &&& user.mxid.full@ == parts@[0]@
            &&& user.homeserver_url@ == "https://"@ + user.mxid.server_name@
            &&& user.username@ == user.mxid.localpart@
            &&& user.mxid.full@ == seq!['@'] + user.mxid.localpart@ + seq![':']
                + user.mxid.server_name@
            &&& !user.mxid.localpart@.contains(':')
            &&& user.peers@.len() == parts@.len() - 1
            &&& user.peers@[k].full@ == parts@[k + 1]@
            &&& user.peers@[k].full@ == seq!['@'] + user.peers@[k].localpart@ + seq![':']
                + user.peers@[k].server_name@
            &&& !user.peers@[k].localpart@.contains(':')
        },
{
    let texts = parts.deep_view();
    if r is Ok {
        let user = r->Ok_0;
        mxid_is_its_parts(user.mxid);
        assert(texts[0] == parts@[0]@);
        let peers = mxid_texts(user.peers@);
        assert(peers == texts.skip(1));
        assert(peers.len() == user.peers@.len());
        assert(peers[k] == texts[k + 1]);
        assert(texts[k + 1] == parts@[k + 1]@);
        mxid_is_its_parts(user.peers@[k]);
    }
}

/// So it is where the entry is a single ID.
pub proof fn single_ids_are_entries(
    entry: &str,
    chars: &Vec<char>,
    parts: Vec<Vec<char>>,
    r: Result<UserSpec, String>,
)
    requires
        chars@ == entry@,
        call_ensures(split_entries, (chars, ','), parts),
        call_ensures(UserSpec::from_str, (entry,), r),
    ensures
        r matches Ok(user) ==> {
            &&& parts@.len() > 0
            &&& user.mxid.full@ == parts@[0]@
            &&& user.homeserver_url@ == "https://"@ + user.mxid.server_name@
            &&& user.username@ == user.mxid.localpart@
            &&& user.peers@.len() == parts@.len() - 1
        },
        parts@.len() == 0 ==> (r matches Err(e) && e@ == "Empty entry in USERS"@),
{
    let texts = parts.deep_view();
    assert(texts.len() == parts@.len());
    if r is Ok {
        let user = r->Ok_0;
        assert(texts[0] == parts@[0]@);
        assert(mxid_texts(user.peers@).len() == user.peers@.len());
    }
}

proof fn lemma_first_fault(parts: Seq<Seq<char>>, from: int)
    requires
        0 <= from <= parts.len(),
    ensures
        from <= first_fault(parts, from) <= parts.len(),
        first_fault(parts, from) < parts.len() ==> mxid_fault(
            parts[first_fault(parts, from)],
        ) is Some,
        forall|i: int|
            from <= i < first_fault(parts, from) ==> mxid_fault(#[trigger] parts[i]) is None,
    decreases parts.len() - from,
{
    if from < parts.len() && mxid_fault(parts[from]) is None {
        lemma_first_fault(parts, from + 1);
    }
}

/// An entry whose first text is no ID is refused, and the error quotes the text.
/// An entry with a text that is none is refused whatever its place is; a refused
/// entry that holds texts has one that is none.
pub proof fn entries_hold_ids_only(
    entry: &str,
    chars: &Vec<char>,
    parts: Vec<Vec<char>>,
    r: Result<UserSpec, String>,
    k: int,
    part: &str,
    p: Result<Mxid, String>,
)
    requires
        chars@ == entry@,
        call_ensures(split_entries, (chars, ','), parts),
        call_ensures(UserSpec::from_str, (entry,), r),
        0 <= k < parts@.len(),
        part@ == parts@[k]@,
        call_ensures(Mxid::parse, (part,), p),
    ensures
        p is Err ==> r is Err,
        p matches Err(why) ==> (k == 0 ==> (r matches Err(e) && e@ == "Invalid MXID in USERS: "@
            + debug_form(part@) + ": "@ + why@)),
        r is Err ==> exists|j: int|
            0 <= j < parts@.len() && (forall|text: &str, q: Result<Mxid, String>|
                text@ == (#[trigger] parts@[j])@ && #[trigger] call_ensures(Mxid::parse, (text,), q)
                    ==> q is Err),
{
    let texts = parts.deep_view();
    lemma_first_fault(texts, 0);
    assert(texts.len() == parts@.len());
    assert(texts[k] == parts@[k]@);
    if r is Err {
        let bad = first_fault(texts, 0);
        assert(bad < texts.len());
        assert(texts[bad] == parts@[bad]@);
        assert(forall|text: &str, q: Result<Mxid, String>|
            text@ == parts@[bad]@ && #[trigger] call_ensures(Mxid::parse, (text,), q) ==> q is Err);
    }
}

/// Whether no text before the one at `j` is refused and that one is, for the given
/// reason.
pub open spec fn is_first_refused(parts: Seq<Vec<char>>, j: int, why: Seq<char>) -> bool {
    &&& 0 <= j < parts.len()
    &&& forall|text: &str, q: Result<Mxid, String>|
        text@ == parts[j]@ && #[trigger] call_ensures(Mxid::parse, (text,), q) ==> (q matches Err(e)
            && e@ == why)
    &&& forall|i: int, text: &str, q: Result<Mxid, String>|
        #![trigger parts[i], call_ensures(Mxid::parse, (text,), q)]
        0 <= i < j && text@ == parts[i]@ && call_ensures(Mxid::parse, (text,), q) ==> q is Ok
}

/// The error of a refused entry is about the first text that is no ID. It quotes
/// the text and gives the reason; that of a peer names the user, too.
pub proof fn first_refused_text_is_quoted(
    entry: &str,
    chars: &Vec<char>,
    parts: Vec<Vec<char>>,
    r: Result<UserSpec, String>,
)
    requires
        chars@ == entry@,
        call_ensures(split_entries, (chars, ','), parts),
        call_ensures(UserSpec::from_str, (entry,), r),
        parts@.len() > 0,
    ensures
        r matches Err(e) ==> exists|j: int, why: Seq<char>| #[trigger]
            is_first_refused(parts@, j, why) && e@ == (if j == 0 {
                "Invalid MXID in USERS: "@ + debug_form(parts@[0]@) + ": "@ + why
            } else {
                "Invalid peer MXID in USERS entry for "@ + parts@[0]@ + ": "@ + debug_form(
                    parts@[j]@,
                ) + ": "@ + why
            }),
{
    let texts = parts.deep_view();
    assert(texts.len() == parts@.len());
    assert(texts[0] == parts@[0]@);
    lemma_first_fault(texts, 0);
    if r is Err {
        let j = first_fault(texts, 0);
        let why = mxid_fault(texts[j])->0;
        assert(texts[j] == parts@[j]@);
        assert forall|i: int, text: &str, q: Result<Mxid, String>|
            #![trigger parts@[i], call_ensures(Mxid::parse, (text,), q)]
            0 <= i < j && text@ == parts@[i]@ && call_ensures(Mxid::parse, (text,), q) implies q is Ok by {
            assert(texts[i] == parts@[i]@);
        }
        assert(is_first_refused(parts@, j, why));
    }
}

proof fn lemma_first_bad(words: Seq<Seq<char>>, from: int)
    requires
        0 <= from <= words.len(),
    ensures
        from <= first_bad_entry(words, from) <= words.len(),
        first_bad_entry(words, from) < words.len() ==> entry_fault(
            entry_parts(words[first_bad_entry(words, from)]),
        ) is Some,
        forall|i: int|
            from <= i < first_bad_entry(words, from) ==> entry_fault(
                entry_parts(#[trigger] words[i]),
            ) is None,
    decreases words.len() - from,
{
    if from < words.len() && entry_fault(entry_parts(words[from])) is None {
        lemma_first_bad(words, from + 1);
    }
}

/// The users of a list are those of its words, in their order. A list is refused
/// if it has no words or a word is refused, for the reason of the first one.
pub proof fn lists_name_users_in_order(
    raw: &str,
    chars: &Vec<char>,
    words: Vec<Vec<char>>,
    r: Result<Vec<UserSpec>, String>,
    k: int,
    word: &str,
    one: Result<UserSpec, String>,
)
    requires
        chars@ == raw@,
        call_ensures(split_whitespace, (chars,), words),
        call_ensures(parse_users, (raw,), r),
        0 <= k < words@.len(),
        word@ == words@[k]@,
        call_ensures(UserSpec::from_str, (word,), one),
    ensures
        r is Ok ==> one is Ok,
        one matches Err(e) ==> (k == 0 ==> (r matches Err(f) && f@ == e@)),
        r matches Ok(users) ==> {
            &&& users@.len() == words@.len()
            &&& one matches Ok(user) ==> {
                &&& users@[k].mxid.full@ == user.mxid.full@
                &&& users@[k].mxid.localpart@ == user.mxid.localpart@
                &&& users@[k].mxid.server_name@ == user.mxid.server_name@
                &&& users@[k].homeserver_url@ == user.homeserver_url@
                &&& users@[k].username@ == user.username@
                &&& users@[k].peers@.len() == user.peers@.len()
                &&& forall|j: int|
                    0 <= j < user.peers@.len() ==> #[trigger] users@[k].peers@[j].full@
                        == user.peers@[j].full@
            }
        },
{
    let texts = words.deep_view();
    assert(texts.len() == words@.len());
    assert(texts[k] == words@[k]@);
    lemma_first_bad(texts, 0);
    if r is Ok && one is Ok {
        let user = one->Ok_0;
        let ours = r->Ok_0@[k];
        assert(ours.is_entry(entry_parts(texts[k])));
        let a = mxid_texts(ours.peers@);
        let b = mxid_texts(user.peers@);
        assert(a == b);
        assert(a.len() == ours.peers@.len() && b.len() == user.peers@.len());
        assert forall|j: int| 0 <= j < user.peers@.len() implies #[trigger] ours.peers@[j].full@
            == user.peers@[j].full@ by {
            assert(a[j] == b[j]);
        }
    }
}

/// Whether no word before the one at `j` is refused and that one is, with the given
/// error.
pub open spec fn is_first_refused_word(words: Seq<Vec<char>>, j: int, error: Seq<char>) -> bool {
    &&& 0 <= j < words.len()
    &&& forall|word: &str, q: Result<UserSpec, String>|
        word@ == words[j]@ && #[trigger] call_ensures(UserSpec::from_str, (word,), q) ==> (
        q matches Err(e) && e@ == error)
    &&& forall|i: int, word: &str, q: Result<UserSpec, String>|
        #![trigger words[i], call_ensures(UserSpec::from_str, (word,), q)]
        0 <= i < j && word@ == words[i]@ && call_ensures(UserSpec::from_str, (word,), q) ==> q is Ok
}

/// The error of a refused list is that of the first word that is refused.
pub proof fn first_refused_word_decides(
    raw: &str,
    chars: &Vec<char>,
    words: Vec<Vec<char>>,
    r: Result<Vec<UserSpec>, String>,
)
    requires
        chars@ == raw@,
        call_ensures(split_whitespace, (chars,), words),
        call_ensures(parse_users, (raw,), r),
        words@.len() > 0,
    ensures
        r matches Err(e) ==> exists|j: int| #[trigger] is_first_refused_word(words@, j, e@),
{
    let texts = words.deep_view();
    assert(texts.len() == words@.len());
    lemma_first_bad(texts, 0);
    if let Err(e) = r {
        let j = first_bad_entry(texts, 0);
        assert(texts[j] == words@[j]@);
        assert forall|i: int, word: &str, q: Result<UserSpec, String>|
            #![trigger words@[i], call_ensures(UserSpec::from_str, (word,), q)]
            0 <= i < j && word@ == words@[i]@ && call_ensures(
                UserSpec::from_str,
                (word,),
                q,
            ) implies q is Ok by {
            assert(texts[i] == words@[i]@);
        }
        assert(is_first_refused_word(words@, j, e@));
    }
}

/// A list without words is refused.
pub proof fn lists_have_words(
    raw: &str,
    chars: &Vec<char>,
    words: Vec<Vec<char>>,
    r: Result<Vec<UserSpec>, String>,
)
    requires
        chars@ == raw@,
        call_ensures(split_whitespace, (chars,), words),
        call_ensures(parse_users, (raw,), r),
    ensures
        words@.len() == 0 ==> (r matches Err(e) && e@ == "Empty entry in USERS"@),
        r matches Ok(users) ==> users@.len() == words@.len() && users@.len() > 0,
{
    assert(words.deep_view().len() == words@.len());
}

// ── Servers ─────────────────────────────────────────────────────────────

/// The servers are those of the users and their peers, each once.
pub proof fn servers_are_listed_once(
    users: &Vec<UserSpec>,
    r: Vec<String>,
    name: Seq<char>,
)
    requires
        call_ensures(local_servers, (users,), r),
    ensures
        (exists|k: int| 0 <= k < r@.len() && (#[trigger] r@[k])@ == name) <==> (exists|i: int|
            0 <= i < users@.len() && ((#[trigger] users@[i]).mxid.server_name@ == name || exists|
                j: int,
            |
                0 <= j < users@[i].peers@.len() && (#[trigger] users@[i].peers@[j]).server_name@
                    == name)),
        forall|k: int, l: int|
            0 <= k < l < r@.len() ==> (#[trigger] r@[k])@ != (#[trigger] r@[l])@,
{
    assert(among(r@, name) <==> has_server(users@, name));
    if has_server(users@, name) {
        let i = choose|i: int| 0 <= i < users@.len() && user_has_server(#[trigger] users@[i], name);
        assert(user_has_server(users@[i], name));
    }
    assert forall|i: int|
        0 <= i < users@.len() && ((#[trigger] users@[i]).mxid.server_name@ == name || exists|
            j: int,
        |
            0 <= j < users@[i].peers@.len() && (#[trigger] users@[i].peers@[j]).server_name@
                == name) implies has_server(users@, name) by {
        assert(user_has_server(users@[i], name));
    }
}

// ── Printing credentials ────────────────────────────────────────────────

proof fn lemma_two_peers(a: Seq<char>, b: Seq<char>)
    ensures
        comma_joined(Seq::<Seq<char>>::empty()) == Seq::<char>::empty(),
        comma_joined(seq![a]) == a,
        comma_joined(seq![a, b]) == a + ","@ + b,
{
    let two = seq![a, b];
    assert(two.drop_last() =~= seq![a]);
    assert(comma_joined(two) == comma_joined(two.drop_last()) + ","@ + two.last());
}

/// The line tells the ID, the password (or the token secret where there is none,
/// or nothing where there is neither), the recovery passphrase and the peers.
pub proof fn credentials_are_told(
    auth: &AuthConfig,
    user: &UserSpec,
    r: String,
    id: &str,
    server: &str,
    password: Option<String>,
    secret: Option<String>,
    passphrase: String,
)
    requires
        id@ == user.mxid.full@,
        server@ == user.mxid.server_name@,
        call_ensures(credentials_line, (auth, user), r),
        call_ensures(AuthConfig::account_password, (auth, id), password),
        call_ensures(AuthConfig::resolve_sta_secret, (auth, server), secret),
        call_ensures(AuthConfig::recovery_passphrase, (auth, id), passphrase),
        user.peers@.len() <= 2,
    ensures
        ({
            let first = match (password, secret) {
                (Some(text), _) => text@,
                (None, Some(text)) => text@,
                (None, None) => Seq::empty(),
            };
            let peers = if user.peers@.len() == 0 {
                Seq::empty()
            } else if user.peers@.len() == 1 {
                user.peers@[0].full@
            } else {
                user.peers@[0].full@ + ","@ + user.peers@[1].full@
            };
            r@ == user.mxid.full@ + " "@ + first + " "@ + passphrase@ + " peers=["@ + peers + "]"@
        }),
{
    let texts = mxid_texts(user.peers@);
    lemma_two_peers(user.peers@[0].full@, user.peers@[1].full@);
    if user.peers@.len() == 0 {
        assert(texts =~= Seq::<Seq<char>>::empty());
    } else if user.peers@.len() == 1 {
        assert(texts =~= seq![user.peers@[0].full@]);
    } else {
        assert(texts =~= seq![user.peers@[0].full@, user.peers@[1].full@]);
    }
}

/// A further peer is told behind the others, after a comma.
pub proof fn further_peers_come_last(
    auth: &AuthConfig,
    user: &UserSpec,
    longer: &UserSpec,
    peer: Mxid,
    r: String,
    s: String,
)
    requires
        call_ensures(credentials_line, (auth, user), r),
        call_ensures(credentials_line, (auth, longer), s),
        longer.mxid == user.mxid,
        user.peers@.len() > 0,
        longer.peers@ == user.peers@.push(peer),
    ensures
        s@ == r@.drop_last() + ","@ + peer.full@ + "]"@,
{
    reveal_strlit("]");
    let a = mxid_texts(user.peers@);
    let b = mxid_texts(longer.peers@);
    assert(b.drop_last() =~= a);
    assert(b.last() == peer.full@);
    assert(comma_joined(b) == comma_joined(a) + ","@ + peer.full@);
    assert(s@ =~= r@.drop_last() + ","@ + peer.full@ + "]"@);
}

/// Users that were read, from a list or one by one, can be compared.
pub proof fn users_can_be_compared(
    s: &str,
    a: Mxid,
    t: &str,
    b: Mxid,
    entry: &str,
    user: UserSpec,
    i: int,
)
    requires
        call_ensures(Mxid::parse, (s,), Ok(a)),
        call_ensures(Mxid::from_text, (t,), Some(b)),
        call_ensures(UserSpec::from_str, (entry,), Ok(user)),
    ensures
        call_requires(Distance::from_mxids, (&a, &b)),
        call_requires(Distance::from_mxids, (&user.mxid, &b)),
        0 <= i < user.peers@.len() ==> call_requires(
            Distance::from_mxids,
            (&user.mxid, &user.peers@[i]),
        ),
{
}

} // verus!
