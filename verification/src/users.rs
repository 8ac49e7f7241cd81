//! User IDs and the users that the program plays.
use crate::auth::derived_secret;
use crate::auth::AuthConfig;
use crate::text::chars_of;
use crate::text::debug_form;
use crate::text::find;
use crate::text::find_char;
use crate::text::joined;
use crate::text::lemma_find;
use crate::text::quoted;
use crate::text::split_entries;
use crate::text::split_on;
use crate::text::split_whitespace;
use crate::text::text_between;
use crate::text::text_of;
use crate::text::text_option;
use crate::text::trimmed_entries;
use crate::text::words_of;
use vstd::prelude::*;

verus! {

// ── User IDs ────────────────────────────────────────────────────────────

/// What `ruma::UserId` has against a text: nothing, or the text of the error.
pub uninterp spec fn mxid_fault(s: Seq<char>) -> Option<Seq<char>>;

/// Whether a text begins with `@` and holds a colon.
pub open spec fn has_mxid_form(s: Seq<char>) -> bool {
    s.len() > 0 && s[0] == '@' && s.contains(':')
}

/// The conversion of `str` to `ruma::UserId`, which the text determines. A text
/// that is accepted begins with `@` and holds a colon.
#[verifier::external_body]
fn find_mxid_fault(s: &str) -> (r: Option<String>)
    ensures
        text_option(r) == mxid_fault(s@),
        r is None ==> has_mxid_form(s@),
{
    match <&ruma::UserId>::try_from(s) {
        Ok(_) => None,
        Err(e) => Some(e.to_string()),
    }
}

/// A user ID.
#[derive(Debug)]
pub struct Mxid {
    /// The whole ID.
    pub full: String,
    /// What stands between `@` and the first colon.
    pub localpart: String,
    /// What stands after the first colon.
    pub server_name: String,
}

/// The local part of a user ID.
pub open spec fn localpart_of(s: Seq<char>) -> Seq<char> {
    s.subrange(1, find(s, ':'))
}

/// The server name of a user ID.
pub open spec fn server_name_of(s: Seq<char>) -> Seq<char> {
    s.skip(find(s, ':') + 1)
}

impl View for Mxid {
    type V = Seq<char>;

    open spec fn view(&self) -> Seq<char> {
        self.full@
    }
}

impl Mxid {
    /// The ID has the form of one, and the parts are those of the ID.
    pub open spec fn valid(self) -> bool {
        &&& has_mxid_form(self.full@)
        &&& self.localpart@ == localpart_of(self.full@)
        &&& self.server_name@ == server_name_of(self.full@)
    }

    /// The user ID that a text spells, or the text of the error.
    pub fn parse(s: &str) -> (r: Result<Self, String>)
        ensures
            match r {
                Ok(mxid) => mxid.valid() && mxid@ == s@ && mxid_fault(s@) is None,
                Err(e) => mxid_fault(s@) == Some(e@),
            },
    {
        match find_mxid_fault(s) {
            Some(e) => Err(e),
            None => Ok(Mxid::from_parts_of(s)),
        }
    }

    /// The user ID that a text has the form of, whether or not its parts are
    /// allowed in one.
    pub fn from_text(s: &str) -> (r: Option<Self>)
        ensures
            match r {
                Some(mxid) => has_mxid_form(s@) && mxid.valid() && mxid@ == s@,
                None => !has_mxid_form(s@),
            },
    {
        let chars = chars_of(s);
        let colon: usize = find_char(&chars, ':');
        proof {
            lemma_find(s@, ':');
        }
        if chars.len() > 0 && chars[0] == '@' && colon < chars.len() {
            Some(Mxid::from_parts_of(s))
        } else {
            None
        }
    }

    fn from_parts_of(s: &str) -> (r: Self)
        requires
            has_mxid_form(s@),
        ensures
            r.valid(),
            r@ == s@,
    {
        let chars = chars_of(s);
        let end: usize = chars.len();
        let colon: usize = find_char(&chars, ':');
        proof {
            lemma_find(s@, ':');
            let i = choose|i: int| 0 <= i < s@.len() && s@[i] == ':';
            assert(s@[i] == ':');
            assert(colon <= i);
            assert(colon < end);
            assert(s@[colon as int] == ':');
            assert(colon > 0);
        }
        let localpart = text_between(&chars, 1, colon);
        let server_name = text_between(&chars, colon + 1, end);
        assert(server_name@ =~= server_name_of(s@));
        Mxid { full: s.to_owned(), localpart, server_name }
    }
}

/// A user ID is the local part and the server name in their places.
pub proof fn mxid_is_its_parts(mxid: Mxid)
    requires
        mxid.valid(),
    ensures
        mxid@ == seq!['@'] + mxid.localpart@ + seq![':'] + mxid.server_name@,
        !mxid.localpart@.contains(':'),
{
    let s = mxid@;
    lemma_find(s, ':');
    let colon = find(s, ':');
    assert(s =~= seq!['@'] + mxid.localpart@ + seq![':'] + mxid.server_name@);
    assert forall|i: int| 0 <= i < mxid.localpart@.len() implies mxid.localpart@[i] != ':' by {
        assert(mxid.localpart@[i] == s[i + 1]);
    }
}

// ── Distance ────────────────────────────────────────────────────────────

/// How far a message has come.
#[derive(Debug, Clone, Copy, PartialEq, Eq, Structural)]
pub enum Distance {
    /// The sender is the same account.
    SameUser,
    /// The sender is another account of the same homeserver.
    SameServer,
    /// The sender is an account of another homeserver.
    Federated,
}

impl Distance {
    /// The distance between two users.
    pub open spec fn between(ours: Seq<char>, sender: Seq<char>) -> Distance {
        if ours == sender {
            Distance::SameUser
        } else if server_name_of(ours) == server_name_of(sender) {
            Distance::SameServer
        } else {
            Distance::Federated
        }
    }

    /// The distance between our user and the sender of a message.
    pub fn from_mxids(our_user_id: &Mxid, sender_user_id: &Mxid) -> (r: Self)
        requires
            our_user_id.valid(),
            sender_user_id.valid(),
        ensures
            r == Distance::between(our_user_id@, sender_user_id@),
    {
        if our_user_id.full == sender_user_id.full {
            Distance::SameUser
        } else if our_user_id.server_name == sender_user_id.server_name {
            Distance::SameServer
        } else {
            Distance::Federated
        }
    }

    /// The name in reports.
    pub open spec fn text(self) -> Seq<char> {
        match self {
            Distance::SameUser => "same_user"@,
            Distance::SameServer => "same_server"@,
            Distance::Federated => "federated"@,
        }
    }

    /// The name in reports.
    pub fn name(&self) -> (r: &'static str)
        ensures
            r@ == self.text(),
    {
        match self {
            Distance::SameUser => "same_user",
            Distance::SameServer => "same_server",
            Distance::Federated => "federated",
        }
    }
}

/// The distance is the same in both directions.
pub proof fn distance_is_symmetric(a: Seq<char>, b: Seq<char>)
    ensures
        Distance::between(a, b) == Distance::between(b, a),
        Distance::between(a, a) == Distance::SameUser,
{
}

// ── Configured users ────────────────────────────────────────────────────

/// A user to log in as.
#[derive(Debug)]
pub struct UserSpec {
    pub mxid: Mxid,
    /// Address of the homeserver.
    pub homeserver_url: String,
    /// Local part of the ID.
    pub username: String,
    /// The users to have direct rooms with.
    pub peers: Vec<Mxid>,
}

/// The texts of user IDs.
pub open spec fn mxid_texts(ids: Seq<Mxid>) -> Seq<Seq<char>> {
    ids.map_values(|id: Mxid| id@)
}

/// The position of the first text from `from` on that is no user ID.
pub open spec fn first_fault(parts: Seq<Seq<char>>, from: int) -> int
    decreases parts.len() - from,
{
    if from >= parts.len() {
        parts.len() as int
    } else if mxid_fault(parts[from]) is Some {
        from
    } else {
        first_fault(parts, from + 1)
    }
}

/// What is wrong with an entry, if anything.
pub open spec fn entry_fault(parts: Seq<Seq<char>>) -> Option<Seq<char>> {
    if parts.len() == 0 {
        Some("Empty entry in USERS"@)
    } else {
        let bad = first_fault(parts, 0);
        if bad == parts.len() {
            None
        } else if bad == 0 {
            Some(
                "Invalid MXID in USERS: "@ + debug_form(parts[0]) + ": "@ + mxid_fault(parts[0])->0,
            )
        } else {
            Some(
                "Invalid peer MXID in USERS entry for "@ + parts[0] + ": "@ + debug_form(parts[bad])
                    + ": "@ + mxid_fault(parts[bad])->0,
            )
        }
    }
}

/// The user IDs in an entry: the texts between commas, trimmed, without those
/// that are then empty.
pub open spec fn entry_parts(entry: Seq<char>) -> Seq<Seq<char>> {
    trimmed_entries(split_on(entry, ','))
}

impl UserSpec {
    /// Address and user name are those of the ID.
    pub open spec fn valid(self) -> bool {
        &&& self.mxid.valid()
        &&& self.homeserver_url@ == "https://"@ + self.mxid.server_name@
        &&& self.username@ == self.mxid.localpart@
        &&& forall|i: int| 0 <= i < self.peers@.len() ==> (#[trigger] self.peers@[i]).valid()
    }

    /// Whether this is the user that an entry stands for: the first ID is the
    /// user, the others are its peers.
    pub open spec fn is_entry(self, parts: Seq<Seq<char>>) -> bool {
        &&& self.valid()
        &&& parts.len() > 0
        &&& self.mxid@ == parts[0]
        &&& mxid_texts(self.peers@) == parts.skip(1)
    }

    /// The user that an entry stands for, or the text of the error.
    pub fn from_str(entry: &str) -> (r: Result<Self, String>)
        ensures
            match r {
                Ok(user) => entry_fault(entry_parts(entry@)) is None && user.is_entry(
                    entry_parts(entry@),
                ),
                Err(e) => entry_fault(entry_parts(entry@)) == Some(e@),
            },
    {
        let parts = split_entries(&chars_of(entry), ',');
        let ghost texts = parts.deep_view();
        if parts.len() == 0 {
            return Err("Empty entry in USERS".to_owned());
        }
        let mxid_text = text_of(&parts[0]);
        assert(texts[0] =~= parts@[0]@);
        let mxid = match Mxid::parse(mxid_text.as_str()) {
            Ok(mxid) => mxid,
            Err(e) => {
                let mut out = joined(
                    "Invalid MXID in USERS: ",
                    quoted(mxid_text.as_str()).as_str(),
                );
                out.append(": ");
                out.append(e.as_str());
                return Err(out);
            },
        };
        let mut peers: Vec<Mxid> = Vec::new();
        let mut i: usize = 1;
        assert(mxid_texts(peers@) =~= texts.subrange(1, 1));
        while i < parts.len()
            invariant
                1 <= i <= parts@.len(),
                texts == parts.deep_view(),
                texts == entry_parts(entry@),
                texts[0] == mxid_text@,
                mxid_texts(peers@) == texts.subrange(1, i as int),
                first_fault(texts, 0) == first_fault(texts, i as int),
                forall|k: int| 0 <= k < peers@.len() ==> (#[trigger] peers@[k]).valid(),
            decreases parts@.len() - i,
        {
            let text = text_of(&parts[i]);
            assert(texts[i as int] =~= parts@[i as int]@);
            match Mxid::parse(text.as_str()) {
                Ok(peer) => {
                    let ghost before = peers@;
                    peers.push(peer);
                    assert(mxid_texts(peers@) =~= mxid_texts(before).push(peer@));
                    assert(texts.subrange(1, i + 1) =~= texts.subrange(1, i as int).push(
                        texts[i as int],
                    ));
                },
                Err(e) => {
                    let mut out = joined(
                        "Invalid peer MXID in USERS entry for ",
                        mxid_text.as_str(),
                    );
                    out.append(": ");
                    out.append(quoted(text.as_str()).as_str());
                    out.append(": ");
                    out.append(e.as_str());
                    return Err(out);
                },
            }
            i = i + 1;
        }
        assert(texts.skip(1) =~= texts.subrange(1, texts.len() as int));
        let homeserver_url = joined("https://", mxid.server_name.as_str());
        let username = mxid.localpart.clone();
        Ok(UserSpec { mxid, homeserver_url, username, peers })
    }
}

/// The position of the first faulty entry from `from` on.
pub open spec fn first_bad_entry(words: Seq<Seq<char>>, from: int) -> int
    decreases words.len() - from,
{
    if from >= words.len() {
        words.len() as int
    } else if entry_fault(entry_parts(words[from])) is Some {
        from
    } else {
        first_bad_entry(words, from + 1)
    }
}

/// The users that a list stands for: entries separated by white space. The
/// first faulty entry decides, and a list without entries is one.
pub fn parse_users(raw: &str) -> (r: Result<Vec<UserSpec>, String>)
    ensures
        match r {
            Ok(users) => {
                &&& words_of(raw@).len() > 0
                &&& first_bad_entry(words_of(raw@), 0) == words_of(raw@).len()
                &&& users@.len() == words_of(raw@).len()
                &&& forall|i: int|
                    0 <= i < users@.len() ==> (#[trigger] users@[i]).is_entry(
                        entry_parts(words_of(raw@)[i]),
                    )
            },
            Err(e) => if words_of(raw@).len() == 0 {
                e@ == "Empty entry in USERS"@
            } else {
                let bad = first_bad_entry(words_of(raw@), 0);
                bad < words_of(raw@).len() && entry_fault(entry_parts(words_of(raw@)[bad])) == Some(
                    e@,
                )
            },
        },
{
    let words = split_whitespace(&chars_of(raw));
    let ghost texts = words.deep_view();
    if words.len() == 0 {
        return Err("Empty entry in USERS".to_owned());
    }
    let mut users: Vec<UserSpec> = Vec::new();
    let mut i: usize = 0;
    while i < words.len()
        invariant
            i <= words@.len(),
            texts == words.deep_view(),
            texts == words_of(raw@),
            words@.len() > 0,
            users@.len() == i,
            first_bad_entry(texts, 0) == first_bad_entry(texts, i as int),
            forall|k: int|
                0 <= k < users@.len() ==> (#[trigger] users@[k]).is_entry(entry_parts(texts[k])),
        decreases words@.len() - i,
    {
        let entry = text_of(&words[i]);
        assert(texts[i as int] =~= words@[i as int]@);
        match UserSpec::from_str(entry.as_str()) {
            Ok(user) => users.push(user),
            Err(e) => return Err(e),
        }
        i = i + 1;
    }
    Ok(users)
}

// ── Servers ─────────────────────────────────────────────────────────────

/// Whether a server is that of a user or of one of its peers.
pub open spec fn user_has_server(user: UserSpec, server: Seq<char>) -> bool {
    ||| user.mxid.server_name@ == server
    ||| exists|i: int|
        0 <= i < user.peers@.len() && (#[trigger] user.peers@[i]).server_name@ == server
}

/// Whether a server is that of some user or peer.
pub open spec fn has_server(users: Seq<UserSpec>, server: Seq<char>) -> bool {
    exists|i: int| 0 <= i < users.len() && user_has_server(#[trigger] users[i], server)
}

/// Whether a text is among the given ones.
pub open spec fn among(texts: Seq<String>, text: Seq<char>) -> bool {
    exists|i: int| 0 <= i < texts.len() && (#[trigger] texts[i])@ == text
}

/// Whether no two texts are the same.
pub open spec fn all_distinct(texts: Seq<String>) -> bool {
    forall|i: int, j: int| 0 <= i < j < texts.len() ==> (#[trigger] texts[i])@ != (#[trigger] texts[j])@
}

fn add_server(servers: &mut Vec<String>, server: &String)
    requires
        all_distinct(old(servers)@),
    ensures
        all_distinct(final(servers)@),
        forall|s: Seq<char>| #[trigger]
            among(final(servers)@, s) <==> among(old(servers)@, s) || s == server@,
{
    let mut i: usize = 0;
    while i < servers.len()
        invariant
            i <= servers@.len(),
            servers@ == old(servers)@,
            all_distinct(servers@),
            forall|k: int| 0 <= k < i ==> (#[trigger] servers@[k])@ != server@,
        decreases servers@.len() - i,
    {
        if servers[i] == *server {
            assert(among(servers@, server@));
            return;
        }
        i = i + 1;
    }
    let ghost before = servers@;
    servers.push(server.clone());
    assert forall|s: Seq<char>| #[trigger]
        among(servers@, s) <==> among(before, s) || s == server@ by {
        if among(before, s) {
            let k = choose|k: int| 0 <= k < before.len() && (#[trigger] before[k])@ == s;
            assert(servers@[k]@ == s);
        }
        if s == server@ {
            assert(servers@[before.len() as int]@ == s);
        }
        if among(servers@, s) {
            let k = choose|k: int| 0 <= k < servers@.len() && (#[trigger] servers@[k])@ == s;
            if k < before.len() {
                assert(before[k]@ == s);
            }
        }
    }
}

fn add_user_servers(servers: &mut Vec<String>, user: &UserSpec)
    requires
        all_distinct(old(servers)@),
    ensures
        all_distinct(final(servers)@),
        forall|s: Seq<char>| #[trigger]
            among(final(servers)@, s) <==> among(old(servers)@, s) || user_has_server(*user, s),
{
    let ghost before = servers@;
    add_server(servers, &user.mxid.server_name);
    let mut j: usize = 0;
    while j < user.peers.len()
        invariant
            j <= user.peers@.len(),
            all_distinct(servers@),
            forall|s: Seq<char>| #[trigger]
                among(servers@, s) <==> among(before, s) || user.mxid.server_name@ == s || (exists|
                    k: int,
                |
                    0 <= k < j && (#[trigger] user.peers@[k]).server_name@ == s),
        decreases user.peers@.len() - j,
    {
        let ghost earlier = servers@;
        add_server(servers, &user.peers[j].server_name);
        assert forall|s: Seq<char>| #[trigger]
            among(servers@, s) <==> among(before, s) || user.mxid.server_name@ == s || (exists|
                k: int,
            |
                0 <= k < j + 1 && (#[trigger] user.peers@[k]).server_name@ == s) by {
            if s == user.peers@[j as int].server_name@ {
                assert(user.peers@[j as int].server_name@ == s);
            }
        }
        j = j + 1;
    }
}

/// The servers of all users and their peers, each once.
pub fn local_servers(users: &Vec<UserSpec>) -> (r: Vec<String>)
    ensures
        all_distinct(r@),
        forall|s: Seq<char>| #[trigger] among(r@, s) <==> has_server(users@, s),
{
    let mut servers: Vec<String> = Vec::new();
    let mut i: usize = 0;
    while i < users.len()
        invariant
            i <= users@.len(),
            all_distinct(servers@),
            forall|s: Seq<char>| #[trigger]
                among(servers@, s) <==> (exists|k: int|
                    0 <= k < i && user_has_server(#[trigger] users@[k], s)),
        decreases users@.len() - i,
    {
        let ghost earlier = servers@;
        add_user_servers(&mut servers, &users[i]);
        assert forall|s: Seq<char>| #[trigger]
            among(servers@, s) <==> (exists|k: int|
                0 <= k < i + 1 && user_has_server(#[trigger] users@[k], s)) by {
            if user_has_server(users@[i as int], s) {
                assert(user_has_server(users@[i as int], s));
            }
        }
        i = i + 1;
    }
    servers
}

// ── Printing credentials ────────────────────────────────────────────────

/// Texts with commas between them.
pub open spec fn comma_joined(texts: Seq<Seq<char>>) -> Seq<char>
    decreases texts.len(),
{
    if texts.len() == 0 {
        Seq::empty()
    } else if texts.len() == 1 {
        texts[0]
    } else {
        comma_joined(texts.drop_last()) + ","@ + texts.last()
    }
}

/// The line about a user: ID, password or else token secret or else nothing,
/// recovery passphrase, and peers.
pub open spec fn credentials_text(auth: AuthConfig, user: UserSpec) -> Seq<char> {
    let password = match (
        auth.password_of(user.mxid@),
        auth.sta_secret_for(user.mxid.server_name@),
    ) {
        (Some(password), _) => password,
        (None, Some(secret)) => secret,
        (None, None) => Seq::empty(),
    };
    user.mxid@ + " "@ + password + " "@ + derived_secret(auth.recovery_secret@, user.mxid@)
        + " peers=["@ + comma_joined(mxid_texts(user.peers@)) + "]"@
}

fn join_mxids(ids: &Vec<Mxid>) -> (r: String)
    ensures
        r@ == comma_joined(mxid_texts(ids@)),
{
    let ghost texts = mxid_texts(ids@);
    let mut out = String::new();
    let mut i: usize = 0;
    assert(out@ =~= comma_joined(texts.take(0)));
    while i < ids.len()
        invariant
            i <= ids@.len(),
            texts == mxid_texts(ids@),
            out@ == comma_joined(texts.take(i as int)),
        decreases ids@.len() - i,
    {
        if i > 0 {
            out.append(",");
        }
        out.append(ids[i].full.as_str());
        i = i + 1;
        assert(texts.take(i as int).drop_last() =~= texts.take(i - 1));
        assert(texts.take(i as int).last() == ids@[i - 1]@);
        assert(i == 1 ==> out@ =~= ids@[0]@);
    }
    assert(texts.take(texts.len() as int) =~= texts);
    out
}

/// The credentials of a user, for a manual login.
pub fn credentials_line(auth: &AuthConfig, user: &UserSpec) -> (r: String)
    ensures
        r@ == credentials_text(*auth, *user),
{
    let password = match auth.account_password(user.mxid.full.as_str()) {
        Some(password) => password,
        None => match auth.resolve_sta_secret(user.mxid.server_name.as_str()) {
            Some(secret) => secret,
            None => String::new(),
        },
    };
    assert(password@.len() == 0 ==> password@ =~= Seq::<char>::empty());
    let mut out = joined(user.mxid.full.as_str(), " ");
    out.append(password.as_str());
    out.append(" ");
    out.append(auth.recovery_passphrase(user.mxid.full.as_str()).as_str());
    out.append(" peers=[");
    out.append(join_mxids(&user.peers).as_str());
    out.append("]");
    out
}

} // verus!
