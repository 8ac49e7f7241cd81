use nerve::interval::IntervalRange;
use nerve::invites::{
    accepts_invite, accepts_room, add_local_servers, matches_invite_domain, parse_patterns,
    InviteDomainPattern,
};
use nerve::users::{local_servers, parse_users, Distance, Mxid, UserSpec};

fn mxid(s: &str) -> Mxid {
    Mxid::parse(s).unwrap()
}

#[test]
fn user_id_has_parts() {
    let id = mxid("@alice:hs1.example.com:8448");
    assert_eq!(id.full, "@alice:hs1.example.com:8448");
    assert_eq!(id.localpart, "alice");
    assert_eq!(id.server_name, "hs1.example.com:8448");
    let ruma = <&ruma::UserId>::try_from(id.full.as_str()).unwrap();
    assert_eq!(ruma.localpart(), id.localpart);
    assert_eq!(ruma.server_name().as_str(), id.server_name);
}

#[test]
fn texts_that_are_no_user_ids() {
    for s in ["", "alice:x", "@alice", "@alice:", "@al\0ice:x", "@alice:b@d"] {
        let expected = <&ruma::UserId>::try_from(s).unwrap_err().to_string();
        assert_eq!(Mxid::parse(s).unwrap_err(), expected, "{s:?}");
    }
}

#[test]
fn distances() {
    let alice = mxid("@alice:a.org");
    assert_eq!(Distance::from_mxids(&alice, &mxid("@alice:a.org")), Distance::SameUser);
    assert_eq!(Distance::from_mxids(&alice, &mxid("@bob:a.org")), Distance::SameServer);
    assert_eq!(Distance::from_mxids(&alice, &mxid("@alice:b.org")), Distance::Federated);
    for other in ["@alice:a.org", "@bob:a.org", "@alice:b.org"] {
        let other = mxid(other);
        assert_eq!(Distance::from_mxids(&alice, &other), Distance::from_mxids(&other, &alice));
    }
    assert_eq!(Distance::SameUser.name(), "same_user");
    assert_eq!(Distance::SameServer.name(), "same_server");
    assert_eq!(Distance::Federated.name(), "federated");
}

fn peers(user: &UserSpec) -> Vec<&str> {
    user.peers.iter().map(|p| p.full.as_str()).collect()
}

#[test]
fn users_from_a_list() {
    let users =
        parse_users("@alice:hs1.example.com,@bob:hs2.example.net\n\t@carol:hs1.example.com ").unwrap();
    assert_eq!(users.len(), 2);
    assert_eq!(users[0].mxid.full, "@alice:hs1.example.com");
    assert_eq!(users[0].homeserver_url, "https://hs1.example.com");
    assert_eq!(users[0].username, "alice");
    assert_eq!(peers(&users[0]), ["@bob:hs2.example.net"]);
    assert_eq!(users[1].mxid.full, "@carol:hs1.example.com");
    assert!(users[1].peers.is_empty());
    let user = UserSpec::from_str(" ,@a:x, ,@b:y ,@c:z,").unwrap();
    assert_eq!(user.mxid.full, "@a:x");
    assert_eq!(peers(&user), ["@b:y", "@c:z"]);
}

#[test]
fn errors_in_a_list_of_users() {
    assert_eq!(parse_users(" ").unwrap_err(), "Empty entry in USERS");
    assert_eq!(UserSpec::from_str(" , ").unwrap_err(), "Empty entry in USERS");
    assert_eq!(parse_users("@a:x ,").unwrap_err(), "Empty entry in USERS");
    let reason = Mxid::parse("al\"ice").unwrap_err();
    assert_eq!(
        UserSpec::from_str("al\"ice").unwrap_err(),
        format!("Invalid MXID in USERS: \"al\\\"ice\": {reason}")
    );
    let reason = Mxid::parse("bob").unwrap_err();
    assert_eq!(
        parse_users("@c:z @a:x,@b:x,bob,carol").unwrap_err(),
        format!("Invalid peer MXID in USERS entry for @a:x: \"bob\": {reason}")
    );
}

#[test]
fn servers_of_users_and_peers() {
    let users = parse_users("@a:x,@b:y @c:x,@d:z").unwrap();
    let mut servers = local_servers(&users);
    servers.sort();
    assert_eq!(servers, ["x", "y", "z"]);
    let mut patterns = parse_patterns(".example.com").unwrap();
    add_local_servers(&mut patterns, &users);
    for name in ["x", "y", "z", "a.example.com"] {
        assert!(matches_invite_domain(&patterns, name));
    }
    assert!(!matches_invite_domain(&patterns, "w"));
    assert!(!matches_invite_domain(&patterns, "a.x"));
}

// ── Patterns ────────────────────────────────────────────────────────────

fn matches_pattern(pattern: &str, name: &str) -> bool {
    InviteDomainPattern::from_str(pattern).unwrap().matches(name)
}

#[test]
fn exact_pattern() {
    assert!(matches_pattern(" example.com ", "example.com"));
    assert!(!matches_pattern("example.com", "a.example.com"));
    assert!(!matches_pattern("example.com", "Example.com"));
}

#[test]
fn dot_pattern() {
    assert!(matches_pattern(".example.com", "a.example.com"));
    assert!(matches_pattern(".example.com", "a.b.example.com"));
    assert!(!matches_pattern(".example.com", "example.com"));
    assert!(!matches_pattern(".example.com", "badexample.com"));
}

#[test]
fn wildcard_pattern() {
    assert!(matches_pattern("*.example.com", "a.example.com"));
    assert!(!matches_pattern("*.example.com", "a.b.example.com"));
    assert!(!matches_pattern("*.example.com", "example.com"));
    assert!(!matches_pattern("*.example.com", ".example.com"));
}

#[test]
fn empty_patterns() {
    for s in ["", "  ", ".", "*.", " *. "] {
        assert_eq!(InviteDomainPattern::from_str(s).unwrap_err(), "", "{s:?}");
    }
    assert!(matches_pattern("*", "*"));
    assert_eq!(parse_patterns("a,,b").unwrap_err(), "");
    let patterns = parse_patterns("matrix.org,.example.com,*.internal.net").unwrap();
    assert_eq!(patterns.len(), 3);
    assert!(matches_invite_domain(&patterns, "x.internal.net"));
    assert!(!matches_invite_domain(&[].into(), "x"));
}

#[test]
fn invitations() {
    let patterns = parse_patterns("a.org").unwrap();
    assert!(accepts_room(&patterns, Some("a.org")));
    assert!(!accepts_room(&patterns, Some("b.org")));
    assert!(!accepts_room(&patterns, None));
    assert!(accepts_invite(&patterns, "@me:x", "@me:x", Some("a.org")));
    assert!(!accepts_invite(&patterns, "@me:x", "@you:x", Some("a.org")));
    assert!(!accepts_invite(&patterns, "@me:x", "@me:x", Some("b.org")));
}

// ── Intervals ───────────────────────────────────────────────────────────

#[test]
fn intervals() {
    assert_eq!(IntervalRange::from_str("10"), Ok(IntervalRange { lo: 10, hi: 10 }));
    assert_eq!(IntervalRange::from_str(" 5 .. 15 "), Ok(IntervalRange { lo: 5, hi: 15 }));
    assert_eq!(IntervalRange::from_str("15..5"), Ok(IntervalRange { lo: 5, hi: 15 }));
    assert_eq!(IntervalRange::from_str("7..7"), Ok(IntervalRange { lo: 7, hi: 7 }));
}

#[test]
fn bad_intervals() {
    let error = |s: &str| IntervalRange::from_str(s).unwrap_err();
    assert_eq!(error(""), "bad interval value: cannot parse integer from empty string");
    assert_eq!(error("x..1"), "bad lower bound: invalid digit found in string");
    assert_eq!(error("1.."), "bad upper bound: cannot parse integer from empty string");
    assert_eq!(error("1...3"), "bad upper bound: invalid digit found in string");
    assert_eq!(
        error("18446744073709551616"),
        "bad interval value: number too large to fit in target type"
    );
}

#[test]
fn samples_stay_in_the_interval() {
    let range = IntervalRange { lo: 3, hi: 8 };
    let samples: Vec<u64> = (0..500).map(|_| range.sample()).collect();
    assert!(samples.iter().all(|s| (3..=8).contains(s)));
    assert!((3..=8).all(|s| samples.contains(&s)));
    assert_eq!(IntervalRange { lo: 4, hi: 4 }.sample(), 4);
}

#[test]
fn ids_by_their_form() {
    for text in ["", "@", "@a", "a:b", ":@", "@\u{e4}"] {
        assert!(Mxid::from_text(text).is_none(), "{text:?}");
    }
    for (text, localpart, server) in
        [("@a:b", "a", "b"), ("@:", "", ""), ("@A B:c:8448", "A B", "c:8448")]
    {
        let id = Mxid::from_text(text).unwrap();
        assert_eq!((&id.full[..], &id.localpart[..], &id.server_name[..]), (text, localpart, server));
    }
}
