//! Credentials and logins.
use crate::auth::derive_secret;
use crate::auth::derive_sta_secret;
use crate::auth::token_login;
use crate::auth::AuthConfig;
use crate::auth::AuthError;
use crate::auth::LoginError;
use crate::auth::LoginEvent;
use crate::auth::LoginStep;
use crate::clock::clock_gives;
use crate::crypto::base64_text;
use crate::crypto::hex_text;
use crate::crypto::hmac_sha1;
use crate::crypto::hs512_token;
use crate::crypto::sha256;
use crate::text::lemma_find_unique;
use vstd::prelude::*;
use vstd::utf8::encode_utf8;

verus! {

// ── Derived secrets ─────────────────────────────────────────────────────

/// A user's secret is the authentication code of its ID under the shared secret.
pub proof fn secrets_authenticate_the_id(secret: &str, mxid: &str, r: String)
    requires
        call_ensures(derive_secret, (secret, mxid), r),
    ensures
        r@ == base64_text(hmac_sha1(encode_utf8(secret@), encode_utf8(mxid@))),
{
}

/// A server's token secret is the digest of the seed followed by the host name.
pub proof fn token_secrets_digest_the_host(seed: &str, hostname: &str, r: String)
    requires
        call_ensures(derive_sta_secret, (seed, hostname), r),
    ensures
        r@ == hex_text(sha256(encode_utf8(seed@) + encode_utf8(hostname@))),
{
}

/// A user has a password if and only if there is a secret for passwords, and it
/// is derived from that; the recovery passphrase is derived from the secret for
/// recovery, whatever the other credentials are.
pub proof fn each_secret_has_its_purpose(
    config: &AuthConfig,
    mxid: &str,
    password: Option<String>,
    passphrase: String,
    secret: &str,
    derived: String,
)
    requires
        call_ensures(AuthConfig::account_password, (config, mxid), password),
        call_ensures(AuthConfig::recovery_passphrase, (config, mxid), passphrase),
        call_ensures(derive_secret, (secret, mxid), derived),
    ensures
        password is Some <==> config.password_secret is Some,
        config.password_secret matches Some(s) ==> s@ == secret@ ==> password->0@ == derived@,
        config.recovery_secret@ == secret@ ==> passphrase@ == derived@,
{
}

/// A configured token secret is used as it is. Otherwise the secret is derived
/// from the seed and what stands before the first dot of the server name.
pub proof fn token_secret_is_the_servers(
    config: &AuthConfig,
    server_name: &str,
    r: Option<String>,
    seed: &str,
    hostname: &str,
    derived: String,
    dot: int,
)
    requires
        call_ensures(AuthConfig::resolve_sta_secret, (config, server_name), r),
        call_ensures(derive_sta_secret, (seed, hostname), derived),
        0 <= dot <= server_name@.len(),
        forall|i: int| 0 <= i < dot ==> server_name@[i] != '.',
        dot < server_name@.len() ==> server_name@[dot] == '.',
        hostname@ == server_name@.take(dot),
    ensures
        config.sta_secret matches Some(s) ==> (r matches Some(t) && t@ == s@),
        config.sta_secret is None && config.sta_seed is None ==> r is None,
        config.sta_secret is None ==> (config.sta_seed matches Some(s) ==> s@ == seed@ ==> (
        r matches Some(t) && t@ == derived@)),
{
    lemma_find_unique(server_name@, '.', dot);
}

// ── Configuration ───────────────────────────────────────────────────────

/// Whether one of four and no other holds.
pub open spec fn just_one(a: bool, b: bool, c: bool, d: bool) -> bool {
    (a && !b && !c && !d) || (!a && b && !c && !d) || (!a && !b && c && !d) || (!a && !b && !c
        && d)
}

/// Credentials are accepted if and only if they give just one way to log in, and
/// a way with a password has a secret for it; the error says what is amiss.
pub proof fn credentials_give_one_way(config: &AuthConfig, r: Result<(), AuthError>)
    requires
        call_ensures(AuthConfig::check, (config,), r),
    ensures
        ({
            let a = config.shared_registration_secret is Some;
            let b = config.open_registration;
            let c = config.sta_secret is Some;
            let d = config.sta_seed is Some;
            &&& r is Ok <==> just_one(a, b, c, d) && ((a || b) ==> config.password_secret is Some)
            &&& r == Err::<(), AuthError>(AuthError::NoMode) <==> !a && !b && !c && !d
            &&& r == Err::<(), AuthError>(AuthError::MissingPasswordSecret) <==> just_one(
                a,
                b,
                c,
                d,
            ) && (a || b) && config.password_secret is None
            &&& r == Err::<(), AuthError>(AuthError::SeveralModes) <==> !just_one(a, b, c, d) && (a
                || b || c || d)
        }),
{
}

// ── First steps ─────────────────────────────────────────────────────────

/// With a shared registration secret the account is registered with it and with
/// the user's password; with open registration it is registered with the
/// password alone, at first without authentication. The time plays no part.
pub proof fn passwords_are_registered(
    config: &AuthConfig,
    server_name: &str,
    username: &str,
    mxid: &str,
    now: Option<u64>,
    r: LoginStep,
    secret: &str,
    password: String,
)
    requires
        config.valid(),
        call_ensures(AuthConfig::login_at, (config, server_name, username, mxid, now), r),
        config.password_secret matches Some(s) && s@ == secret@,
        call_ensures(derive_secret, (secret, mxid), password),
    ensures
        config.shared_registration_secret matches Some(s) ==> (
        r matches LoginStep::Register { shared_secret, password: p } && shared_secret@ == s@ && p@
            == password@),
        config.shared_registration_secret is None && config.open_registration ==> (
        r matches LoginStep::OpenRegister { password: p, dummy: None } && p@ == password@),
{
}

/// Whether the step logs the user in with the token, or tells why there is none.
pub open spec fn uses_token(
    step: LoginStep,
    user: Seq<char>,
    token: Result<Seq<char>, Seq<char>>,
) -> bool {
    match token {
        Ok(text) => step matches LoginStep::TokenLogin { login_type, user: u, token: t }
            && login_type@ == "com.famedly.login.token"@ && u@ == user && t@ == text,
        Err(e) => step matches LoginStep::Finished(Err(LoginError::Token(message))) && message@
            == "failed to encode JWT: "@ + e,
    }
}

/// Without registration the user logs in with a token that names the user,
/// expires an hour after the given time, and is signed with the secret for the
/// server; without a time there is no token.
pub proof fn tokens_last_an_hour(
    config: &AuthConfig,
    server_name: &str,
    username: &str,
    mxid: &str,
    now: Option<u64>,
    r: LoginStep,
    secret: String,
)
    requires
        config.valid(),
        config.shared_registration_secret is None,
        !config.open_registration,
        call_ensures(AuthConfig::login_at, (config, server_name, username, mxid, now), r),
        call_ensures(AuthConfig::resolve_sta_secret, (config, server_name), Some(secret)),
    ensures
        now matches Some(t) ==> t + 60 * 60 <= u64::MAX ==> uses_token(
            r,
            username@,
            hs512_token(
                "sub"@,
                username@,
                "exp"@,
                (t + 60 * 60) as u64,
                encode_utf8(secret@),
            ),
        ),
        now is None || now->0 + 60 * 60 > u64::MAX ==> r == LoginStep::Finished(
            Err(LoginError::Clock),
        ),
{
}

/// Logging in now begins like logging in at the whole seconds of a reading that
/// the clock gives: a token expires an hour from then.
pub proof fn login_goes_by_the_clock(
    config: &AuthConfig,
    server_name: &str,
    username: &str,
    mxid: &str,
    r: LoginStep,
    secret: String,
)
    requires
        config.valid(),
        config.shared_registration_secret is None,
        !config.open_registration,
        call_ensures(AuthConfig::login, (config, server_name, username, mxid), r),
        call_ensures(AuthConfig::resolve_sta_secret, (config, server_name), Some(secret)),
    ensures
        exists|reading: Option<(u64, u32)>| #[trigger]
            clock_gives(reading) && match reading {
                Some((secs, _)) => if secs + 60 * 60 <= u64::MAX {
                    uses_token(
                        r,
                        username@,
                        hs512_token(
                            "sub"@,
                            username@,
                            "exp"@,
                            (secs + 60 * 60) as u64,
                            encode_utf8(secret@),
                        ),
                    )
                } else {
                    r == LoginStep::Finished(Err(LoginError::Clock))
                },
                None => r == LoginStep::Finished(Err(LoginError::Clock)),
            },
{
    let reading = choose|reading: Option<(u64, u32)>| #[trigger]
        clock_gives(reading) && config.begins_login(
            r,
            server_name@,
            username@,
            mxid@,
            match reading {
                Some((secs, _)) => Some(secs),
                None => None,
            },
        );
    assert(clock_gives(reading));
}

/// Logging in now registers as logging in at any time does.
pub proof fn login_registers_at_any_time(
    config: &AuthConfig,
    server_name: &str,
    username: &str,
    mxid: &str,
    r: LoginStep,
    secret: &str,
    password: String,
)
    requires
        config.valid(),
        call_ensures(AuthConfig::login, (config, server_name, username, mxid), r),
        config.password_secret matches Some(s) && s@ == secret@,
        call_ensures(derive_secret, (secret, mxid), password),
    ensures
        config.shared_registration_secret matches Some(s) ==> (
        r matches LoginStep::Register { shared_secret, password: p } && shared_secret@ == s@ && p@
            == password@),
        config.shared_registration_secret is None && config.open_registration ==> (
        r matches LoginStep::OpenRegister { password: p, dummy: None } && p@ == password@),
{
}

/// A token that was made is used for the user it was made for; a failure to make
/// one ends the login.
pub proof fn tokens_are_used(username: &str, token: Result<String, String>, r: LoginStep)
    requires
        call_ensures(token_login, (username, token), r),
    ensures
        token matches Ok(t) ==> uses_token(r, username@, Ok(t@)),
        token matches Err(e) ==> uses_token(r, username@, Err(e@)),
{
}

// ── Following steps ─────────────────────────────────────────────────────

/// Whether the step logs in with the password.
pub open spec fn uses_password(step: LoginStep, password: Seq<char>) -> bool {
    step matches LoginStep::PasswordLogin { password: p } && p@ == password
}

/// Whether the login has ended with the refusal.
pub open spec fn is_refused(step: LoginStep, error: Seq<char>) -> bool {
    step matches LoginStep::Finished(Err(LoginError::Request(e))) && e@ == error
}

/// After a registration with the shared secret the user logs in with the same
/// password; if it fails, so does the login, with the same error.
pub proof fn registration_precedes_the_login(
    shared_secret: String,
    password: String,
    outcome: Result<(), crate::registration::RegistrationError>,
    r: LoginStep,
)
    requires
        call_ensures(
            LoginStep::next,
            (
                LoginStep::Register { shared_secret, password },
                LoginEvent::Registered(outcome),
            ),
            r,
        ),
    ensures
        outcome is Ok ==> uses_password(r, password@),
        outcome matches Err(e) ==> r == LoginStep::Finished(Err(LoginError::Registration(e))),
{
}

/// A challenge is answered once, in its own session and with the same password;
/// a second one ends the login.
pub proof fn challenge_is_answered_once(
    password: String,
    dummy: Option<Option<String>>,
    session: Option<String>,
    error: String,
    r: LoginStep,
)
    requires
        call_ensures(
            LoginStep::next,
            (
                LoginStep::OpenRegister { password, dummy },
                LoginEvent::Challenged { session, error },
            ),
            r,
        ),
    ensures
        dummy is Some ==> is_refused(r, error@),
        dummy is None ==> (r matches LoginStep::OpenRegister { password: p, dummy: Some(s) } && p@
            == password@ && match (s, session) {
            (Some(a), Some(b)) => a@ == b@,
            (None, None) => true,
            _ => false,
        }),
{
}

/// After an open registration, or where the account existed before, the user
/// logs in with the same password unless it is logged in already.
pub proof fn open_registration_leads_to_a_login(
    password: String,
    dummy: Option<Option<String>>,
    logged_in: bool,
    r: LoginStep,
    s: LoginStep,
)
    requires
        call_ensures(
            LoginStep::next,
            (
                LoginStep::OpenRegister { password, dummy },
                LoginEvent::OpenRegistered { logged_in },
            ),
            r,
        ),
        call_ensures(
            LoginStep::next,
            (LoginStep::OpenRegister { password, dummy }, LoginEvent::UserInUse { logged_in }),
            s,
        ),
    ensures
        logged_in ==> (r matches LoginStep::Finished(Ok(_))) && (s matches LoginStep::Finished(Ok(_))),
        !logged_in ==> uses_password(r, password@) && uses_password(s, password@),
{
}

/// A login request that succeeds ends the login with success, and one that fails
/// ends it with its error.
pub proof fn login_requests_decide(step: LoginStep, error: String, r: LoginStep, s: LoginStep)
    requires
        step is PasswordLogin || step is TokenLogin,
        call_ensures(LoginStep::next, (step, LoginEvent::LoggedIn), r),
        call_ensures(LoginStep::next, (step, LoginEvent::Failed(error)), s),
    ensures
        r matches LoginStep::Finished(Ok(_)),
        is_refused(s, error@),
{
}

/// An open registration that fails otherwise ends the login with its error.
pub proof fn failed_open_registration_ends(
    password: String,
    dummy: Option<Option<String>>,
    error: String,
    r: LoginStep,
)
    requires
        call_ensures(
            LoginStep::next,
            (LoginStep::OpenRegister { password, dummy }, LoginEvent::Failed(error)),
            r,
        ),
    ensures
        is_refused(r, error@),
{
}

/// Credentials that are accepted can be used, for every user and at any time.
pub proof fn accepted_credentials_can_be_used(
    config: &AuthConfig,
    r: Result<(), AuthError>,
    server_name: &str,
    username: &str,
    mxid: &str,
    now: Option<u64>,
)
    requires
        call_ensures(AuthConfig::check, (config,), r),
        r is Ok,
    ensures
        call_requires(AuthConfig::login_at, (config, server_name, username, mxid, now)),
        call_requires(AuthConfig::login, (config, server_name, username, mxid)),
{
}

/// Whatever comes of a step, the login can go on.
pub proof fn logins_take_every_outcome(
    shared_secret: String,
    password: String,
    outcome: Result<(), crate::registration::RegistrationError>,
    dummy: Option<Option<String>>,
    session: Option<String>,
    error: String,
    logged_in: bool,
    step: LoginStep,
)
    requires
        step is PasswordLogin || step is TokenLogin,
    ensures
        call_requires(
            LoginStep::next,
            (
                LoginStep::Register { shared_secret, password },
                LoginEvent::Registered(outcome),
            ),
        ),
        call_requires(
            LoginStep::next,
            (
                LoginStep::OpenRegister { password, dummy },
                LoginEvent::Challenged { session, error },
            ),
        ),
        call_requires(
            LoginStep::next,
            (
                LoginStep::OpenRegister { password, dummy },
                LoginEvent::OpenRegistered { logged_in },
            ),
        ),
        call_requires(
            LoginStep::next,
            (LoginStep::OpenRegister { password, dummy }, LoginEvent::UserInUse { logged_in }),
        ),
        call_requires(
            LoginStep::next,
            (LoginStep::OpenRegister { password, dummy }, LoginEvent::Failed(error)),
        ),
        call_requires(LoginStep::next, (step, LoginEvent::LoggedIn)),
        call_requires(LoginStep::next, (step, LoginEvent::Failed(error))),
{
}

} // verus!
