//! Credentials, and the ways to log in with them.
//!
//! There are three ways: registration with a shared secret followed by a
//! password login; registration without authorization followed, where needed,
//! by a password login; and a login with a signed token.
use crate::clock::clock_gives;
use crate::clock::readings_come_of_calls;
use crate::clock::since_epoch;
use crate::crypto::authentication_code;
use crate::crypto::base64_encode;
use crate::crypto::base64_text;
use crate::crypto::hex_encode;
use crate::crypto::hex_text;
use crate::crypto::hmac_sha1;
use crate::crypto::hs512_token;
use crate::crypto::sha256;
use crate::crypto::sha256_digest;
use crate::crypto::signed_token;
use crate::registration::RegistrationError;
use crate::text::chars_of;
use crate::text::find;
use crate::text::find_char;
use crate::text::joined;
use crate::text::push_utf8;
use crate::text::text_between;
use crate::text::text_option;
use vstd::prelude::*;
use vstd::utf8::encode_utf8;

verus! {

/// How long a token for logging in stays valid, in seconds.
pub const TOKEN_LIFETIME: u64 = 3600;

/// The login type for signed tokens.
pub const TOKEN_LOGIN_TYPE: &'static str = "com.famedly.login.token";

// ── Derived secrets ─────────────────────────────────────────────────────

/// The secret of a user: the HMAC-SHA1 of its ID under a shared secret, in
/// base64.
pub open spec fn derived_secret(shared_secret: Seq<char>, mxid: Seq<char>) -> Seq<char> {
    base64_text(hmac_sha1(encode_utf8(shared_secret), encode_utf8(mxid)))
}

/// The secret of a user, derived from a shared secret.
pub fn derive_secret(shared_secret: &str, mxid: &str) -> (r: String)
    ensures
        r@ == derived_secret(shared_secret@, mxid@),
{
    let code = authentication_code(shared_secret.as_bytes(), mxid.as_bytes());
    base64_encode(&code)
}

/// The token secret of a server: the SHA-256 of the seed and the host name, in
/// hexadecimal.
pub open spec fn derived_sta_secret(seed: Seq<char>, hostname: Seq<char>) -> Seq<char> {
    hex_text(sha256(encode_utf8(seed) + encode_utf8(hostname)))
}

/// The token secret of a server, derived from a seed.
pub fn derive_sta_secret(seed: &str, hostname: &str) -> (r: String)
    ensures
        r@ == derived_sta_secret(seed@, hostname@),
{
    let mut message: Vec<u8> = Vec::new();
    push_utf8(&mut message, seed);
    push_utf8(&mut message, hostname);
    assert(message@ =~= encode_utf8(seed@) + encode_utf8(hostname@));
    hex_encode(&sha256_digest(&message))
}

/// The first label of a server name: what stands before its first dot.
pub open spec fn first_label(server_name: Seq<char>) -> Seq<char> {
    server_name.take(find(server_name, '.'))
}

// ── Configuration ───────────────────────────────────────────────────────

/// The credentials that the program was started with.
#[derive(Debug)]
pub struct AuthConfig {
    /// Secret for registering accounts.
    pub shared_registration_secret: Option<String>,
    /// Secret from which the users' passwords are derived.
    pub password_secret: Option<String>,
    /// Secret for signing tokens.
    pub sta_secret: Option<String>,
    /// Seed from which the servers' secrets for signing tokens are derived.
    pub sta_seed: Option<String>,
    /// Whether accounts are registered without authorization.
    pub open_registration: bool,
    /// Secret from which the users' recovery passphrases are derived.
    pub recovery_secret: String,
}

/// Why credentials do not make a way to log in.
#[derive(Debug, Clone, Copy, PartialEq, Eq, Structural)]
pub enum AuthError {
    /// There is no way to log in.
    NoMode,
    /// There are several ways to log in.
    SeveralModes,
    /// The way to log in needs a password, and there is no secret to derive it
    /// from.
    MissingPasswordSecret,
}

/// 1 for `true`, 0 for `false`.
pub open spec fn one_if(b: bool) -> nat {
    if b {
        1
    } else {
        0
    }
}

impl AuthConfig {
    /// How many ways to log in are configured.
    pub open spec fn mode_count(self) -> nat {
        one_if(self.shared_registration_secret is Some) + one_if(self.open_registration) + one_if(
            self.sta_secret is Some,
        ) + one_if(self.sta_seed is Some)
    }

    /// Whether the configured way to log in uses a password.
    pub open spec fn needs_password(self) -> bool {
        self.shared_registration_secret is Some || self.open_registration
    }

    /// Exactly one way to log in is configured, with all that it needs.
    pub open spec fn valid(self) -> bool {
        self.mode_count() == 1 && (self.needs_password() ==> self.password_secret is Some)
    }

    /// Checks that there is exactly one way to log in, with all that it needs.
    pub fn check(&self) -> (r: Result<(), AuthError>)
        ensures
            match r {
                Ok(_) => self.valid(),
                Err(AuthError::NoMode) => self.mode_count() == 0,
                Err(AuthError::SeveralModes) => self.mode_count() > 1,
                Err(AuthError::MissingPasswordSecret) => self.mode_count() == 1
                    && self.needs_password() && self.password_secret is None,
            },
    {
        let mut modes: u8 = 0;
        if self.shared_registration_secret.is_some() {
            modes = modes + 1;
        }
        if self.open_registration {
            modes = modes + 1;
        }
        if self.sta_secret.is_some() {
            modes = modes + 1;
        }
        if self.sta_seed.is_some() {
            modes = modes + 1;
        }
        if modes == 0 {
            return Err(AuthError::NoMode);
        }
        if modes > 1 {
            return Err(AuthError::SeveralModes);
        }
        if (self.shared_registration_secret.is_some() || self.open_registration)
            && self.password_secret.is_none() {
            return Err(AuthError::MissingPasswordSecret);
        }
        Ok(())
    }

    /// The login password of a user, if passwords are configured.
    pub open spec fn password_of(self, mxid: Seq<char>) -> Option<Seq<char>> {
        match self.password_secret {
            Some(secret) => Some(derived_secret(secret@, mxid)),
            None => None,
        }
    }

    /// The secret for signing tokens for a server, if tokens are configured.
    pub open spec fn sta_secret_for(self, server_name: Seq<char>) -> Option<Seq<char>> {
        match (self.sta_secret, self.sta_seed) {
            (Some(secret), _) => Some(secret@),
            (None, Some(seed)) => Some(derived_sta_secret(seed@, first_label(server_name))),
            (None, None) => None,
        }
    }

    /// The login password of a user, if passwords are configured.
    pub fn account_password(&self, mxid: &str) -> (r: Option<String>)
        ensures
            text_option(r) == self.password_of(mxid@),
    {
        match &self.password_secret {
            Some(secret) => Some(derive_secret(secret.as_str(), mxid)),
            None => None,
        }
    }

    /// The recovery passphrase of a user.
    pub fn recovery_passphrase(&self, mxid: &str) -> (r: String)
        ensures
            r@ == derived_secret(self.recovery_secret@, mxid@),
    {
        derive_secret(self.recovery_secret.as_str(), mxid)
    }

    /// The secret for signing tokens for a server: the configured one, or the
    /// one derived from the configured seed and the first label of the server
    /// name.
    pub fn resolve_sta_secret(&self, server_name: &str) -> (r: Option<String>)
        ensures
            text_option(r) == self.sta_secret_for(server_name@),
    {
        if let Some(secret) = &self.sta_secret {
            return Some(secret.clone());
        }
        if let Some(seed) = &self.sta_seed {
            let chars = chars_of(server_name);
            let dot: usize = find_char(&chars, '.');
            let hostname = text_between(&chars, 0, dot);
            assert(hostname@ =~= first_label(server_name@));
            return Some(derive_sta_secret(seed.as_str(), hostname.as_str()));
        }
        None
    }
}

// ── Logging in ──────────────────────────────────────────────────────────

/// Why a login has failed.
#[derive(Debug)]
pub enum LoginError {
    /// The registration with the shared secret has failed.
    Registration(RegistrationError),
    /// The token could not be made.
    Token(String),
    /// The clock gives no time at which a token could expire.
    Clock,
    /// The server has refused a request, or could not be reached.
    Request(String),
}

/// What is to be done next.
#[derive(Debug)]
pub enum LoginStep {
    /// Register the account with the shared secret.
    Register { shared_secret: String, password: String },
    /// Register the account without authorization. With `dummy`, complete the
    /// authentication with the dummy stage, in the session that it holds.
    OpenRegister { password: String, dummy: Option<Option<String>> },
    /// Log in with the password.
    PasswordLogin { password: String },
    /// Log in with a token for the user, as the given login type.
    TokenLogin { login_type: String, user: String, token: String },
    /// Nothing: this is the outcome.
    Finished(Result<(), LoginError>),
}

/// What has come of the last step.
#[derive(Debug)]
pub enum LoginEvent {
    /// The outcome of the registration with the shared secret.
    Registered(Result<(), RegistrationError>),
    /// The account was registered without authorization.
    OpenRegistered { logged_in: bool },
    /// The server asks for interactive authentication.
    Challenged { session: Option<String>, error: String },
    /// The account exists already.
    UserInUse { logged_in: bool },
    /// The request has succeeded.
    LoggedIn,
    /// The request has failed otherwise.
    Failed(String),
}

/// Whether the event can come of the step.
pub open spec fn login_event_fits(step: LoginStep, event: LoginEvent) -> bool {
    match step {
        LoginStep::Register { .. } => event is Registered,
        LoginStep::OpenRegister { .. } => event is OpenRegistered || event is Challenged
            || event is UserInUse || event is Failed,
        LoginStep::PasswordLogin { .. } => event is LoggedIn || event is Failed,
        LoginStep::TokenLogin { .. } => event is LoggedIn || event is Failed,
        LoginStep::Finished(_) => false,
    }
}

/// Whether the login has succeeded.
pub open spec fn login_succeeded(step: LoginStep) -> bool {
    step matches LoginStep::Finished(Ok(_))
}

/// Whether the login has failed because of a request.
pub open spec fn request_failed(step: LoginStep, error: Seq<char>) -> bool {
    step matches LoginStep::Finished(Err(LoginError::Request(e))) && e@ == error
}

/// Whether the step is a login with the given password.
pub open spec fn is_password_login(step: LoginStep, password: Seq<char>) -> bool {
    step matches LoginStep::PasswordLogin { password: p } && p@ == password
}

/// Whether the step is what follows a token that was made, or not.
pub open spec fn is_token_login(
    step: LoginStep,
    user: Seq<char>,
    token: Result<Seq<char>, Seq<char>>,
) -> bool {
    match token {
        Ok(token) => {
            &&& step matches LoginStep::TokenLogin { login_type, user: u, token: t }
            &&& login_type@ == TOKEN_LOGIN_TYPE@
            &&& u@ == user
            &&& t@ == token
        },
        Err(e) => step matches LoginStep::Finished(Err(LoginError::Token(message))) && message@
            == "failed to encode JWT: "@ + e,
    }
}

/// Whether `next` is the step that follows an event.
pub open spec fn login_follows(step: LoginStep, event: LoginEvent, next: LoginStep) -> bool {
    match (step, event) {
        (LoginStep::Register { password, .. }, LoginEvent::Registered(outcome)) => {
            match outcome {
                Ok(_) => is_password_login(next, password@),
                Err(e) => next matches LoginStep::Finished(Err(LoginError::Registration(f))) && f
                    == e,
            }
        },
        (
            LoginStep::OpenRegister { password, dummy },
            LoginEvent::Challenged { session, error },
        ) => {
            if dummy is None {
                &&& next matches LoginStep::OpenRegister { password: p, dummy: Some(s) }
                &&& p@ == password@
                &&& text_option(s) == text_option(session)
            } else {
                request_failed(next, error@)
            }
        },
        (LoginStep::OpenRegister { password, .. }, LoginEvent::OpenRegistered { logged_in })
        | (LoginStep::OpenRegister { password, .. }, LoginEvent::UserInUse { logged_in }) => {
            if logged_in {
                login_succeeded(next)
            } else {
                is_password_login(next, password@)
            }
        },
        (LoginStep::OpenRegister { .. }, LoginEvent::Failed(e))
        | (LoginStep::PasswordLogin { .. }, LoginEvent::Failed(e))
        | (LoginStep::TokenLogin { .. }, LoginEvent::Failed(e)) => request_failed(next, e@),
        (LoginStep::PasswordLogin { .. }, LoginEvent::LoggedIn)
        | (LoginStep::TokenLogin { .. }, LoginEvent::LoggedIn) => login_succeeded(next),
        _ => false,
    }
}

impl LoginStep {
    /// What follows an event that came of this step.
    pub fn next(self, event: LoginEvent) -> (r: LoginStep)
        requires
            login_event_fits(self, event),
        ensures
            login_follows(self, event, r),
    {
        match (self, event) {
            (LoginStep::Register { password, .. }, LoginEvent::Registered(outcome)) => {
                match outcome {
                    Ok(_) => LoginStep::PasswordLogin { password },
                    Err(e) => LoginStep::Finished(Err(LoginError::Registration(e))),
                }
            },
            (
                LoginStep::OpenRegister { password, dummy },
                LoginEvent::Challenged { session, error },
            ) => {
                if dummy.is_none() {
                    LoginStep::OpenRegister { password, dummy: Some(session) }
                } else {
                    LoginStep::Finished(Err(LoginError::Request(error)))
                }
            },
            (
                LoginStep::OpenRegister { password, .. },
                LoginEvent::OpenRegistered { logged_in },
            ) => {
                if logged_in {
                    LoginStep::Finished(Ok(()))
                } else {
                    LoginStep::PasswordLogin { password }
                }
            },
            (LoginStep::OpenRegister { password, .. }, LoginEvent::UserInUse { logged_in }) => {
                if logged_in {
                    LoginStep::Finished(Ok(()))
                } else {
                    LoginStep::PasswordLogin { password }
                }
            },
            (_, LoginEvent::LoggedIn) => LoginStep::Finished(Ok(())),
            (_, LoginEvent::Failed(e)) => LoginStep::Finished(Err(LoginError::Request(e))),
            _ => LoginStep::Finished(Err(LoginError::Request(String::new()))),
        }
    }
}

/// The login with a token that was made, or the failure of making one.
pub fn token_login(username: &str, token: Result<String, String>) -> (r: LoginStep)
    ensures
        match token {
            Ok(t) => is_token_login(r, username@, Ok(t@)),
            Err(e) => is_token_login(r, username@, Err(e@)),
        },
{
    match token {
        Ok(token) => LoginStep::TokenLogin {
            login_type: TOKEN_LOGIN_TYPE.to_owned(),
            user: username.to_owned(),
            token,
        },
        Err(e) => LoginStep::Finished(
            Err(LoginError::Token(joined("failed to encode JWT: ", e.as_str()))),
        ),
    }
}

impl AuthConfig {
    /// Whether `step` is the first step of logging in at the given time.
    pub open spec fn begins_login(
        self,
        step: LoginStep,
        server_name: Seq<char>,
        username: Seq<char>,
        mxid: Seq<char>,
        now: Option<u64>,
    ) -> bool {
        if self.shared_registration_secret is Some {
            &&& step matches LoginStep::Register { shared_secret, password }
            &&& shared_secret@ == self.shared_registration_secret->0@
            &&& Some(password@) == self.password_of(mxid)
        } else if self.open_registration {
            &&& step matches LoginStep::OpenRegister { password, dummy: None }
            &&& Some(password@) == self.password_of(mxid)
        } else {
            match now {
                Some(t) => if t + TOKEN_LIFETIME <= u64::MAX {
                    is_token_login(
                        step,
                        username,
                        hs512_token(
                            "sub"@,
                            username,
                            "exp"@,
                            (t + TOKEN_LIFETIME) as u64,
                            encode_utf8(self.sta_secret_for(server_name)->0),
                        ),
                    )
                } else {
                    step matches LoginStep::Finished(Err(LoginError::Clock))
                },
                None => step matches LoginStep::Finished(Err(LoginError::Clock)),
            }
        }
    }

    /// The first step of logging in at the given UNIX time in seconds. A token
    /// names the user and expires an hour from then.
    pub fn login_at(
        &self,
        server_name: &str,
        username: &str,
        mxid: &str,
        now: Option<u64>,
    ) -> (r: LoginStep)
        requires
            self.valid(),
        ensures
            self.begins_login(r, server_name@, username@, mxid@, now),
    {
        if let Some(shared_secret) = &self.shared_registration_secret {
            if let Some(password_secret) = &self.password_secret {
                let password = derive_secret(password_secret.as_str(), mxid);
                return LoginStep::Register { shared_secret: shared_secret.clone(), password };
            }
        }
        if self.open_registration {
            if let Some(password_secret) = &self.password_secret {
                let password = derive_secret(password_secret.as_str(), mxid);
                return LoginStep::OpenRegister { password, dummy: None };
            }
        }
        match (self.resolve_sta_secret(server_name), now) {
            (Some(secret), Some(t)) => {
                if t > u64::MAX - TOKEN_LIFETIME {
                    return LoginStep::Finished(Err(LoginError::Clock));
                }
                let token = signed_token(
                    "sub",
                    username,
                    "exp",
                    t + TOKEN_LIFETIME,
                    secret.as_str().as_bytes(),
                );
                token_login(username, token)
            },
            _ => LoginStep::Finished(Err(LoginError::Clock)),
        }
    }

    /// The first step of logging in now: at the whole seconds of a reading that
    /// the clock gives.
    pub fn login(&self, server_name: &str, username: &str, mxid: &str) -> (r: LoginStep)
        requires
            self.valid(),
        ensures
            exists|reading: Option<(u64, u32)>| #[trigger]
                clock_gives(reading) && self.begins_login(
                    r,
                    server_name@,
                    username@,
                    mxid@,
                    match reading {
                        Some((secs, _)) => Some(secs),
                        None => None,
                    },
                ),
    {
        let reading = since_epoch();
        proof {
            readings_come_of_calls(reading);
        }
        let now: Option<u64> = match reading {
            Some((secs, _)) => Some(secs),
            None => None,
        };
        self.login_at(server_name, username, mxid, now)
    }
}

// ── What holds of every login ───────────────────────────────────────────

/// How many more steps a login can take after a step.
pub open spec fn login_steps_left(step: LoginStep) -> nat {
    match step {
        LoginStep::OpenRegister { dummy: None, .. } => 3,
        LoginStep::Register { .. } => 2,
        LoginStep::OpenRegister { .. } => 2,
        LoginStep::PasswordLogin { .. } => 1,
        LoginStep::TokenLogin { .. } => 1,
        LoginStep::Finished(_) => 0,
    }
}

/// Every login comes to an end: at most three steps follow the first.
pub proof fn login_ends(step: LoginStep, event: LoginEvent, next: LoginStep)
    requires
        login_event_fits(step, event),
        login_follows(step, event, next),
    ensures
        login_steps_left(next) < login_steps_left(step),
{
}

/// With the same credentials, every login of a user uses the same password,
/// however it begins and whatever the time.
pub proof fn passwords_are_stable(
    config: AuthConfig,
    server_name: Seq<char>,
    username: Seq<char>,
    mxid: Seq<char>,
    first: LoginStep,
    first_time: Option<u64>,
    second: LoginStep,
    second_time: Option<u64>,
)
    requires
        config.valid(),
        config.needs_password(),
        config.begins_login(first, server_name, username, mxid, first_time),
        config.begins_login(second, server_name, username, mxid, second_time),
    ensures
        match (first, second) {
            (
                LoginStep::Register { shared_secret: s, password: p },
                LoginStep::Register { shared_secret: t, password: q },
            ) => s@ == t@ && p@ == q@,
            (
                LoginStep::OpenRegister { password: p, dummy: None },
                LoginStep::OpenRegister { password: q, dummy: None },
            ) => p@ == q@,
            _ => false,
        },
{
}

} // verus!
