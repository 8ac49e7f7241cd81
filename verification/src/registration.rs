//! Registration of accounts with the shared secret of a Synapse homeserver.
//!
//! The exchange has three requests: one for a one-time nonce, one that
//! registers the account and proves knowledge of the secret by an HMAC, and
//! one that logs out the device that the registration has created. The parts
//! of the exchange are requests and replies; [`Registration::next`] decides
//! what follows each reply.
use crate::crypto::authentication_code;
use crate::crypto::hex_encode;
use crate::crypto::hex_text;
use crate::crypto::hmac_sha1;
use crate::text::begins;
use crate::text::chars_of;
use crate::text::joined;
use crate::text::push_utf8;
use crate::text::starts_with;
use vstd::prelude::*;
use vstd::utf8::encode_utf8;

verus! {

// ── Errors ──────────────────────────────────────────────────────────────

/// The `Display` form of the `reqwest::StatusCode` with a given code, or of
/// the error where there is none.
pub uninterp spec fn status_line(code: u16) -> Seq<char>;

/// `reqwest::StatusCode::from_u16` and the `Display` form of its outcome, which
/// the code determines.
#[verifier::external_body]
fn status_text(code: u16) -> (r: String)
    ensures
        r@ == status_line(code),
{
    match reqwest::StatusCode::from_u16(code) {
        Ok(status) => status.to_string(),
        Err(e) => e.to_string(),
    }
}

/// A failed registration, with the HTTP status that the server replied with,
/// if it did.
#[derive(Debug)]
pub struct RegistrationError {
    pub status: Option<u16>,
    pub message: String,
}

impl RegistrationError {
    /// The text that describes the error.
    pub open spec fn text(self) -> Seq<char> {
        match self.status {
            Some(status) => "Registration failed ("@ + status_line(status) + "): "@ + self.message@,
            None => "Registration failed: "@ + self.message@,
        }
    }

    /// Whether the error has the given status and message.
    pub open spec fn has(self, status: Option<u16>, message: Seq<char>) -> bool {
        self.status == status && self.message@ == message
    }

    /// A description of the error for people.
    pub fn describe(&self) -> (r: String)
        ensures
            r@ == self.text(),
    {
        match self.status {
            Some(status) => {
                let mut out = joined("Registration failed (", status_text(status).as_str());
                out.append("): ");
                out.append(self.message.as_str());
                out
            },
            None => joined("Registration failed: ", self.message.as_str()),
        }
    }

    /// Whether the server does not have the registration API at all.
    pub fn is_missing_api(&self) -> (r: bool)
        ensures
            r == (self.status == Some(404u16)),
    {
        match self.status {
            Some(status) => status == 404,
            None => false,
        }
    }

    fn from_status(status: u16, message: String) -> (r: Self)
        ensures
            r.has(Some(status), message@),
    {
        RegistrationError { status: Some(status), message }
    }

    fn without_status(message: String) -> (r: Self)
        ensures
            r.has(None, message@),
    {
        RegistrationError { status: None, message }
    }
}

// ── Messages ────────────────────────────────────────────────────────────

/// The request that registers an account.
#[derive(Debug)]
pub struct RegisterRequest {
    pub nonce: String,
    pub username: String,
    pub password: String,
    pub admin: bool,
    pub mac: String,
}

/// The reply to a successful registration.
#[derive(Debug)]
pub struct RegisterResponse {
    pub access_token: String,
    pub device_id: String,
    pub home_server: Option<String>,
    pub user_id: String,
}

/// The bytes that are authenticated: nonce, user name, password and kind of
/// account, separated by zero bytes.
pub open spec fn mac_message(
    nonce: Seq<char>,
    username: Seq<char>,
    password: Seq<char>,
    admin: bool,
) -> Seq<u8> {
    encode_utf8(nonce) + seq![0u8] + encode_utf8(username) + seq![0u8] + encode_utf8(password)
        + seq![0u8] + encode_utf8(
        if admin {
            "admin"@
        } else {
            "notadmin"@
        },
    )
}

/// The HMAC-SHA1 of the registration under the shared secret, in hexadecimal.
pub open spec fn mac_text(
    shared_secret: Seq<char>,
    nonce: Seq<char>,
    username: Seq<char>,
    password: Seq<char>,
    admin: bool,
) -> Seq<char> {
    hex_text(
        hmac_sha1(encode_utf8(shared_secret), mac_message(nonce, username, password, admin)),
    )
}

/// The proof of knowledge of the shared secret.
pub fn compute_mac(
    shared_secret: &str,
    nonce: &str,
    username: &str,
    password: &str,
    admin: bool,
) -> (r: String)
    ensures
        r@ == mac_text(shared_secret@, nonce@, username@, password@, admin),
{
    let mut message: Vec<u8> = Vec::new();
    push_utf8(&mut message, nonce);
    message.push(0);
    push_utf8(&mut message, username);
    message.push(0);
    push_utf8(&mut message, password);
    message.push(0);
    if admin {
        push_utf8(&mut message, "admin");
    } else {
        push_utf8(&mut message, "notadmin");
    }
    assert(message@ =~= mac_message(nonce@, username@, password@, admin));
    let code = authentication_code(shared_secret.as_bytes(), &message);
    hex_encode(&code)
}

/// Whether a status code tells of success.
pub open spec fn succeeded(status: u16) -> bool {
    200 <= status < 300
}

/// Whether a status code tells of success.
pub fn is_success(status: u16) -> (r: bool)
    ensures
        r == succeeded(status),
{
    200 <= status && status < 300
}

/// Whether a content type, if there is one, is that of JSON.
pub open spec fn names_json(content_type: Option<String>) -> bool {
    content_type matches Some(text) && starts_with(text@, "application/json"@)
}

/// Whether a content type, if there is one, is that of JSON.
pub fn is_json_response(content_type: &Option<String>) -> (r: bool)
    ensures
        r == names_json(*content_type),
{
    match content_type {
        Some(text) => begins(&chars_of(text.as_str()), "application/json"),
        None => false,
    }
}

// ── The exchange ────────────────────────────────────────────────────────

/// What is to be registered where.
#[derive(Debug)]
pub struct Registration {
    pub homeserver: String,
    pub shared_secret: String,
    pub username: String,
    pub password: String,
}

/// What is to be done next.
#[derive(Debug)]
pub enum RegistrationStep {
    /// Send a GET request.
    Get { url: String },
    /// Read the nonce in the reply.
    ReadNonce,
    /// Send the request as JSON in a POST request.
    Post { url: String, request: RegisterRequest },
    /// Read the account in the reply.
    ReadAccount,
    /// Send a POST request with the given bearer token.
    Logout { url: String, access_token: String },
    /// Read the error code in the reply.
    ReadErrcode { status: u16 },
    /// Read the reply as text; what cannot be read counts as empty.
    ReadText { status: u16, of_nonce: bool },
    /// Nothing: this is the outcome.
    Finished(Result<(), RegistrationError>),
}

/// What has come of the last step.
#[derive(Debug)]
pub enum RegistrationEvent {
    /// The request failed, or the reply has not the form that was to be read.
    Failed(String),
    /// A reply has come.
    Response { status: u16, content_type: Option<String> },
    Nonce(String),
    Account(RegisterResponse),
    Errcode(String),
    Text(String),
}

/// Whether the event can come of the step.
pub open spec fn event_fits(step: RegistrationStep, event: RegistrationEvent) -> bool {
    match step {
        RegistrationStep::Get { .. } => event is Failed || event is Response,
        RegistrationStep::ReadNonce => event is Failed || event is Nonce,
        RegistrationStep::Post { .. } => event is Failed || event is Response,
        RegistrationStep::ReadAccount => event is Failed || event is Account,
        RegistrationStep::Logout { .. } => event is Failed || event is Response,
        RegistrationStep::ReadErrcode { .. } => event is Failed || event is Errcode,
        RegistrationStep::ReadText { .. } => event is Text,
        RegistrationStep::Finished(_) => false,
    }
}

/// Whether the exchange has failed with the given status and message.
pub open spec fn failed_with(
    step: RegistrationStep,
    status: Option<u16>,
    message: Seq<char>,
) -> bool {
    step matches RegistrationStep::Finished(Err(e)) && e.has(status, message)
}

/// Whether the exchange has succeeded.
pub open spec fn has_succeeded(step: RegistrationStep) -> bool {
    step matches RegistrationStep::Finished(Ok(_))
}

impl Registration {
    /// Where accounts are registered.
    pub open spec fn register_url(self) -> Seq<char> {
        self.homeserver@ + "/_synapse/admin/v1/register"@
    }

    /// Where devices are logged out.
    pub open spec fn logout_url(self) -> Seq<char> {
        self.homeserver@ + "/_matrix/client/v3/logout"@
    }

    /// Whether `request` registers this account, without admin rights, and
    /// proves knowledge of the shared secret for the nonce.
    pub open spec fn is_request(self, request: RegisterRequest, nonce: Seq<char>) -> bool {
        &&& request.nonce@ == nonce
        &&& request.username@ == self.username@
        &&& request.password@ == self.password@
        &&& !request.admin
        &&& request.mac@ == mac_text(
            self.shared_secret@,
            nonce,
            self.username@,
            self.password@,
            false,
        )
    }

    /// Whether `next` is the step that follows an event.
    pub open spec fn follows(
        self,
        step: RegistrationStep,
        event: RegistrationEvent,
        next: RegistrationStep,
    ) -> bool {
        match (step, event) {
            (RegistrationStep::Get { .. }, RegistrationEvent::Failed(e)) => failed_with(
                next,
                None,
                "nonce request failed: "@ + e@,
            ),
            (RegistrationStep::Get { .. }, RegistrationEvent::Response { status, .. }) => {
                if succeeded(status) {
                    next is ReadNonce
                } else {
                    next == RegistrationStep::ReadText { status, of_nonce: true }
                }
            },
            (RegistrationStep::ReadNonce, RegistrationEvent::Failed(e)) => failed_with(
                next,
                None,
                "nonce decode failed: "@ + e@,
            ),
            (RegistrationStep::ReadNonce, RegistrationEvent::Nonce(nonce)) => {
                &&& next matches RegistrationStep::Post { url, request }
                &&& url@ == self.register_url()
                &&& self.is_request(request, nonce@)
            },
            (RegistrationStep::Post { .. }, RegistrationEvent::Failed(e)) => failed_with(
                next,
                None,
                "register request failed: "@ + e@,
            ),
            (
                RegistrationStep::Post { .. },
                RegistrationEvent::Response { status, content_type },
            ) => {
                if succeeded(status) {
                    next is ReadAccount
                } else if names_json(content_type) {
                    next == RegistrationStep::ReadErrcode { status }
                } else {
                    next == RegistrationStep::ReadText { status, of_nonce: false }
                }
            },
            (RegistrationStep::ReadAccount, RegistrationEvent::Failed(e)) => failed_with(
                next,
                None,
                "register response decode failed: "@ + e@,
            ),
            (RegistrationStep::ReadAccount, RegistrationEvent::Account(account)) => {
                &&& next matches RegistrationStep::Logout { url, access_token }
                &&& url@ == self.logout_url()
                &&& access_token@ == account.access_token@
            },
            (RegistrationStep::Logout { .. }, RegistrationEvent::Failed(e)) => failed_with(
                next,
                None,
                "post-registration logout failed: "@ + e@,
            ),
            (RegistrationStep::Logout { .. }, RegistrationEvent::Response { status, .. }) => {
                if succeeded(status) {
                    has_succeeded(next)
                } else {
                    failed_with(next, Some(status), "post-registration logout failed"@)
                }
            },
            (
                RegistrationStep::ReadErrcode { status },
                RegistrationEvent::Failed(e),
            ) => failed_with(next, Some(status), "error response decode failed: "@ + e@),
            (RegistrationStep::ReadErrcode { status }, RegistrationEvent::Errcode(code)) => {
                if code@ == "M_USER_IN_USE"@ {
                    has_succeeded(next)
                } else {
                    failed_with(next, Some(status), code@)
                }
            },
            (
                RegistrationStep::ReadText { status, of_nonce },
                RegistrationEvent::Text(text),
            ) => failed_with(
                next,
                Some(status),
                if of_nonce {
                    "nonce request: "@ + text@
                } else {
                    text@
                },
            ),
            _ => false,
        }
    }

    /// What follows an event that came of a step. An account that exists
    /// already counts as registered.
    pub fn next(&self, step: &RegistrationStep, event: RegistrationEvent) -> (r: RegistrationStep)
        requires
            event_fits(*step, event),
        ensures
            self.follows(*step, event, r),
    {
        match (step, event) {
            (RegistrationStep::Get { .. }, RegistrationEvent::Failed(e)) => failure(
                joined("nonce request failed: ", e.as_str()),
            ),
            (RegistrationStep::Get { .. }, RegistrationEvent::Response { status, .. }) => {
                if is_success(status) {
                    RegistrationStep::ReadNonce
                } else {
                    RegistrationStep::ReadText { status, of_nonce: true }
                }
            },
            (RegistrationStep::ReadNonce, RegistrationEvent::Failed(e)) => failure(
                joined("nonce decode failed: ", e.as_str()),
            ),
            (RegistrationStep::ReadNonce, RegistrationEvent::Nonce(nonce)) => {
                let mac = compute_mac(
                    self.shared_secret.as_str(),
                    nonce.as_str(),
                    self.username.as_str(),
                    self.password.as_str(),
                    false,
                );
                let request = RegisterRequest {
                    nonce,
                    username: self.username.clone(),
                    password: self.password.clone(),
                    admin: false,
                    mac,
                };
                let url = joined(self.homeserver.as_str(), "/_synapse/admin/v1/register");
                RegistrationStep::Post { url, request }
            },
            (RegistrationStep::Post { .. }, RegistrationEvent::Failed(e)) => failure(
                joined("register request failed: ", e.as_str()),
            ),
            (
                RegistrationStep::Post { .. },
                RegistrationEvent::Response { status, content_type },
            ) => {
                if is_success(status) {
                    RegistrationStep::ReadAccount
                } else if is_json_response(&content_type) {
                    RegistrationStep::ReadErrcode { status }
                } else {
                    RegistrationStep::ReadText { status, of_nonce: false }
                }
            },
            (RegistrationStep::ReadAccount, RegistrationEvent::Failed(e)) => failure(
                joined("register response decode failed: ", e.as_str()),
            ),
            (RegistrationStep::ReadAccount, RegistrationEvent::Account(account)) => {
                let url = joined(self.homeserver.as_str(), "/_matrix/client/v3/logout");
                RegistrationStep::Logout { url, access_token: account.access_token }
            },
            (RegistrationStep::Logout { .. }, RegistrationEvent::Failed(e)) => failure(
                joined("post-registration logout failed: ", e.as_str()),
            ),
            (RegistrationStep::Logout { .. }, RegistrationEvent::Response { status, .. }) => {
                if is_success(status) {
                    RegistrationStep::Finished(Ok(()))
                } else {
                    refusal(status, "post-registration logout failed".to_owned())
                }
            },
            (RegistrationStep::ReadErrcode { status }, RegistrationEvent::Failed(e)) => refusal(
                *status,
                joined("error response decode failed: ", e.as_str()),
            ),
            (RegistrationStep::ReadErrcode { status }, RegistrationEvent::Errcode(code)) => {
                if code == "M_USER_IN_USE".to_owned() {
                    RegistrationStep::Finished(Ok(()))
                } else {
                    refusal(*status, code)
                }
            },
            (
                RegistrationStep::ReadText { status, of_nonce },
                RegistrationEvent::Text(text),
            ) => {
                if *of_nonce {
                    refusal(*status, joined("nonce request: ", text.as_str()))
                } else {
                    refusal(*status, text)
                }
            },
            _ => failure(String::new()),
        }
    }

    /// The first step: the request for a nonce.
    pub fn first(&self) -> (r: RegistrationStep)
        ensures
            r matches RegistrationStep::Get { url } && url@ == self.register_url(),
    {
        RegistrationStep::Get {
            url: joined(self.homeserver.as_str(), "/_synapse/admin/v1/register"),
        }
    }
}

fn failure(message: String) -> (r: RegistrationStep)
    ensures
        failed_with(r, None, message@),
{
    RegistrationStep::Finished(Err(RegistrationError::without_status(message)))
}

fn refusal(status: u16, message: String) -> (r: RegistrationStep)
    ensures
        failed_with(r, Some(status), message@),
{
    RegistrationStep::Finished(Err(RegistrationError::from_status(status, message)))
}

/// Begins the registration of an account: what is to be registered, and the
/// first step.
pub fn register_with_shared_secret(
    homeserver: &str,
    shared_secret: &str,
    username: &str,
    password: &str,
) -> (r: (Registration, RegistrationStep))
    ensures
        r.0.homeserver@ == homeserver@,
        r.0.shared_secret@ == shared_secret@,
        r.0.username@ == username@,
        r.0.password@ == password@,
        r.1 matches RegistrationStep::Get { url } && url@ == r.0.register_url(),
{
    let registration = Registration {
        homeserver: homeserver.to_owned(),
        shared_secret: shared_secret.to_owned(),
        username: username.to_owned(),
        password: password.to_owned(),
    };
    let first = registration.first();
    (registration, first)
}

// ── What holds of every exchange ────────────────────────────────────────

/// Success has one of two reasons: the new device was logged out, or the
/// account existed before.
pub proof fn success_leaves_no_device(
    registration: Registration,
    step: RegistrationStep,
    event: RegistrationEvent,
    next: RegistrationStep,
)
    requires
        event_fits(step, event),
        registration.follows(step, event, next),
        has_succeeded(next),
    ensures
        match event {
            RegistrationEvent::Response { status, .. } => step is Logout && succeeded(status),
            RegistrationEvent::Errcode(code) => step is ReadErrcode && code@ == "M_USER_IN_USE"@,
            _ => false,
        },
{
}

/// How many more steps an exchange can take after a step.
pub open spec fn steps_left(step: RegistrationStep) -> nat {
    match step {
        RegistrationStep::Get { .. } => 5,
        RegistrationStep::ReadNonce => 4,
        RegistrationStep::Post { .. } => 3,
        RegistrationStep::ReadAccount => 2,
        RegistrationStep::Logout { .. } => 1,
        RegistrationStep::ReadErrcode { .. } => 1,
        RegistrationStep::ReadText { .. } => 1,
        RegistrationStep::Finished(_) => 0,
    }
}

/// Every exchange comes to an end: at most five steps follow the first.
pub proof fn exchange_ends(
    registration: Registration,
    step: RegistrationStep,
    event: RegistrationEvent,
    next: RegistrationStep,
)
    requires
        event_fits(step, event),
        registration.follows(step, event, next),
    ensures
        steps_left(next) < steps_left(step),
{
}

} // verus!
