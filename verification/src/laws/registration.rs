//! Registering accounts with a shared secret.
use crate::crypto::hex_text;
use crate::crypto::hmac_sha1;
use crate::registration::compute_mac;
use crate::registration::is_json_response;
use crate::registration::is_success;
use crate::registration::register_with_shared_secret;
use crate::registration::status_line;
use crate::registration::RegisterResponse;
use crate::registration::Registration;
use crate::registration::RegistrationError;
use crate::registration::RegistrationEvent;
use crate::registration::RegistrationStep;
use vstd::prelude::*;
use vstd::utf8::encode_utf8;

verus! {

/// The code authenticates nonce, user name, password and kind of account under
/// the shared secret, with a zero byte between each two of them.
pub proof fn code_covers_the_account(
    shared_secret: &str,
    nonce: &str,
    username: &str,
    password: &str,
    admin: bool,
    r: String,
)
    requires
        call_ensures(compute_mac, (shared_secret, nonce, username, password, admin), r),
    ensures
        r@ == hex_text(
            hmac_sha1(
                encode_utf8(shared_secret@),
                encode_utf8(nonce@) + seq![0u8] + encode_utf8(username@) + seq![0u8] + encode_utf8(
                    password@,
                ) + seq![0u8] + encode_utf8(
                    if admin {
                        "admin"@
                    } else {
                        "notadmin"@
                    },
                ),
            ),
        ),
{
}

/// Success is a status from 200 to 299.
pub proof fn success_is_in_the_two_hundreds(status: u16, r: bool)
    requires
        call_ensures(is_success, (status,), r),
    ensures
        r <==> status / 100 == 2,
{
}

/// A reply is JSON if and only if its content type begins with that of JSON.
pub proof fn json_is_told_by_its_type(content_type: &Option<String>, r: bool, rest: Seq<char>)
    requires
        call_ensures(is_json_response, (content_type,), r),
    ensures
        *content_type is None ==> !r,
        *content_type matches Some(text) ==> text@ == "application/json"@ + rest ==> r,
        r ==> (*content_type matches Some(text) && text@.len() >= 16 && text@.take(16)
            == "application/json"@),
{
    reveal_strlit("application/json");
    if let Some(text) = *content_type {
        if text@ == "application/json"@ + rest {
            assert(text@.take(16) =~= "application/json"@);
        }
    }
}

/// The exchange begins with a request for a nonce to the registration API of the
/// homeserver, and is about what it was begun with.
pub proof fn exchange_begins_with_a_nonce(
    homeserver: &str,
    shared_secret: &str,
    username: &str,
    password: &str,
    r: (Registration, RegistrationStep),
    again: RegistrationStep,
)
    requires
        call_ensures(
            register_with_shared_secret,
            (homeserver, shared_secret, username, password),
            r,
        ),
        call_ensures(Registration::first, (&r.0,), again),
    ensures
        r.0.homeserver@ == homeserver@,
        r.0.shared_secret@ == shared_secret@,
        r.0.username@ == username@,
        r.0.password@ == password@,
        r.1 matches RegistrationStep::Get { url } && url@ == homeserver@
            + "/_synapse/admin/v1/register"@,
        again matches RegistrationStep::Get { url } && url@ == homeserver@
            + "/_synapse/admin/v1/register"@,
{
}

/// A reply to the request for a nonce is read as one if and only if it tells of
/// success; otherwise it is read as text, with its status.
pub proof fn nonce_is_read_after_success(
    registration: &Registration,
    url: String,
    status: u16,
    content_type: Option<String>,
    r: RegistrationStep,
)
    requires
        call_ensures(
            Registration::next,
            (
                registration,
                &RegistrationStep::Get { url },
                RegistrationEvent::Response { status, content_type },
            ),
            r,
        ),
    ensures
        200 <= status < 300 ==> r is ReadNonce,
        !(200 <= status < 300) ==> r == (RegistrationStep::ReadText { status, of_nonce: true }),
{
}

/// The account is registered at the registration API, with the nonce, without
/// admin rights, and with the code over just these.
pub proof fn account_is_posted_with_its_code(
    registration: &Registration,
    nonce: String,
    r: RegistrationStep,
    secret: &str,
    nonce_text: &str,
    username: &str,
    password: &str,
    code: String,
)
    requires
        call_ensures(
            Registration::next,
            (registration, &RegistrationStep::ReadNonce, RegistrationEvent::Nonce(nonce)),
            r,
        ),
        secret@ == registration.shared_secret@,
        nonce_text@ == nonce@,
        username@ == registration.username@,
        password@ == registration.password@,
        call_ensures(compute_mac, (secret, nonce_text, username, password, false), code),
    ensures
        r matches RegistrationStep::Post { url, request } && {
            &&& url@ == registration.homeserver@ + "/_synapse/admin/v1/register"@
            &&& request.nonce@ == nonce@
            &&& request.username@ == registration.username@
            &&& request.password@ == registration.password@
            &&& !request.admin
            &&& request.mac@ == code@
        },
{
}

/// A reply to the registration is read as an account after success, else as an
/// error code if it is JSON, else as text.
pub proof fn reply_is_read_by_its_kind(
    registration: &Registration,
    url: String,
    request: crate::registration::RegisterRequest,
    status: u16,
    content_type: Option<String>,
    json: bool,
    r: RegistrationStep,
)
    requires
        call_ensures(
            Registration::next,
            (
                registration,
                &RegistrationStep::Post { url, request },
                RegistrationEvent::Response { status, content_type },
            ),
            r,
        ),
        call_ensures(is_json_response, (&content_type,), json),
    ensures
        200 <= status < 300 ==> r is ReadAccount,
        !(200 <= status < 300) && json ==> r == (RegistrationStep::ReadErrcode { status }),
        !(200 <= status < 300) && !json ==> r == (RegistrationStep::ReadText {
            status,
            of_nonce: false,
        }),
{
}

/// The device of a new account is logged out at once, with its own token.
pub proof fn new_device_is_logged_out(
    registration: &Registration,
    account: RegisterResponse,
    r: RegistrationStep,
)
    requires
        call_ensures(
            Registration::next,
            (registration, &RegistrationStep::ReadAccount, RegistrationEvent::Account(account)),
            r,
        ),
    ensures
        r matches RegistrationStep::Logout { url, access_token } && url@
            == registration.homeserver@ + "/_matrix/client/v3/logout"@ && access_token@
            == account.access_token@,
{
}

/// Whether the exchange has ended with the error.
pub open spec fn ends_with_error(
    step: RegistrationStep,
    status: Option<u16>,
    message: Seq<char>,
) -> bool {
    step matches RegistrationStep::Finished(Err(e)) && e.status == status && e.message@ == message
}

/// The registration succeeds with the logout of the new device, and fails with
/// the status of a logout that is refused.
pub proof fn logout_decides(
    registration: &Registration,
    url: String,
    access_token: String,
    status: u16,
    content_type: Option<String>,
    r: RegistrationStep,
)
    requires
        call_ensures(
            Registration::next,
            (
                registration,
                &RegistrationStep::Logout { url, access_token },
                RegistrationEvent::Response { status, content_type },
            ),
            r,
        ),
    ensures
        200 <= status < 300 ==> (r matches RegistrationStep::Finished(Ok(_))),
        !(200 <= status < 300) ==> ends_with_error(
            r,
            Some(status),
            "post-registration logout failed"@,
        ),
{
}

/// An account that exists already counts as registered; any other error code is
/// the error, with the status of the reply.
pub proof fn existing_account_is_fine(
    registration: &Registration,
    status: u16,
    code: String,
    r: RegistrationStep,
)
    requires
        call_ensures(
            Registration::next,
            (
                registration,
                &RegistrationStep::ReadErrcode { status },
                RegistrationEvent::Errcode(code),
            ),
            r,
        ),
    ensures
        code@ == "M_USER_IN_USE"@ ==> (r matches RegistrationStep::Finished(Ok(_))),
        code@ != "M_USER_IN_USE"@ ==> ends_with_error(r, Some(status), code@),
{
}

/// A refusal in plain text is the error, with the status of the reply; one of
/// the request for a nonce says so.
pub proof fn plain_refusals_are_told(
    registration: &Registration,
    status: u16,
    of_nonce: bool,
    text: String,
    r: RegistrationStep,
)
    requires
        call_ensures(
            Registration::next,
            (
                registration,
                &RegistrationStep::ReadText { status, of_nonce },
                RegistrationEvent::Text(text),
            ),
            r,
        ),
    ensures
        of_nonce ==> ends_with_error(r, Some(status), "nonce request: "@ + text@),
        !of_nonce ==> ends_with_error(r, Some(status), text@),
{
}

/// A step that fails ends the exchange with what failed; only a failure to read
/// an error reply has a status, that of the reply.
pub proof fn failures_name_their_step(
    registration: &Registration,
    step: &RegistrationStep,
    error: String,
    r: RegistrationStep,
)
    requires
        !(step is ReadText),
        !(step is Finished),
        call_ensures(
            Registration::next,
            (registration, step, RegistrationEvent::Failed(error)),
            r,
        ),
    ensures
        match *step {
            RegistrationStep::Get { .. } => ends_with_error(
                r,
                None,
                "nonce request failed: "@ + error@,
            ),
            RegistrationStep::ReadNonce => ends_with_error(
                r,
                None,
                "nonce decode failed: "@ + error@,
            ),
            RegistrationStep::Post { .. } => ends_with_error(
                r,
                None,
                "register request failed: "@ + error@,
            ),
            RegistrationStep::ReadAccount => ends_with_error(
                r,
                None,
                "register response decode failed: "@ + error@,
            ),
            RegistrationStep::Logout { .. } => ends_with_error(
                r,
                None,
                "post-registration logout failed: "@ + error@,
            ),
            RegistrationStep::ReadErrcode { status } => ends_with_error(
                r,
                Some(status),
                "error response decode failed: "@ + error@,
            ),
            _ => true,
        },
{
}

/// The description of an error gives its status, if it has one, and its message;
/// the API is missing if and only if the status is 404.
pub proof fn errors_are_described(error: &RegistrationError, text: String, missing: bool)
    requires
        call_ensures(RegistrationError::describe, (error,), text),
        call_ensures(RegistrationError::is_missing_api, (error,), missing),
    ensures
        error.status matches Some(status) ==> text@ == "Registration failed ("@ + status_line(
            status,
        ) + "): "@ + error.message@,
        error.status is None ==> text@ == "Registration failed: "@ + error.message@,
        missing <==> error.status == Some(404u16),
{
}

/// Whatever comes of a step, the exchange can go on.
pub proof fn exchanges_take_every_outcome(
    registration: &Registration,
    step: &RegistrationStep,
    error: String,
    status: u16,
    of_nonce: bool,
    content_type: Option<String>,
    text: String,
    account: RegisterResponse,
)
    ensures
        *step is Get || *step is Post || *step is Logout ==> call_requires(
            Registration::next,
            (registration, step, RegistrationEvent::Response { status, content_type }),
        ),
        *step !is ReadText && *step !is Finished ==> call_requires(
            Registration::next,
            (registration, step, RegistrationEvent::Failed(error)),
        ),
        call_requires(
            Registration::next,
            (registration, &RegistrationStep::ReadNonce, RegistrationEvent::Nonce(text)),
        ),
        call_requires(
            Registration::next,
            (registration, &RegistrationStep::ReadAccount, RegistrationEvent::Account(account)),
        ),
        call_requires(
            Registration::next,
            (
                registration,
                &RegistrationStep::ReadErrcode { status },
                RegistrationEvent::Errcode(text),
            ),
        ),
        call_requires(
            Registration::next,
            (
                registration,
                &RegistrationStep::ReadText { status, of_nonce },
                RegistrationEvent::Text(text),
            ),
        ),
{
}

} // verus!
