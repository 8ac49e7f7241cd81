use nerve::auth::{
    derive_secret, derive_sta_secret, token_login, AuthConfig, AuthError, LoginError, LoginEvent,
    LoginStep,
};
use nerve::registration::{
    compute_mac, is_json_response, is_success, register_with_shared_secret, RegisterResponse,
    Registration, RegistrationError, RegistrationEvent, RegistrationStep,
};
use nerve::users::{credentials_line, UserSpec};

fn text(s: &str) -> Option<String> {
    Some(s.to_owned())
}

fn config() -> AuthConfig {
    AuthConfig {
        shared_registration_secret: None,
        password_secret: None,
        sta_secret: None,
        sta_seed: None,
        open_registration: false,
        recovery_secret: "rec-secret".to_owned(),
    }
}

#[test]
fn derived_secrets_are_hmacs_in_base64() {
    assert_eq!(
        derive_secret("key", "The quick brown fox jumps over the lazy dog"),
        "3nybhbi3iqa8ino29wqQcBydtNk"
    );
    assert_eq!(
        derive_secret("pw-secret", "@alice:hs1.example.com"),
        "2xf+syYJS5oduacIqccV7HQVpXk"
    );
}

#[test]
fn derived_server_secrets_are_hashes_in_hexadecimal() {
    assert_eq!(
        derive_sta_secret("seed", "hs1"),
        "dbe0e304554419053c09effe425aa7a1c5f7844713520975e367e8f7fa6652a5"
    );
    assert_eq!(derive_sta_secret("se", "edhs1"), derive_sta_secret("seed", "hs1"));
}

#[test]
fn registration_mac_is_an_hmac_in_hexadecimal() {
    assert_eq!(
        compute_mac("secret", "nonce", "alice", "pw", false),
        "f9b5e1dbfecb7b1d1b89cbd7a2fd60853cf609f4"
    );
    assert_eq!(
        compute_mac("secret", "nonce", "alice", "pw", true),
        "d7b3ebc9fec30d9bed19eb81e3902aa4ad214333"
    );
}

#[test]
fn exactly_one_way_to_log_in() {
    assert_eq!(config().check(), Err(AuthError::NoMode));
    let shared = || AuthConfig {
        shared_registration_secret: text("s"),
        ..config()
    };
    assert_eq!(shared().check(), Err(AuthError::MissingPasswordSecret));
    assert_eq!(AuthConfig { password_secret: text("p"), ..shared() }.check(), Ok(()));
    assert_eq!(
        AuthConfig { sta_secret: text("t"), password_secret: text("p"), ..shared() }.check(),
        Err(AuthError::SeveralModes)
    );
    assert_eq!(
        AuthConfig { open_registration: true, ..config() }.check(),
        Err(AuthError::MissingPasswordSecret)
    );
    assert_eq!(AuthConfig { sta_seed: text("t"), ..config() }.check(), Ok(()));
    assert_eq!(
        AuthConfig { sta_secret: text("t"), password_secret: text("p"), ..config() }.check(),
        Ok(())
    );
    assert_eq!(
        AuthConfig { sta_secret: text("t"), sta_seed: text("u"), ..config() }.check(),
        Err(AuthError::SeveralModes)
    );
}

#[test]
fn server_secret_uses_the_first_label() {
    let direct = AuthConfig { sta_secret: text("direct"), ..config() };
    assert_eq!(direct.resolve_sta_secret("hs1.example.com"), text("direct"));
    let seeded = AuthConfig { sta_seed: text("seed"), ..config() };
    assert_eq!(
        seeded.resolve_sta_secret("hs1.example.com"),
        Some(derive_sta_secret("seed", "hs1"))
    );
    assert_eq!(
        seeded.resolve_sta_secret("localhost").unwrap(),
        "2aa734f72f3055a80fee56edec95dfddaf03979c04bc056108a51c5adcb8d7d2"
    );
    assert_eq!(config().resolve_sta_secret("hs1"), None);
    assert_eq!(config().account_password("@a:b"), None);
}

#[test]
fn credentials_for_people() {
    let user = UserSpec::from_str("@alice:hs1.example.com,@bob:x.org, @carol:y.org").unwrap();
    let with_password = AuthConfig { password_secret: text("pw-secret"), ..config() };
    assert_eq!(
        credentials_line(&with_password, &user),
        "@alice:hs1.example.com 2xf+syYJS5oduacIqccV7HQVpXk qy4biAyidZTlWuMpw35B8VCZiYI \
         peers=[@bob:x.org,@carol:y.org]"
    );
    let alone = UserSpec::from_str("@alice:hs1.example.com").unwrap();
    let with_seed = AuthConfig { sta_seed: text("seed"), ..config() };
    assert_eq!(
        credentials_line(&with_seed, &alone),
        "@alice:hs1.example.com \
         dbe0e304554419053c09effe425aa7a1c5f7844713520975e367e8f7fa6652a5 \
         qy4biAyidZTlWuMpw35B8VCZiYI peers=[]"
    );
    assert_eq!(
        credentials_line(&config(), &alone),
        "@alice:hs1.example.com  qy4biAyidZTlWuMpw35B8VCZiYI peers=[]"
    );
}

#[test]
fn login_with_shared_secret() {
    let auth = AuthConfig {
        shared_registration_secret: text("shared"),
        password_secret: text("pw-secret"),
        ..config()
    };
    let step = auth.login("hs1.example.com", "alice", "@alice:hs1.example.com");
    let LoginStep::Register { shared_secret, password } = &step else {
        panic!("{step:?}")
    };
    assert_eq!(shared_secret, "shared");
    assert_eq!(password, "2xf+syYJS5oduacIqccV7HQVpXk");
    let step = step.next(LoginEvent::Registered(Ok(())));
    assert!(matches!(
        &step,
        LoginStep::PasswordLogin { password } if password == "2xf+syYJS5oduacIqccV7HQVpXk"
    ));
    assert!(matches!(step.next(LoginEvent::LoggedIn), LoginStep::Finished(Ok(()))));
    let error = RegistrationError { status: Some(404), message: "gone".to_owned() };
    let step = auth
        .login("hs1.example.com", "alice", "@alice:hs1.example.com")
        .next(LoginEvent::Registered(Err(error)));
    assert!(matches!(
        step,
        LoginStep::Finished(Err(LoginError::Registration(e))) if e.status == Some(404)
    ));
}

#[test]
fn login_with_open_registration() {
    let auth = AuthConfig {
        open_registration: true,
        password_secret: text("pw-secret"),
        ..config()
    };
    let begin = || auth.login("hs1.example.com", "alice", "@alice:hs1.example.com");
    assert!(matches!(begin(), LoginStep::OpenRegister { dummy: None, .. }));
    let challenged = begin().next(LoginEvent::Challenged {
        session: text("s1"),
        error: "401".to_owned(),
    });
    assert!(matches!(
        &challenged,
        LoginStep::OpenRegister { dummy: Some(Some(session)), .. } if session == "s1"
    ));
    assert!(matches!(
        challenged.next(LoginEvent::OpenRegistered { logged_in: true }),
        LoginStep::Finished(Ok(()))
    ));
    let twice = begin()
        .next(LoginEvent::Challenged { session: None, error: "first".to_owned() })
        .next(LoginEvent::Challenged { session: None, error: "second".to_owned() });
    assert!(matches!(
        twice,
        LoginStep::Finished(Err(LoginError::Request(e))) if e == "second"
    ));
    assert!(matches!(
        begin().next(LoginEvent::UserInUse { logged_in: false }),
        LoginStep::PasswordLogin { .. }
    ));
    assert!(matches!(
        begin().next(LoginEvent::OpenRegistered { logged_in: false }),
        LoginStep::PasswordLogin { .. }
    ));
    assert!(matches!(
        begin().next(LoginEvent::Failed("down".to_owned())),
        LoginStep::Finished(Err(LoginError::Request(e))) if e == "down"
    ));
}

#[test]
fn token_names_the_user_and_expires_in_an_hour() {
    let auth = AuthConfig { sta_secret: text("jwt-secret"), ..config() };
    let now = 4_000_000_000;
    let step = auth.login_at("hs1.example.com", "alice", "@alice:hs1.example.com", Some(now));
    let LoginStep::TokenLogin { login_type, user, token } = step else {
        panic!("{step:?}")
    };
    assert_eq!(login_type, "com.famedly.login.token");
    assert_eq!(user, "alice");
    let key = jsonwebtoken::DecodingKey::from_secret(b"jwt-secret");
    let rules = jsonwebtoken::Validation::new(jsonwebtoken::Algorithm::HS512);
    let data = jsonwebtoken::decode::<serde_json::Value>(&token, &key, &rules).unwrap();
    assert_eq!(data.claims["sub"], "alice");
    assert_eq!(data.claims["exp"], now + 3600);
    assert_eq!(data.claims.as_object().unwrap().len(), 2);
    let again = auth.login_at("hs1.example.com", "alice", "@alice:hs1.example.com", Some(now));
    assert!(matches!(again, LoginStep::TokenLogin { token: t, .. } if t == token));
}

#[test]
fn token_login_and_its_failures() {
    let auth = AuthConfig { sta_seed: text("seed"), ..config() };
    assert!(matches!(
        auth.login("hs1.example.com", "alice", "@alice:hs1.example.com"),
        LoginStep::TokenLogin { .. }
    ));
    assert!(matches!(
        auth.login_at("hs1", "alice", "@alice:hs1", None),
        LoginStep::Finished(Err(LoginError::Clock))
    ));
    assert!(matches!(
        auth.login_at("hs1", "alice", "@alice:hs1", Some(u64::MAX)),
        LoginStep::Finished(Err(LoginError::Clock))
    ));
    assert!(matches!(
        token_login("alice", Err("no key".to_owned())),
        LoginStep::Finished(Err(LoginError::Token(e))) if e == "failed to encode JWT: no key"
    ));
    assert!(matches!(
        token_login("alice", Ok("t".to_owned())).next(LoginEvent::Failed("403".to_owned())),
        LoginStep::Finished(Err(LoginError::Request(e))) if e == "403"
    ));
}

// ── Registration ────────────────────────────────────────────────────────

fn begin() -> (Registration, RegistrationStep) {
    register_with_shared_secret("https://hs1.example.com", "secret", "alice", "pw")
}

fn reply(status: u16) -> RegistrationEvent {
    RegistrationEvent::Response { status, content_type: None }
}

fn json_reply(status: u16) -> RegistrationEvent {
    RegistrationEvent::Response {
        status,
        content_type: text("application/json; charset=utf-8"),
    }
}

fn failed(s: &str) -> RegistrationEvent {
    RegistrationEvent::Failed(s.to_owned())
}

fn account() -> RegisterResponse {
    RegisterResponse {
        access_token: "token".to_owned(),
        device_id: "DEV".to_owned(),
        home_server: None,
        user_id: "@alice:hs1.example.com".to_owned(),
    }
}

fn error_of(step: RegistrationStep) -> (Option<u16>, String, String) {
    match step {
        RegistrationStep::Finished(Err(e)) => {
            let description = e.describe();
            (e.status, e.message, description)
        }
        other => panic!("{other:?}"),
    }
}

#[test]
fn registration_logs_the_new_device_out() {
    let (registration, step) = begin();
    assert!(matches!(
        &step,
        RegistrationStep::Get { url }
            if url == "https://hs1.example.com/_synapse/admin/v1/register"
    ));
    let step = registration.next(&step, reply(200));
    assert!(matches!(step, RegistrationStep::ReadNonce));
    let step = registration.next(&step, RegistrationEvent::Nonce("nonce".to_owned()));
    let RegistrationStep::Post { url, request } = &step else {
        panic!("{step:?}")
    };
    assert_eq!(url, "https://hs1.example.com/_synapse/admin/v1/register");
    assert_eq!(request.nonce, "nonce");
    assert_eq!(request.username, "alice");
    assert_eq!(request.password, "pw");
    assert!(!request.admin);
    assert_eq!(request.mac, "f9b5e1dbfecb7b1d1b89cbd7a2fd60853cf609f4");
    let step = registration.next(&step, reply(200));
    assert!(matches!(step, RegistrationStep::ReadAccount));
    let step = registration.next(&step, RegistrationEvent::Account(account()));
    assert!(matches!(
        &step,
        RegistrationStep::Logout { url, access_token }
            if url == "https://hs1.example.com/_matrix/client/v3/logout" && access_token == "token"
    ));
    assert!(matches!(
        registration.next(&step, reply(200)),
        RegistrationStep::Finished(Ok(()))
    ));
    let (status, message, _) = error_of(registration.next(&step, reply(500)));
    assert_eq!((status, message.as_str()), (Some(500), "post-registration logout failed"));
    let (status, message, _) = error_of(registration.next(&step, failed("reset")));
    assert_eq!((status, message.as_str()), (None, "post-registration logout failed: reset"));
}

#[test]
fn registration_of_an_existing_account() {
    let (registration, _) = begin();
    let posted = registration.next(
        &RegistrationStep::ReadNonce,
        RegistrationEvent::Nonce("n".to_owned()),
    );
    let step = registration.next(&posted, json_reply(400));
    assert!(matches!(step, RegistrationStep::ReadErrcode { status: 400 }));
    let code = |s: &str| RegistrationEvent::Errcode(s.to_owned());
    assert!(matches!(
        registration.next(&step, code("M_USER_IN_USE")),
        RegistrationStep::Finished(Ok(()))
    ));
    let (status, message, description) = error_of(registration.next(&step, code("M_FORBIDDEN")));
    assert_eq!((status, message.as_str()), (Some(400), "M_FORBIDDEN"));
    assert_eq!(description, "Registration failed (400 Bad Request): M_FORBIDDEN");
    let (status, message, _) = error_of(registration.next(&step, failed("eof")));
    assert_eq!((status, message.as_str()), (Some(400), "error response decode failed: eof"));
}

#[test]
fn registration_errors() {
    let (registration, first) = begin();
    let (status, _, description) = error_of(registration.next(&first, failed("dns")));
    assert_eq!(status, None);
    assert_eq!(description, "Registration failed: nonce request failed: dns");
    let step = registration.next(&first, reply(404));
    assert!(matches!(step, RegistrationStep::ReadText { status: 404, of_nonce: true }));
    let (status, _, description) =
        error_of(registration.next(&step, RegistrationEvent::Text("no".to_owned())));
    assert_eq!(status, Some(404));
    assert_eq!(description, "Registration failed (404 Not Found): nonce request: no");
    let (_, message, _) = error_of(registration.next(&RegistrationStep::ReadNonce, failed("x")));
    assert_eq!(message, "nonce decode failed: x");
    let posted = registration.next(
        &RegistrationStep::ReadNonce,
        RegistrationEvent::Nonce("n".to_owned()),
    );
    let (_, message, _) = error_of(registration.next(&posted, failed("y")));
    assert_eq!(message, "register request failed: y");
    let step = registration.next(&posted, reply(599));
    assert!(matches!(step, RegistrationStep::ReadText { status: 599, of_nonce: false }));
    let (_, _, description) =
        error_of(registration.next(&step, RegistrationEvent::Text("oops".to_owned())));
    assert_eq!(description, "Registration failed (599 <unknown status code>): oops");
    let (_, message, _) = error_of(registration.next(&RegistrationStep::ReadAccount, failed("z")));
    assert_eq!(message, "register response decode failed: z");
}

#[test]
fn success_codes_and_json() {
    assert!(!is_success(199) && is_success(200) && is_success(299) && !is_success(300));
    assert!(is_json_response(&text("application/json")));
    assert!(!is_json_response(&text("text/html")));
    assert!(!is_json_response(&text("application/jso")));
    assert!(!is_json_response(&None));
}
