use nerve::auth::LoginError;
use nerve::config::is_set;
use nerve::lifecycle::{
    after_sync, is_fatal_sync_status, login_is_fatal, rounds_event, NextSync,
    RecoveryStatus, RunUserError, RunUserOutcome, Stage, StageEvent,
};
use nerve::registration::RegistrationError;
use nerve::supervision::{
    login_delays, Readiness, ServerEvent, ServerState, SupervisorEvent, SupervisorState,
};
use nerve::telemetry::{
    exporter_endpoint, metadata_headers, otlp_headers, otlp_protocol, service_name, OtlpHeader,
    OtlpProtocol, ProtocolChoice, Signal,
};

fn ended(stage: Stage) -> String {
    match stage {
        Stage::Ended(RunUserOutcome::Failed(e)) => e.message(),
        other => panic!("{other:?}"),
    }
}

fn sync_failed(fatal: bool) -> StageEvent {
    StageEvent::SyncFailed { fatal, error: "e".to_owned() }
}

#[test]
fn first_device_creates_the_secrets() {
    let stage = Stage::Build.next(StageEvent::Done).next(StageEvent::Done);
    assert!(matches!(stage, Stage::Sync));
    let stage = stage.next(StageEvent::Invited(2));
    assert!(matches!(stage, Stage::JoinInvites));
    let stage = stage.next(StageEvent::Done).next(StageEvent::Done);
    assert!(matches!(stage, Stage::Elect));
    let stage =
        stage.next(StageEvent::Elected { primary: true, recovery: RecoveryStatus::Disabled });
    assert!(matches!(stage, Stage::Bootstrap));
    let stage = stage.next(StageEvent::Done);
    assert!(matches!(stage, Stage::EnableRecovery));
    let stage = stage.next(StageEvent::Done);
    assert!(matches!(stage, Stage::Rounds));
    let stage = stage.next(StageEvent::Stop);
    assert!(matches!(stage, Stage::Backup));
    let stage = stage.next(StageEvent::Failed("backup".to_owned()));
    assert!(matches!(stage, Stage::Logout));
    assert!(matches!(
        stage.next(StageEvent::Failed("logout".to_owned())),
        Stage::Ended(RunUserOutcome::Shutdown)
    ));
}

#[test]
fn existing_secrets_are_imported() {
    for recovery in [RecoveryStatus::Enabled, RecoveryStatus::Incomplete] {
        for primary in [true, false] {
            let stage = Stage::Sync.next(StageEvent::Invited(0));
            let stage = stage.next(StageEvent::Elected { primary, recovery });
            assert!(matches!(stage, Stage::Import));
            assert!(matches!(stage.next(StageEvent::Done), Stage::Rounds));
        }
    }
}

#[test]
fn other_devices_wait_for_two_minutes() {
    let mut stage =
        Stage::Elect.next(StageEvent::Elected { primary: false, recovery: RecoveryStatus::Unknown });
    let mut looks = 0;
    loop {
        looks += 1;
        stage = stage.next(StageEvent::Synced(RecoveryStatus::Disabled));
        match stage {
            Stage::Pause { .. } => stage = stage.next(StageEvent::Done),
            _ => break,
        }
    }
    assert_eq!(looks, 61);
    assert_eq!(ended(stage), "timed out waiting for the primary device to enable recovery");
    let stage = Stage::AwaitSecrets { waited: 120 };
    assert!(matches!(
        stage.next(StageEvent::Synced(RecoveryStatus::Incomplete)),
        Stage::Import
    ));
}

#[test]
fn stopped_users_log_out() {
    for stage in [Stage::Rounds, Stage::AwaitSecrets { waited: 4 }, Stage::Pause { waited: 4 }] {
        for failing in [false, true] {
            let outcome = || {
                if failing { StageEvent::Failed("x".to_owned()) } else { StageEvent::Done }
            };
            let stage = stage.next(StageEvent::Stop);
            assert!(matches!(stage, Stage::Backup));
            let stage = stage.next(outcome());
            assert!(matches!(stage, Stage::Logout));
            let stage = stage.next(outcome());
            assert!(matches!(stage, Stage::Ended(RunUserOutcome::Shutdown)));
        }
    }
}

#[test]
fn failures_of_a_run() {
    assert_eq!(ended(Stage::Build.next(StageEvent::Failed("b".to_owned()))), "b");
    for stage in [Stage::Sync, Stage::SyncJoined, Stage::AwaitSecrets { waited: 0 }] {
        assert_eq!(ended(stage.next(sync_failed(true))), "fatal: e");
        assert_eq!(ended(stage.next(sync_failed(false))), "e");
    }
    for stage in [Stage::Import, Stage::Bootstrap, Stage::EnableRecovery] {
        assert_eq!(ended(stage.next(StageEvent::Failed("x".to_owned()))), "x");
    }
    let login = |fatal| StageEvent::LoginFailed { fatal, error: "l".to_owned() };
    assert_eq!(ended(Stage::Login.next(login(true))), "fatal: l");
    assert_eq!(ended(Stage::Login.next(login(false))), "l");
    assert_eq!(ended(Stage::Rounds.next(StageEvent::FatalSync)), "fatal: sync returned 401 or 404");
    assert!(matches!(RunUserError::other("o".to_owned()), RunUserError::Other(e) if e == "o"));
}

#[test]
fn fatal_status_codes() {
    assert!(is_fatal_sync_status(Some(401), None, None));
    assert!(is_fatal_sync_status(Some(404), Some(500), None));
    assert!(!is_fatal_sync_status(Some(500), Some(404), Some(404)));
    assert!(is_fatal_sync_status(None, Some(404), Some(500)));
    assert!(!is_fatal_sync_status(None, Some(403), Some(401)));
    assert!(is_fatal_sync_status(None, None, Some(401)));
    assert!(!is_fatal_sync_status(None, None, None));
}

#[test]
fn missing_registration_interface_is_fatal() {
    let error = |status| {
        LoginError::Registration(RegistrationError { status, message: String::new() })
    };
    assert!(login_is_fatal(&error(Some(404))));
    assert!(!login_is_fatal(&error(Some(401))));
    assert!(!login_is_fatal(&error(None)));
    assert!(!login_is_fatal(&LoginError::Request("404".to_owned())));
}

#[test]
fn ends_of_rounds_and_of_syncing() {
    assert!(rounds_event(false, false).is_none());
    assert!(matches!(rounds_event(true, true), Some(StageEvent::Stop)));
    assert!(matches!(rounds_event(false, true), Some(StageEvent::FatalSync)));
    assert_eq!(after_sync(true, Some(true)), NextSync::End);
    assert_eq!(after_sync(false, None), NextSync::Again);
    assert_eq!(after_sync(false, Some(false)), NextSync::AfterPause);
    assert_eq!(after_sync(false, Some(true)), NextSync::ReportFatal);
}

#[test]
fn readiness_counts_users() {
    let mut r = Readiness::new(2);
    assert!(!r.enter());
    assert!(r.enter());
    assert!(!r.leave());
    assert!(r.enter());
    assert_eq!(r.ready, 2);
}

#[test]
fn readiness_server() {
    let look = |stop, ready| ServerState::Looking.next(ServerEvent::Looked { stop, ready });
    assert_eq!(look(true, true), ServerState::Ended);
    assert_eq!(look(false, true), ServerState::Binding);
    let watching = look(false, false);
    assert_eq!(watching, ServerState::Watching);
    assert_eq!(watching.next(ServerEvent::ReadyChanged(false)), ServerState::Looking);
    assert_eq!(watching.next(ServerEvent::StopChanged), ServerState::Ended);
    assert_eq!(ServerState::Binding.next(ServerEvent::BindFailed), ServerState::Ended);
    let listening = ServerState::Binding.next(ServerEvent::Bound);
    assert_eq!(listening.next(ServerEvent::Accepted), ServerState::Listening);
    assert_eq!(listening.next(ServerEvent::ReadyChanged(true)), ServerState::Listening);
    assert_eq!(listening.next(ServerEvent::ReadyChanged(false)), ServerState::Looking);
    assert_eq!(listening.next(ServerEvent::StopChanged), ServerState::Ended);
}

#[test]
fn first_logins_are_staggered() {
    assert_eq!(login_delays(&vec![10, 7, 0, 5]), Some(vec![0, 10, 17, 17]));
    assert_eq!(login_delays(&vec![]), Some(vec![]));
    assert_eq!(login_delays(&vec![u64::MAX]), Some(vec![0]));
    assert_eq!(login_delays(&vec![1, u64::MAX]), None);
    assert_eq!(SupervisorState::begin(0), SupervisorState::Looking { first: true });
    assert_eq!(SupervisorState::begin(1), SupervisorState::Staggering);
}

#[test]
fn failed_runs_restart_one_at_a_time() {
    let go = SupervisorEvent::Looked { stop: false };
    let stop = SupervisorEvent::Looked { stop: true };
    let state = SupervisorState::Staggering.next(SupervisorEvent::Slept);
    assert_eq!(state, SupervisorState::Looking { first: true });
    assert_eq!(state.next(stop), SupervisorState::Ended);
    let state = state.next(go);
    assert_eq!(state, SupervisorState::Running);
    assert!(!state.holds_lock());
    assert_eq!(state.next(SupervisorEvent::RunStopped), SupervisorState::Ended);
    let state = state.next(SupervisorEvent::RunFailed).next(go);
    assert_eq!(state, SupervisorState::Locking);
    let state = state.next(SupervisorEvent::LockTaken);
    assert!(state.holds_lock());
    assert_eq!(state.next(stop), SupervisorState::Ended);
    let state = state.next(go).next(SupervisorEvent::Slept).next(go);
    assert_eq!(state, SupervisorState::AwaitingLogin);
    assert!(state.holds_lock());
    assert_eq!(
        state.next(SupervisorEvent::RunFailed),
        SupervisorState::Looking { first: false }
    );
    let state = state.next(SupervisorEvent::LoggedIn);
    assert_eq!(state, SupervisorState::Easing);
    assert!(state.holds_lock());
    assert_eq!(state.next(SupervisorEvent::StopChanged), SupervisorState::Running);
    assert_eq!(
        SupervisorState::Staggering.next(SupervisorEvent::StopChanged),
        SupervisorState::Ended
    );
    assert_eq!(
        SupervisorState::Pausing.next(SupervisorEvent::StopChanged),
        SupervisorState::Ended
    );
}

// ── Settings and telemetry ──────────────────────────────────────────────

#[test]
fn switches() {
    assert!(!is_set(&None));
    assert!(!is_set(&Some(String::new())));
    assert!(is_set(&Some("0".to_owned())));
}

#[test]
fn protocols() {
    assert_eq!(otlp_protocol("grpc"), ProtocolChoice::Use(OtlpProtocol::Grpc));
    assert_eq!(otlp_protocol("http/json"), ProtocolChoice::Use(OtlpProtocol::HttpJson));
    assert_eq!(otlp_protocol("http/protobuf"), ProtocolChoice::Use(OtlpProtocol::HttpProtobuf));
    assert_eq!(otlp_protocol(""), ProtocolChoice::Use(OtlpProtocol::Grpc));
    assert_eq!(otlp_protocol("GRPC"), ProtocolChoice::Unrecognized);
}

#[test]
fn endpoints_and_names() {
    let url = "http://otel-collector:4317";
    assert_eq!(exporter_endpoint(OtlpProtocol::Grpc, Signal::Logs, url), url);
    assert_eq!(
        exporter_endpoint(OtlpProtocol::HttpJson, Signal::Traces, url),
        "http://otel-collector:4317/v1/traces"
    );
    assert_eq!(
        exporter_endpoint(OtlpProtocol::HttpProtobuf, Signal::Logs, url),
        "http://otel-collector:4317/v1/logs"
    );
    assert_eq!(service_name(&None), "nerve");
    assert_eq!(service_name(&Some("other".to_owned())), "other");
}

fn pairs(headers: &[OtlpHeader]) -> Vec<(&str, &str)> {
    headers.iter().map(|h| (h.name.as_str(), h.value.as_str())).collect()
}

#[test]
fn headers() {
    assert!(otlp_headers("").is_empty());
    let list = otlp_headers(" a = 1 ,b,=x, c==d= ,e=");
    assert_eq!(pairs(&list), [("a", "1"), ("c", "=d="), ("e", "")]);
}

#[test]
fn later_header_counts() {
    let list = otlp_headers("k1=v1, k2 = a=b ,novalue,=x,k1=v3");
    let mut found = pairs(&list);
    found.sort();
    assert_eq!(found, [("k1", "v3"), ("k2", "a=b")]);
    let list = otlp_headers("k=v1,k=a\u{7f}");
    assert_eq!(pairs(&list), [("k", "a\u{7f}")]);
    assert!(metadata_headers(&list).is_empty());
}

#[test]
fn headers_for_metadata() {
    let list = otlp_headers("x-Key=v,bad name=1,ok=a\u{7f}b,tab=a\tb,ü=1,n=ü,~=1,q\"=1");
    assert_eq!(
        pairs(&metadata_headers(&list)),
        [("x-Key", "v"), ("tab", "a\tb"), ("n", "ü"), ("~", "1")]
    );
    for n in 0..=0x250u32 {
        let c = char::from_u32(n).unwrap();
        let one = vec![OtlpHeader { name: c.to_string(), value: "v".to_owned() }];
        let name = reqwest::header::HeaderName::from_bytes(c.to_string().as_bytes()).is_ok();
        assert_eq!(metadata_headers(&one).len() == 1, name, "{c:?}");
        let one = vec![OtlpHeader { name: "n".to_owned(), value: c.to_string() }];
        let value = reqwest::header::HeaderValue::from_str(&c.to_string()).is_ok();
        assert_eq!(metadata_headers(&one).len() == 1, value, "{c:?}");
    }
    let long = vec![OtlpHeader { name: "a".repeat(65536), value: "v".to_owned() }];
    assert!(metadata_headers(&long).is_empty());
    let fits = vec![OtlpHeader { name: "a".repeat(65535), value: "v".to_owned() }];
    assert_eq!(metadata_headers(&fits).len(), 1);
}
