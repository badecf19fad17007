use eikon_client::connection::candidate_ports;
use eikon_client::connection::first_live_port;
use eikon_client::connection::u64_dec;
use eikon_client::connection::wrap_entity;
use eikon_client::connection::Connection;
use eikon_client::connection::Direction;
use eikon_client::dispatch::classify_call;
use eikon_client::dispatch::collect_outcomes;
use eikon_client::dispatch::CallAction;
use eikon_client::dispatch::CallEvent;
use eikon_client::dispatch::ChunkOutcome;
use eikon_client::json::JsonVal;
use eikon_client::utils::EkError;

fn jstr(s: &str) -> JsonVal {
    JsonVal::Str(s.to_string())
}

fn jobj(entries: Vec<(&str, JsonVal)>) -> JsonVal {
    JsonVal::Obj(entries.into_iter().map(|(k, v)| (k.to_string(), v)).collect())
}

fn jarr(items: Vec<JsonVal>) -> JsonVal {
    JsonVal::Arr(items)
}

fn datagrid_reply() -> JsonVal {
    jobj(vec![(
        "responses",
        jarr(vec![jobj(vec![("data", jarr(vec![]))])]),
    )])
}

#[test]
fn replies_are_classified_by_their_markers() {
    let ts_reply = jobj(vec![("timeseriesData", jarr(vec![]))]);
    assert!(matches!(
        classify_call(CallEvent::Reply(ts_reply)),
        CallAction::Contribute(_)
    ));
    assert!(matches!(
        classify_call(CallEvent::Reply(datagrid_reply())),
        CallAction::Contribute(_)
    ));
    let markerless = jobj(vec![("something", JsonVal::Null)]);
    assert!(matches!(
        classify_call(CallEvent::Reply(markerless)),
        CallAction::SkipEmpty
    ));
}

#[test]
fn only_send_failures_are_retried() {
    assert!(matches!(
        classify_call(CallEvent::TransientFailure("reset".to_string())),
        CallAction::RetryCall
    ));
    match classify_call(CallEvent::TerminalFailure("down".to_string())) {
        CallAction::Abort(EkError::ConnectionError(m)) => assert_eq!(m, "down"),
        _ => panic!("a terminal failure must abort with a connection error"),
    }
    match classify_call(CallEvent::MalformedBody("bad json".to_string())) {
        CallAction::Abort(EkError::NoData(m)) => assert_eq!(m, "bad json"),
        _ => panic!("a malformed body must abort with a no-data error"),
    }
}

#[test]
fn transient_failure_then_success_surfaces_no_error() {
    // First attempt: the call could not be sent; the dispatcher retries.
    assert!(matches!(
        classify_call(CallEvent::TransientFailure("refused".to_string())),
        CallAction::RetryCall
    ));
    // Second attempt: a reply with data markers contributes.
    let action = classify_call(CallEvent::Reply(datagrid_reply()));
    let outcome = match action {
        CallAction::Contribute(v) => ChunkOutcome::Data(v),
        _ => panic!("the retried call's reply must contribute"),
    };
    let collected = collect_outcomes(vec![outcome]);
    match collected {
        Ok(vs) => assert_eq!(vs.len(), 1),
        Err(_) => panic!("no error may be surfaced after a successful retry"),
    }
}

#[test]
fn a_fatal_chunk_aborts_the_whole_operation() {
    let outcomes = vec![
        ChunkOutcome::Data(datagrid_reply()),
        ChunkOutcome::Data(datagrid_reply()),
        ChunkOutcome::Fatal(EkError::ConnectionError("chunk 3 died".to_string())),
        ChunkOutcome::Data(datagrid_reply()),
        ChunkOutcome::Empty,
    ];
    match collect_outcomes(outcomes) {
        Err(EkError::ConnectionError(m)) => assert_eq!(m, "chunk 3 died"),
        _ => panic!("the fatal chunk's error must be the whole result"),
    }
}

#[test]
fn empty_chunks_contribute_nothing() {
    let outcomes = vec![
        ChunkOutcome::Empty,
        ChunkOutcome::Data(datagrid_reply()),
        ChunkOutcome::Empty,
    ];
    match collect_outcomes(outcomes) {
        Ok(vs) => assert_eq!(vs.len(), 1),
        Err(_) => panic!("empty chunks are not errors"),
    }
}

#[test]
fn addresses_carry_scheme_host_port_and_path() {
    let c = Connection::new("secret".to_string(), "127.0.0.1".to_string(), 9000);
    assert_eq!(c.get_url(), "http://127.0.0.1");
    assert_eq!(c.get_address(), "http://127.0.0.1:9000");
    assert_eq!(c.status_url(9003), "http://127.0.0.1:9003/api/status");
    assert_eq!(c.handshake_url(), "http://127.0.0.1:9000/api/handshake");
    assert_eq!(c.data_url(), "http://127.0.0.1:9000/api/v1/data");
    assert_eq!(c.get_app_key().as_str(), "secret");
    let mut c = c;
    c.set_port(9005);
    assert_eq!(c.get_address(), "http://127.0.0.1:9005");
}

#[test]
fn decimal_rendering_is_exact() {
    assert_eq!(u64_dec(0), "0");
    assert_eq!(u64_dec(7), "7");
    assert_eq!(u64_dec(9000), "9000");
    assert_eq!(u64_dec(50321), "50321");
}

#[test]
fn the_envelope_names_the_direction() {
    let payload = jobj(vec![("x", jstr("y"))]);
    let wrapped = wrap_entity(&Direction::DataGrid, payload);
    let entity = wrapped.get(&"Entity".to_string()).expect("entity");
    match entity.get(&"E".to_string()).expect("direction") {
        JsonVal::Str(s) => assert_eq!(s, "DataGrid_StandardAsync"),
        _ => panic!("direction is not a string"),
    }
    assert!(entity.get(&"W".to_string()).is_some());
    assert_eq!(Direction::TimeSeries.as_str(), "TimeSeries");
}

#[test]
fn handshake_body_carries_the_credential() {
    let c = Connection::new("secret".to_string(), "127.0.0.1".to_string(), 9000);
    let body = c.handshake_body();
    match body.get(&"AppKey".to_string()).expect("app key") {
        JsonVal::Str(s) => assert_eq!(s, "secret"),
        _ => panic!("app key is not a string"),
    }
    match body.get(&"AppScope".to_string()).expect("scope") {
        JsonVal::Str(s) => assert_eq!(s, "trapi"),
        _ => panic!("scope is not a string"),
    }
    match body.get(&"ApiVersion".to_string()).expect("version") {
        JsonVal::Str(s) => assert_eq!(s, "1"),
        _ => panic!("version is not a string"),
    }
}

#[test]
fn port_discovery_takes_the_first_live_candidate() {
    let ports = candidate_ports();
    assert_eq!(ports, vec![9000, 9001, 9002, 9003, 9004, 9005, 9006, 9007, 9008, 9009]);
    let mut live = vec![false; 10];
    assert_eq!(first_live_port(&live), None);
    live[2] = true;
    live[5] = true;
    assert_eq!(first_live_port(&live), Some(9002));
}
