use inbox_ui::acceptor::{
    basic_auth_stored, bearer_stored, connection_transferred, handle_connection, handler_spawned, init_begin, init_step,
    initial_config_text, listening, validate_config, AcceptorState, Config, InitAction, InitStage,
};

fn config() -> Config {
    Config {
        bearer_token: "tok".to_string(),
        basic_auth: "u:p".to_string(),
        api_base_url: "https://h".to_string(),
        ui_handler_manifest: "manifest".to_string(),
    }
}

#[test]
fn initial_state_must_be_nonempty_text() {
    let msg = "ui-acceptor needs initial_state as a non-empty JSON string".to_string();
    assert_eq!(initial_config_text(Some("{}".to_string())), Ok("{}".to_string()));
    assert_eq!(initial_config_text(Some(String::new())), Err(msg.clone()));
    assert_eq!(initial_config_text(None), Err(msg));
}

#[test]
fn config_fields_must_be_nonempty() {
    assert_eq!(validate_config(&config()), Ok(()));
    let mut c = config();
    c.ui_handler_manifest = String::new();
    assert_eq!(
        validate_config(&c),
        Err("all four config fields (bearer_token, basic_auth, api_base_url, ui_handler_manifest) must be non-empty".to_string())
    );
}

#[test]
fn start_up_steps() {
    assert_eq!(bearer_stored(Ok("r".to_string())), Ok(()));
    assert_eq!(bearer_stored(Err("e".to_string())), Err("persist bearer token failed: e".to_string()));
    assert_eq!(basic_auth_stored(Err("e".to_string())), Err("persist basic_auth failed: e".to_string()));
    let s = listening(config(), Ok("L1".to_string())).ok().unwrap();
    assert_eq!(s.listener_id, "L1");
    assert_eq!(s.ui_handler_manifest, "manifest");
    assert_eq!(s.api_base_url, "https://h");
    assert_eq!(listening(config(), Err("busy".to_string())).err(), Some("listen failed: busy".to_string()));
}

#[test]
fn connection_steps() {
    assert_eq!(handler_spawned(Ok("child".to_string())), Ok("child".to_string()));
    assert_eq!(handler_spawned(Err("x".to_string())), Err("spawn ui-handler failed: x".to_string()));
    assert_eq!(connection_transferred("child".to_string(), Ok(())), Ok(()));
    assert_eq!(
        connection_transferred("child".to_string(), Err("x".to_string())),
        Err(("child".to_string(), "transfer failed: x".to_string()))
    );
}

#[test]
fn failed_connection_keeps_acceptor_running() {
    let state = || AcceptorState {
        listener_id: "L1".to_string(),
        ui_handler_manifest: "manifest".to_string(),
        api_base_url: "https://h".to_string(),
    };
    for outcome in [Ok(()), Err("transfer failed: x".to_string())] {
        let s = handle_connection(state(), outcome).ok().unwrap();
        assert_eq!(s.listener_id, "L1");
        assert_eq!(s.ui_handler_manifest, "manifest");
        assert_eq!(s.api_base_url, "https://h");
    }
}

#[test]
fn start_up_stores_the_secrets_then_listens() {
    let (label, content, next) = match init_begin(config()) {
        InitAction::Store { label, content, next } => (label, content, next),
        _ => panic!("expected the bearer token to be stored first"),
    };
    assert_eq!(label, "ui-api-bearer-token");
    assert_eq!(content, b"tok".to_vec());
    assert!(matches!(next, InitStage::StoringBearer(_)));
    let (label, content, next) = match init_step(next, Ok("ref".to_string())) {
        InitAction::Store { label, content, next } => (label, content, next),
        _ => panic!("expected the credential to be stored next"),
    };
    assert_eq!(label, "ui-basic-auth");
    assert_eq!(content, b"u:p".to_vec());
    let (address, next) = match init_step(next, Ok("ref".to_string())) {
        InitAction::Listen { address, next } => (address, next),
        _ => panic!("expected to listen next"),
    };
    assert_eq!(address, "0.0.0.0:8080");
    match init_step(next, Ok("L9".to_string())) {
        InitAction::Ready(s) => {
            assert_eq!(s.listener_id, "L9");
            assert_eq!(s.ui_handler_manifest, "manifest");
        },
        _ => panic!("expected start-up to be done"),
    }
}

#[test]
fn start_up_failures_end_it() {
    let mut c = config();
    c.bearer_token = String::new();
    assert!(matches!(init_begin(c), InitAction::Fail(_)));
    match init_step(InitStage::StoringBearer(config()), Err("full".to_string())) {
        InitAction::Fail(e) => assert_eq!(e, "persist bearer token failed: full"),
        _ => panic!("expected a failure"),
    }
    match init_step(InitStage::StoringCredential(config()), Err("full".to_string())) {
        InitAction::Fail(e) => assert_eq!(e, "persist basic_auth failed: full"),
        _ => panic!("expected a failure"),
    }
    match init_step(InitStage::Listening(config()), Err("busy".to_string())) {
        InitAction::Fail(e) => assert_eq!(e, "listen failed: busy"),
        _ => panic!("expected a failure"),
    }
}
