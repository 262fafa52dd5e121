//! The acceptor: owns the listen socket, and for each accepted connection
//! spawns a fresh handler and hands the connection to it. At start-up it
//! writes the bearer token and the Basic credential to the shared store, so
//! that handlers can read them without the secrets travelling with every
//! spawn.
//!
//! The library holds the acceptor's decisions; the runtime calls (store,
//! listen, spawn, transfer) are the caller's, each followed by the matching
//! decision here.

use crate::text::{bytes_of, owned, push_str};
use vstd::utf8::*;
use vstd::prelude::*;

verus! {

/// What the acceptor keeps between connections.
pub struct AcceptorState {
    pub listener_id: String,
    pub ui_handler_manifest: String,
    pub api_base_url: String,
}

/// The acceptor's configuration, from its initial state.
pub struct Config {
    pub bearer_token: String,
    pub basic_auth: String,
    pub api_base_url: String,
    pub ui_handler_manifest: String,
}

/// The plain-TCP address the acceptor listens on; TLS is configured in the
/// deployment.
pub const LISTEN_ADDR: &'static str = "0.0.0.0:8080";

/// The shared store that receives the secrets.
pub const STORE_ID: &'static str = "inbox";

/// The store label of the API bearer token.
pub const BEARER_TOKEN_LABEL: &'static str = "ui-api-bearer-token";

/// The store label of the Basic credential.
pub const BASIC_AUTH_LABEL: &'static str = "ui-basic-auth";

/// The configuration text: the initial state must be a non-empty string.
pub fn initial_config_text(state: Option<String>) -> (r: Result<String, String>)
    ensures
        match state {
            Some(s) => if s@.len() > 0 {
                r matches Ok(t) && t@ == s@
            } else {
                r matches Err(e) && e@ == "ui-acceptor needs initial_state as a non-empty JSON string"@
            },
            None => r matches Err(e) && e@
                == "ui-acceptor needs initial_state as a non-empty JSON string"@,
        },
{
    match state {
        Some(s) => {
            if s.as_str().is_empty() {
                Err(owned("ui-acceptor needs initial_state as a non-empty JSON string"))
            } else {
                Ok(s)
            }
        },
        None => Err(owned("ui-acceptor needs initial_state as a non-empty JSON string")),
    }
}

/// Every field of the configuration must be non-empty.
pub fn validate_config(cfg: &Config) -> (r: Result<(), String>)
    ensures
        (cfg.bearer_token@.len() > 0 && cfg.basic_auth@.len() > 0 && cfg.api_base_url@.len() > 0
            && cfg.ui_handler_manifest@.len() > 0) ==> r is Ok,
        !(cfg.bearer_token@.len() > 0 && cfg.basic_auth@.len() > 0 && cfg.api_base_url@.len() > 0
            && cfg.ui_handler_manifest@.len() > 0) ==> (r matches Err(e) && e@
            == "all four config fields (bearer_token, basic_auth, api_base_url, ui_handler_manifest) must be non-empty"@),
{
    if cfg.bearer_token.as_str().is_empty() || cfg.basic_auth.as_str().is_empty()
        || cfg.api_base_url.as_str().is_empty() || cfg.ui_handler_manifest.as_str().is_empty() {
        Err(
            owned(
                "all four config fields (bearer_token, basic_auth, api_base_url, ui_handler_manifest) must be non-empty",
            ),
        )
    } else {
        Ok(())
    }
}

fn prefixed(prefix: &str, e: &str) -> (r: String)
    ensures
        r@ == prefix@ + e@,
{
    let mut m = owned(prefix);
    push_str(&mut m, e);
    m
}

/// After writing the bearer token to the store.
pub fn bearer_stored(result: Result<String, String>) -> (r: Result<(), String>)
    ensures
        match result {
            Ok(_) => r is Ok,
            Err(e) => r matches Err(m) && m@ == "persist bearer token failed: "@ + e@,
        },
{
    match result {
        Ok(_) => Ok(()),
        Err(e) => Err(prefixed("persist bearer token failed: ", e.as_str())),
    }
}

/// After writing the Basic credential to the store.
pub fn basic_auth_stored(result: Result<String, String>) -> (r: Result<(), String>)
    ensures
        match result {
            Ok(_) => r is Ok,
            Err(e) => r matches Err(m) && m@ == "persist basic_auth failed: "@ + e@,
        },
{
    match result {
        Ok(_) => Ok(()),
        Err(e) => Err(prefixed("persist basic_auth failed: ", e.as_str())),
    }
}

/// After asking to listen: the acceptor's state, holding the listener and
/// what each connection's handler needs.
pub fn listening(cfg: Config, result: Result<String, String>) -> (r: Result<AcceptorState, String>)
    ensures
        match result {
            Ok(id) => r matches Ok(s) && s.listener_id@ == id@ && s.ui_handler_manifest@
                == cfg.ui_handler_manifest@ && s.api_base_url@ == cfg.api_base_url@,
            Err(e) => r matches Err(m) && m@ == "listen failed: "@ + e@,
        },
{
    match result {
        Ok(listener_id) => Ok(
            AcceptorState {
                listener_id,
                ui_handler_manifest: cfg.ui_handler_manifest,
                api_base_url: cfg.api_base_url,
            },
        ),
        Err(e) => Err(prefixed("listen failed: ", e.as_str())),
    }
}

/// After spawning the handler for a connection: its id.
pub fn handler_spawned(result: Result<String, String>) -> (r: Result<String, String>)
    ensures
        match result {
            Ok(id) => r matches Ok(x) && x@ == id@,
            Err(e) => r matches Err(m) && m@ == "spawn ui-handler failed: "@ + e@,
        },
{
    match result {
        Ok(id) => Ok(id),
        Err(e) => Err(prefixed("spawn ui-handler failed: ", e.as_str())),
    }
}

/// After handing the connection to the handler: on failure, the handler to
/// stop and the error to report.
pub fn connection_transferred(handler_id: String, result: Result<(), String>) -> (r: Result<
    (),
    (String, String),
>)
    ensures
        match result {
            Ok(_) => r is Ok,
            Err(e) => r matches Err(p) && p.0@ == handler_id@ && p.1@ == "transfer failed: "@ + e@,
        },
{
    match result {
        Ok(()) => Ok(()),
        Err(e) => Err((handler_id, prefixed("transfer failed: ", e.as_str()))),
    }
}

// ---------------------------------------------------------------------
// Start-up, step by step
// ---------------------------------------------------------------------

/// Where start-up stands, with the configuration it works from.
pub enum InitStage {
    /// The bearer token is being written to the store.
    StoringBearer(Config),
    /// The Basic credential is being written to the store.
    StoringCredential(Config),
    /// The listen socket is being opened.
    Listening(Config),
}

/// What start-up does next.
pub enum InitAction {
    /// Write `content` under `label` in the store `STORE_ID`, then go on
    /// from `next` with the store's answer.
    Store { label: String, content: Vec<u8>, next: InitStage },
    /// Listen on `address`, then go on from `next` with the answer.
    Listen { address: String, next: InitStage },
    /// Start-up is done: the acceptor's state.
    Ready(AcceptorState),
    /// Start-up failed with this error.
    Fail(String),
}

/// The action that writes the bearer token: its label, its bytes.
pub open spec fn stores_bearer(a: InitAction, cfg: Config) -> bool {
    a matches InitAction::Store { label, content, next } && label@ == BEARER_TOKEN_LABEL@
        && content@ == encode_utf8(cfg.bearer_token@) && next == InitStage::StoringBearer(cfg)
}

/// Starts start-up from the decoded configuration: every field must be
/// non-empty; then the bearer token is written first.
pub fn init_begin(cfg: Config) -> (r: InitAction)
    ensures
        (cfg.bearer_token@.len() > 0 && cfg.basic_auth@.len() > 0 && cfg.api_base_url@.len() > 0
            && cfg.ui_handler_manifest@.len() > 0) ==> stores_bearer(r, cfg),
        !(cfg.bearer_token@.len() > 0 && cfg.basic_auth@.len() > 0 && cfg.api_base_url@.len() > 0
            && cfg.ui_handler_manifest@.len() > 0) ==> (r matches InitAction::Fail(e) && e@
            == "all four config fields (bearer_token, basic_auth, api_base_url, ui_handler_manifest) must be non-empty"@),
{
    match validate_config(&cfg) {
        Err(e) => InitAction::Fail(e),
        Ok(()) => {
            let content = bytes_of(cfg.bearer_token.as_str());
            InitAction::Store { label: owned(BEARER_TOKEN_LABEL), content, next: InitStage::StoringBearer(cfg) }
        },
    }
}

/// The next action of start-up, given the answer to the last one: after
/// the bearer token, the Basic credential is written; after that, the
/// acceptor listens on `LISTEN_ADDR`; once it listens, it is ready. Any
/// failure ends start-up with its error.
pub fn init_step(stage: InitStage, result: Result<String, String>) -> (r: InitAction)
    ensures
        match (stage, result) {
            (InitStage::StoringBearer(cfg), Ok(_)) => r matches InitAction::Store { label, content, next }
                && label@ == BASIC_AUTH_LABEL@ && content@ == encode_utf8(cfg.basic_auth@) && next
                == InitStage::StoringCredential(cfg),
            (InitStage::StoringBearer(_), Err(e)) => r matches InitAction::Fail(m) && m@
                == "persist bearer token failed: "@ + e@,
            (InitStage::StoringCredential(cfg), Ok(_)) => r matches InitAction::Listen { address, next }
                && address@ == LISTEN_ADDR@ && next == InitStage::Listening(cfg),
            (InitStage::StoringCredential(_), Err(e)) => r matches InitAction::Fail(m) && m@
                == "persist basic_auth failed: "@ + e@,
            (InitStage::Listening(cfg), Ok(id)) => r matches InitAction::Ready(s) && s.listener_id@ == id@
                && s.ui_handler_manifest@ == cfg.ui_handler_manifest@ && s.api_base_url@ == cfg.api_base_url@,
            (InitStage::Listening(_), Err(e)) => r matches InitAction::Fail(m) && m@ == "listen failed: "@ + e@,
        },
{
    match stage {
        InitStage::StoringBearer(cfg) => match bearer_stored(result) {
            Ok(()) => {
                let content = bytes_of(cfg.basic_auth.as_str());
                InitAction::Store {
                    label: owned(BASIC_AUTH_LABEL),
                    content,
                    next: InitStage::StoringCredential(cfg),
                }
            },
            Err(m) => InitAction::Fail(m),
        },
        InitStage::StoringCredential(cfg) => match basic_auth_stored(result) {
            Ok(()) => InitAction::Listen { address: owned(LISTEN_ADDR), next: InitStage::Listening(cfg) },
            Err(m) => InitAction::Fail(m),
        },
        InitStage::Listening(cfg) => match listening(cfg, result) {
            Ok(s) => InitAction::Ready(s),
            Err(m) => InitAction::Fail(m),
        },
    }
}

/// The answer to the runtime after one connection, whatever became of it:
/// the acceptor goes on with its state as it was, so that one failing
/// connection can never bring it (and the tree it belongs to) down. A
/// failure is only reported, by the caller.
pub fn handle_connection(state: AcceptorState, outcome: Result<(), String>) -> (r: Result<
    AcceptorState,
    String,
>)
    ensures
        r matches Ok(s) && s == state,
{
    match outcome {
        Ok(()) => Ok(state),
        Err(_) => Ok(state),
    }
}

} // verus!
