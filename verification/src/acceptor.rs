//! The acceptor: checks its start-up configuration, records the tokens in
//! the store, and hands every incoming connection to a fresh handler.

use vstd::prelude::*;
use vstd::utf8::*;
use crate::handler::{
    inbox_api_label, inbox_token_label, label_text, store_id, store_name, token_label,
};
use crate::text::utf8_bytes;

verus! {

/// What the acceptor keeps between connections: its listener and the
/// manifest it starts handlers from.
pub struct AcceptorState {
    pub listener_id: String,
    pub handler_manifest: String,
}

/// The address the acceptor listens on.
pub open spec fn listen_address() -> Seq<char> {
    "127.0.0.1:8443"@
}

impl AcceptorState {
    /// The state of an acceptor listening with the given listener and
    /// starting handlers from the configured manifest, or from the default
    /// one where none is configured.
    pub fn new(listener_id: String, cfg: &Config) -> (s: AcceptorState)
        ensures
            s.listener_id@ == listener_id@,
            s.handler_manifest@ == manifest_of(cfg@.handler_manifest),
    {
        AcceptorState { listener_id, handler_manifest: cfg.manifest() }
    }
}

/// The manifest handlers are started from when the configuration names none.
pub open spec fn default_handler_manifest() -> Seq<char> {
    "/home/colin/work/actors/tickets/ticket-handler/manifest.toml"@
}

/// The manifest handlers are started from: the configured one where it is
/// given and non-empty, else the default.
pub open spec fn manifest_of(configured: Option<Seq<char>>) -> Seq<char> {
    match configured {
        Some(m) => if m.len() > 0 { m } else { default_handler_manifest() },
        None => default_handler_manifest(),
    }
}

/// The address to listen on.
pub fn listen_addr() -> (s: String)
    ensures
        s@ == listen_address(),
{
    String::from_str("127.0.0.1:8443")
}

// ---------------------------------------------------------------------------
// Configuration
// ---------------------------------------------------------------------------

/// The start-up configuration.
pub struct Config {
    /// Bearer token clients send to the tickets HTTP API.
    pub api_token: String,
    /// Host and port of the inbox HTTP API.
    pub inbox_api: String,
    /// Bearer token for calls to the inbox API.
    pub inbox_token: String,
    /// The manifest each connection's handler is started from, where it is
    /// not the default one.
    pub handler_manifest: Option<String>,
}

/// The configuration text: the start-up state must be a non-empty string.
pub fn config_text(state: Option<String>) -> (r: Result<String, String>)
    ensures
        match state {
            Some(s) => if s@.len() > 0 {
                r matches Ok(t) && t@ == s@
            } else {
                r matches Err(m) && m@ == bad_state_message()
            },
            None => r matches Err(m) && m@ == bad_state_message(),
        },
{
    match state {
        Some(s) => if !s.as_str().is_empty() {
            Ok(s)
        } else {
            Err(String::from_str(
                "acceptor: initial_state must be a JSON config string with {api_token, inbox_api, inbox_token}",
            ))
        },
        None => Err(String::from_str(
            "acceptor: initial_state must be a JSON config string with {api_token, inbox_api, inbox_token}",
        )),
    }
}

/// The complaint about a start-up state that is not a non-empty string.
pub open spec fn bad_state_message() -> Seq<char> {
    "acceptor: initial_state must be a JSON config string with {api_token, inbox_api, inbox_token}"@
}

/// The complaint about a configuration that does not decode.
pub fn bad_config_json(e: &str) -> (m: String)
    ensures
        m@ == "acceptor: bad initial_state JSON: "@ + e@,
{
    let mut m = String::from_str("acceptor: bad initial_state JSON: ");
    m.append(e);
    m
}

/// The first configuration field that is empty, as an error message.
pub open spec fn config_problem(
    api_token: Seq<char>,
    inbox_api: Seq<char>,
    inbox_token: Seq<char>,
) -> Option<Seq<char>> {
    if api_token.len() == 0 {
        Some("acceptor: api_token must be non-empty"@)
    } else if inbox_api.len() == 0 {
        Some("acceptor: inbox_api must be non-empty"@)
    } else if inbox_token.len() == 0 {
        Some("acceptor: inbox_token must be non-empty"@)
    } else {
        None
    }
}

impl Config {
    /// The manifest handlers are started from under this configuration.
    pub fn manifest(&self) -> (m: String)
        ensures
            m@ == manifest_of(self@.handler_manifest),
    {
        match &self.handler_manifest {
            Some(m) => if !m.as_str().is_empty() {
                m.clone()
            } else {
                String::from_str("/home/colin/work/actors/tickets/ticket-handler/manifest.toml")
            },
            None => String::from_str("/home/colin/work/actors/tickets/ticket-handler/manifest.toml"),
        }
    }

    /// The token and inbox fields must be non-empty; the first empty one is
    /// reported.
    pub fn validate(&self) -> (r: Result<(), String>)
        ensures
            match config_problem(
                self.api_token@,
                self.inbox_api@,
                self.inbox_token@,
            ) {
                Some(m) => r matches Err(e) && e@ == m,
                None => r is Ok,
            },
    {
        if self.api_token.as_str().is_empty() {
            Err(String::from_str("acceptor: api_token must be non-empty"))
        } else if self.inbox_api.as_str().is_empty() {
            Err(String::from_str("acceptor: inbox_api must be non-empty"))
        } else if self.inbox_token.as_str().is_empty() {
            Err(String::from_str("acceptor: inbox_token must be non-empty"))
        } else {
            Ok(())
        }
    }
}

// ---------------------------------------------------------------------------
// Persisting the configuration
// ---------------------------------------------------------------------------

/// A write of content under a label of a store.
pub struct StoreWrite {
    pub store_id: String,
    pub label: String,
    pub content: Vec<u8>,
}

/// The write that records `value` under `label` in the server's store.
pub fn persist(label: &str, value: String) -> (w: StoreWrite)
    ensures
        w.store_id@ == store_name(),
        w.label@ == label@,
        w.content@ == encode_utf8(value@),
{
    StoreWrite { store_id: store_id(), label: String::from_str(label), content: utf8_bytes(value.as_str()) }
}

/// What a write's answer means: success, or `persist <label> failed: <e>`.
pub fn persist_outcome(label: &str, answer: Result<String, String>) -> (r: Result<(), String>)
    ensures
        match answer {
            Ok(_) => r is Ok,
            Err(e) => r matches Err(m) && m@ == "persist "@ + label@ + " failed: "@ + e@,
        },
{
    match answer {
        Ok(_) => Ok(()),
        Err(e) => {
            let mut m = String::from_str("persist ");
            m.append(label);
            m.append(" failed: ");
            m.append(e.as_str());
            Err(m)
        },
    }
}

/// The labels the configuration is recorded under, in order: the API token,
/// the inbox address and the inbox token.
pub open spec fn config_labels() -> Seq<Seq<char>> {
    seq!["api-bearer-token"@, "inbox-api"@, "inbox-token"@]
}

/// The message for a failed listen.
pub fn listen_failed(e: &str) -> (m: String)
    ensures
        m@ == "listen failed: "@ + e@,
{
    let mut m = String::from_str("listen failed: ");
    m.append(e);
    m
}

// ---------------------------------------------------------------------------
// Log lines
// ---------------------------------------------------------------------------

/// The log line at start-up.
pub fn init_log_line() -> (s: String)
    ensures
        s@ == "[tickets-acceptor] init"@,
{
    String::from_str("[tickets-acceptor] init")
}

/// The log line once listening.
pub fn listening_log_line(listener_id: &str) -> (s: String)
    ensures
        s@ == "[tickets-acceptor] HTTP listening on "@ + listen_address() + " (id="@ + listener_id@
            + ")"@,
{
    let mut s = String::from_str("[tickets-acceptor] HTTP listening on ");
    s.append("127.0.0.1:8443");
    s.append(" (id=");
    s.append(listener_id);
    s.append(")");
    s
}

/// The log line for a connection that could not be handed over.
pub fn connection_failed_log_line(connection_id: &str, e: &str) -> (s: String)
    ensures
        s@ == "[tickets-acceptor] handle-connection failed (conn="@ + connection_id@ + "): "@
            + e@,
{
    let mut s = String::from_str("[tickets-acceptor] handle-connection failed (conn=");
    s.append(connection_id);
    s.append("): ");
    s.append(e);
    s
}

// ---------------------------------------------------------------------------
// Starting up
// ---------------------------------------------------------------------------

/// The value of a configuration.
pub struct ConfigView {
    pub api_token: Seq<char>,
    pub inbox_api: Seq<char>,
    pub inbox_token: Seq<char>,
    pub handler_manifest: Option<Seq<char>>,
}

impl View for Config {
    type V = ConfigView;

    open spec fn view(&self) -> ConfigView {
        ConfigView {
            api_token: self.api_token@,
            inbox_api: self.inbox_api@,
            inbox_token: self.inbox_token@,
            handler_manifest: match &self.handler_manifest {
                Some(m) => Some(m@),
                None => None,
            },
        }
    }
}

/// The value of a store write.
pub struct StoreWriteView {
    pub store_id: Seq<char>,
    pub label: Seq<char>,
    pub content: Seq<u8>,
}

impl View for StoreWrite {
    type V = StoreWriteView;

    open spec fn view(&self) -> StoreWriteView {
        StoreWriteView { store_id: self.store_id@, label: self.label@, content: self.content@ }
    }
}

/// The value of an acceptor state.
pub struct AcceptorStateView {
    pub listener_id: Seq<char>,
    pub handler_manifest: Seq<char>,
}

impl View for AcceptorState {
    type V = AcceptorStateView;

    open spec fn view(&self) -> AcceptorStateView {
        AcceptorStateView { listener_id: self.listener_id@, handler_manifest: self.handler_manifest@ }
    }
}

/// The `k`-th write that records a configuration (`k` below 3): the API
/// token, then the inbox address, then the inbox token, each under its label.
pub open spec fn config_write(cfg: ConfigView, k: int) -> StoreWriteView {
    StoreWriteView {
        store_id: store_name(),
        label: config_labels()[k],
        content: encode_utf8(
            if k == 0 {
                cfg.api_token
            } else if k == 1 {
                cfg.inbox_api
            } else {
                cfg.inbox_token
            },
        ),
    }
}

/// Where start-up stands.
pub enum Startup {
    /// Recording the configuration: `done` of its three writes are made.
    Persisting { cfg: Config, done: usize },
    /// Waiting for the listener.
    Listening { cfg: Config },
    /// Start-up is over.
    Done,
}

/// What start-up asks its host to do.
pub enum StartupAction {
    /// Make this store write.
    Store { write: StoreWrite },
    /// Listen on this address.
    Listen { address: String },
    /// Start-up is over, with the acceptor's state or why it failed.
    Finish(Result<AcceptorState, String>),
}

/// The outcome of a `StartupAction`.
pub enum StartupEvent {
    Stored(Result<String, String>),
    Listened(Result<String, String>),
}

/// The value of a start-up state.
pub enum StartupView {
    Persisting { cfg: ConfigView, done: nat },
    Listening { cfg: ConfigView },
    Done,
}

/// The value of a start-up action.
pub enum StartupActionView {
    Store { write: StoreWriteView },
    Listen { address: Seq<char> },
    Finish(Result<AcceptorStateView, Seq<char>>),
}

/// The value of a start-up outcome.
pub enum StartupEventView {
    Stored(Result<Seq<char>, Seq<char>>),
    Listened(Result<Seq<char>, Seq<char>>),
}

impl View for Startup {
    type V = StartupView;

    open spec fn view(&self) -> StartupView {
        match self {
            Startup::Persisting { cfg, done } => StartupView::Persisting { cfg: cfg@, done: *done as nat },
            Startup::Listening { cfg } => StartupView::Listening { cfg: cfg@ },
            Startup::Done => StartupView::Done,
        }
    }
}

impl View for StartupAction {
    type V = StartupActionView;

    open spec fn view(&self) -> StartupActionView {
        match self {
            StartupAction::Store { write } => StartupActionView::Store { write: write@ },
            StartupAction::Listen { address } => StartupActionView::Listen { address: address@ },
            StartupAction::Finish(r) => StartupActionView::Finish(
                match r {
                    Ok(st) => Ok(st@),
                    Err(e) => Err(e@),
                },
            ),
        }
    }
}

impl View for StartupEvent {
    type V = StartupEventView;

    open spec fn view(&self) -> StartupEventView {
        match self {
            StartupEvent::Stored(r) => StartupEventView::Stored(
                match r {
                    Ok(x) => Ok(x@),
                    Err(e) => Err(e@),
                },
            ),
            StartupEvent::Listened(r) => StartupEventView::Listened(
                match r {
                    Ok(x) => Ok(x@),
                    Err(e) => Err(e@),
                },
            ),
        }
    }
}

/// The first step of start-up with a decoded configuration: refuse it when
/// a field is empty, else make the first write.
pub open spec fn startup_begin(cfg: ConfigView) -> (StartupView, StartupActionView) {
    match config_problem(cfg.api_token, cfg.inbox_api, cfg.inbox_token) {
        Some(m) => (StartupView::Done, StartupActionView::Finish(Err(m))),
        None => (
            StartupView::Persisting { cfg, done: 0 },
            StartupActionView::Store { write: config_write(cfg, 0) },
        ),
    }
}

/// Whether start-up in this state waits for this kind of outcome.
pub open spec fn startup_expects(s: StartupView, e: StartupEventView) -> bool {
    match s {
        StartupView::Persisting { done, .. } => e is Stored && done < 3,
        StartupView::Listening { .. } => e is Listened,
        StartupView::Done => false,
    }
}

/// The next start-up step: a failed write ends start-up with
/// `persist <label> failed: <e>`; after the three writes, listen; a failed
/// listen ends with `listen failed: <e>`, a listener with the acceptor's
/// state, which starts handlers from the configured manifest or,
/// where none is given, the default one.
pub open spec fn startup_next(s: StartupView, e: StartupEventView) -> (StartupView, StartupActionView) {
    match (s, e) {
        (StartupView::Persisting { cfg, done }, StartupEventView::Stored(r)) => match r {
            Err(err) => (
                StartupView::Done,
                StartupActionView::Finish(
                    Err("persist "@ + config_labels()[done as int] + " failed: "@ + err),
                ),
            ),
            Ok(_) => if done + 1 < 3 {
                (
                    StartupView::Persisting { cfg, done: done + 1 },
                    StartupActionView::Store { write: config_write(cfg, done + 1 as int) },
                )
            } else {
                (StartupView::Listening { cfg }, StartupActionView::Listen { address: listen_address() })
            },
        },
        (StartupView::Listening { cfg }, StartupEventView::Listened(r)) => match r {
            Err(err) => (StartupView::Done, StartupActionView::Finish(Err("listen failed: "@ + err))),
            Ok(id) => (
                StartupView::Done,
                StartupActionView::Finish(
                    Ok(AcceptorStateView { listener_id: id, handler_manifest: manifest_of(cfg.handler_manifest) }),
                ),
            ),
        },
        _ => (s, StartupActionView::Finish(Err(Seq::empty()))),
    }
}

fn config_write_exec(cfg: &Config, k: usize) -> (w: StoreWrite)
    requires
        k < 3,
    ensures
        w@ == config_write(cfg@, k as int),
{
    if k == 0 {
        persist("api-bearer-token", cfg.api_token.clone())
    } else if k == 1 {
        persist("inbox-api", cfg.inbox_api.clone())
    } else {
        persist("inbox-token", cfg.inbox_token.clone())
    }
}

/// Begins start-up with a decoded configuration.
pub fn begin_startup(cfg: Config) -> (r: (Startup, StartupAction))
    ensures
        (r.0@, r.1@) == startup_begin(cfg@),
{
    match cfg.validate() {
        Err(m) => (Startup::Done, StartupAction::Finish(Err(m))),
        Ok(()) => {
            let w = config_write_exec(&cfg, 0);
            (Startup::Persisting { cfg, done: 0 }, StartupAction::Store { write: w })
        },
    }
}

impl Startup {
    /// Whether this outcome is the one start-up waits for.
    pub fn expects_event(&self, e: &StartupEvent) -> (b: bool)
        ensures
            b == startup_expects(self@, e@),
    {
        match self {
            Startup::Persisting { done, .. } => matches!(e, StartupEvent::Stored(_)) && *done < 3,
            Startup::Listening { .. } => matches!(e, StartupEvent::Listened(_)),
            Startup::Done => false,
        }
    }

    /// The next state and action after an outcome.
    pub fn step(self, e: StartupEvent) -> (r: (Startup, StartupAction))
        requires
            startup_expects(self@, e@),
        ensures
            (r.0@, r.1@) == startup_next(self@, e@),
    {
        match (self, e) {
            (Startup::Persisting { cfg, done }, StartupEvent::Stored(r)) => match r {
                Err(err) => {
                    let label = if done == 0 {
                        "api-bearer-token"
                    } else if done == 1 {
                        "inbox-api"
                    } else {
                        "inbox-token"
                    };
                    match persist_outcome(label, Err(err)) {
                        Err(m) => (Startup::Done, StartupAction::Finish(Err(m))),
                        Ok(()) => (Startup::Done, StartupAction::Finish(Err(String::new()))),
                    }
                },
                Ok(_) => if done + 1 < 3 {
                    let w = config_write_exec(&cfg, done + 1);
                    (Startup::Persisting { cfg, done: done + 1 }, StartupAction::Store { write: w })
                } else {
                    (Startup::Listening { cfg }, StartupAction::Listen { address: listen_addr() })
                },
            },
            (Startup::Listening { cfg }, StartupEvent::Listened(r)) => match r {
                Err(err) => (Startup::Done, StartupAction::Finish(Err(listen_failed(err.as_str())))),
                Ok(id) => (Startup::Done, StartupAction::Finish(Ok(AcceptorState::new(id, &cfg)))),
            },
            (s, _) => (s, StartupAction::Finish(Err(String::new()))),
        }
    }
}

/// What the acceptor records is what a handler reads back: each of the three
/// writes goes to the store and under the label the handler loads it from,
/// and loading that content gives back the configured text.
pub proof fn law_recorded_config_reads_back(cfg: ConfigView)
    ensures
        config_labels() == seq![token_label(), inbox_api_label(), inbox_token_label()],
        forall|k: int|
            0 <= k < 3 ==> {
                let w = #[trigger] config_write(cfg, k);
                &&& w.store_id == store_name()
                &&& w.label == config_labels()[k]
                &&& label_text(w.label, Ok(w.content)) == Ok::<Seq<char>, Seq<char>>(
                    if k == 0 {
                        cfg.api_token
                    } else if k == 1 {
                        cfg.inbox_api
                    } else {
                        cfg.inbox_token
                    },
                )
            },
{
    assert forall|k: int| 0 <= k < 3 implies {
        let w = #[trigger] config_write(cfg, k);
        label_text(w.label, Ok(w.content)) == Ok::<Seq<char>, Seq<char>>(
            if k == 0 {
                cfg.api_token
            } else if k == 1 {
                cfg.inbox_api
            } else {
                cfg.inbox_token
            },
        )
    } by {
        let v = if k == 0 {
            cfg.api_token
        } else if k == 1 {
            cfg.inbox_api
        } else {
            cfg.inbox_token
        };
        encode_utf8_valid_utf8(v);
        encode_utf8_decode_utf8(v);
    }
}

/// Start-up records the configuration in order (the API token, the inbox
/// address, the inbox token) before listening, stops at the first failure,
/// and once listening the acceptor starts handlers from the configured
/// manifest (the default one where none is given).
pub proof fn law_startup_order(cfg: ConfigView, id: Seq<char>)
    requires
        config_problem(cfg.api_token, cfg.inbox_api, cfg.inbox_token) is None,
    ensures
        ({
            let ok = StartupEventView::Stored(Ok(Seq::empty()));
            let (s0, a0) = startup_begin(cfg);
            let (s1, a1) = startup_next(s0, ok);
            let (s2, a2) = startup_next(s1, ok);
            let (s3, a3) = startup_next(s2, ok);
            &&& a0 == StartupActionView::Store { write: config_write(cfg, 0) }
            &&& a1 == StartupActionView::Store { write: config_write(cfg, 1) }
            &&& a2 == StartupActionView::Store { write: config_write(cfg, 2) }
            &&& a3 == StartupActionView::Listen { address: listen_address() }
            &&& startup_next(s3, StartupEventView::Listened(Ok(id))) == (
                StartupView::Done,
                StartupActionView::Finish(
                    Ok(AcceptorStateView { listener_id: id, handler_manifest: manifest_of(cfg.handler_manifest) }),
                ),
            )
        }),
{
}

// ---------------------------------------------------------------------------
// Handing a connection to a handler
// ---------------------------------------------------------------------------

/// What the acceptor asks its host to do while handing over a connection.
pub enum ConnectionAction {
    /// Start a handler from the manifest.
    Spawn { manifest: String },
    /// Call the handler's init function (its answer is not looked at).
    CallInit { handler_id: String, function: String },
    /// Give the connection to the handler.
    Transfer { connection_id: String, handler_id: String },
    /// Stop the handler again.
    StopChild { handler_id: String },
    /// The hand-over is over, with this outcome.
    Finish(Result<(), String>),
}

/// The outcome of a `ConnectionAction`.
pub enum ConnectionEvent {
    Spawned(Result<String, String>),
    InitReturned,
    Transferred(Result<(), String>),
    Stopped,
}

/// Where a hand-over stands.
pub enum Handover {
    AwaitSpawn { connection_id: String },
    AwaitInit { connection_id: String, handler_id: String },
    AwaitTransfer { handler_id: String },
    AwaitStop { error: String },
    Done,
}

/// The value of a connection action.
pub enum ConnectionActionView {
    Spawn { manifest: Seq<char> },
    CallInit { handler_id: Seq<char>, function: Seq<char> },
    Transfer { connection_id: Seq<char>, handler_id: Seq<char> },
    StopChild { handler_id: Seq<char> },
    Finish(Result<(), Seq<char>>),
}

/// The value of a hand-over state.
pub enum HandoverView {
    AwaitSpawn { connection_id: Seq<char> },
    AwaitInit { connection_id: Seq<char>, handler_id: Seq<char> },
    AwaitTransfer { handler_id: Seq<char> },
    AwaitStop { error: Seq<char> },
    Done,
}

/// The value of a connection event.
pub enum ConnectionEventView {
    Spawned(Result<Seq<char>, Seq<char>>),
    InitReturned,
    Transferred(Result<(), Seq<char>>),
    Stopped,
}

impl View for ConnectionAction {
    type V = ConnectionActionView;

    open spec fn view(&self) -> ConnectionActionView {
        match self {
            ConnectionAction::Spawn { manifest } => ConnectionActionView::Spawn { manifest: manifest@ },
            ConnectionAction::CallInit { handler_id, function } => ConnectionActionView::CallInit {
                handler_id: handler_id@,
                function: function@,
            },
            ConnectionAction::Transfer { connection_id, handler_id } =>
                ConnectionActionView::Transfer {
                connection_id: connection_id@,
                handler_id: handler_id@,
            },
            ConnectionAction::StopChild { handler_id } => ConnectionActionView::StopChild {
                handler_id: handler_id@,
            },
            ConnectionAction::Finish(r) => ConnectionActionView::Finish(
                match r {
                    Ok(()) => Ok(()),
                    Err(e) => Err(e@),
                },
            ),
        }
    }
}

impl View for Handover {
    type V = HandoverView;

    open spec fn view(&self) -> HandoverView {
        match self {
            Handover::AwaitSpawn { connection_id } => HandoverView::AwaitSpawn {
                connection_id: connection_id@,
            },
            Handover::AwaitInit { connection_id, handler_id } => HandoverView::AwaitInit {
                connection_id: connection_id@,
                handler_id: handler_id@,
            },
            Handover::AwaitTransfer { handler_id } => HandoverView::AwaitTransfer {
                handler_id: handler_id@,
            },
            Handover::AwaitStop { error } => HandoverView::AwaitStop { error: error@ },
            Handover::Done => HandoverView::Done,
        }
    }
}

impl View for ConnectionEvent {
    type V = ConnectionEventView;

    open spec fn view(&self) -> ConnectionEventView {
        match self {
            ConnectionEvent::Spawned(r) => ConnectionEventView::Spawned(
                match r {
                    Ok(s) => Ok(s@),
                    Err(e) => Err(e@),
                },
            ),
            ConnectionEvent::InitReturned => ConnectionEventView::InitReturned,
            ConnectionEvent::Transferred(r) => ConnectionEventView::Transferred(
                match r {
                    Ok(()) => Ok(()),
                    Err(e) => Err(e@),
                },
            ),
            ConnectionEvent::Stopped => ConnectionEventView::Stopped,
        }
    }
}

/// The function a new handler is initialised through.
pub open spec fn init_function() -> Seq<char> {
    "theater:simple/actor.init"@
}

/// The next state and action of a hand-over after an outcome: a failed spawn
/// ends it with `spawn handler failed: <e>`; a spawned handler is
/// initialised, then given the connection; a failed transfer stops the
/// handler and ends with `transfer failed: <e>`.
pub open spec fn handover_next(s: HandoverView, e: ConnectionEventView) -> (HandoverView, ConnectionActionView) {
    match (s, e) {
        (HandoverView::AwaitSpawn { connection_id }, ConnectionEventView::Spawned(r)) => match r {
            Err(err) => (
                HandoverView::Done,
                ConnectionActionView::Finish(Err("spawn handler failed: "@ + err)),
            ),
            Ok(handler_id) => (
                HandoverView::AwaitInit { connection_id, handler_id },
                ConnectionActionView::CallInit { handler_id, function: init_function() },
            ),
        },
        (HandoverView::AwaitInit { connection_id, handler_id }, ConnectionEventView::InitReturned) => (
            HandoverView::AwaitTransfer { handler_id },
            ConnectionActionView::Transfer { connection_id, handler_id },
        ),
        (HandoverView::AwaitTransfer { handler_id }, ConnectionEventView::Transferred(r)) => match r {
            Ok(()) => (HandoverView::Done, ConnectionActionView::Finish(Ok(()))),
            Err(err) => (
                HandoverView::AwaitStop { error: "transfer failed: "@ + err },
                ConnectionActionView::StopChild { handler_id },
            ),
        },
        (HandoverView::AwaitStop { error }, ConnectionEventView::Stopped) => (
            HandoverView::Done,
            ConnectionActionView::Finish(Err(error)),
        ),
        _ => (s, ConnectionActionView::Finish(Ok(()))),
    }
}

/// Whether a hand-over in this state waits for this kind of outcome.
pub open spec fn handover_expects(s: HandoverView, e: ConnectionEventView) -> bool {
    match s {
        HandoverView::AwaitSpawn { .. } => e is Spawned,
        HandoverView::AwaitInit { .. } => e is InitReturned,
        HandoverView::AwaitTransfer { .. } => e is Transferred,
        HandoverView::AwaitStop { .. } => e is Stopped,
        HandoverView::Done => false,
    }
}

/// Starts handing `connection_id` over: spawn a handler from the manifest.
pub fn try_handle_connection(state: &AcceptorState, connection_id: &str) -> (r: (
    Handover,
    ConnectionAction,
))
    ensures
        r.0@ == (HandoverView::AwaitSpawn { connection_id: connection_id@ }),
        r.1@ == (ConnectionActionView::Spawn { manifest: state.handler_manifest@ }),
{
    (
        Handover::AwaitSpawn { connection_id: String::from_str(connection_id) },
        ConnectionAction::Spawn { manifest: state.handler_manifest.clone() },
    )
}

impl Handover {
    /// Whether this outcome is the one the hand-over waits for.
    pub fn expects_event(&self, e: &ConnectionEvent) -> (b: bool)
        ensures
            b == handover_expects(self@, e@),
    {
        match self {
            Handover::AwaitSpawn { .. } => matches!(e, ConnectionEvent::Spawned(_)),
            Handover::AwaitInit { .. } => matches!(e, ConnectionEvent::InitReturned),
            Handover::AwaitTransfer { .. } => matches!(e, ConnectionEvent::Transferred(_)),
            Handover::AwaitStop { .. } => matches!(e, ConnectionEvent::Stopped),
            Handover::Done => false,
        }
    }

    /// The next state and action after an outcome.
    pub fn step(self, e: ConnectionEvent) -> (r: (Handover, ConnectionAction))
        requires
            handover_expects(self@, e@),
        ensures
            (r.0@, r.1@) == handover_next(self@, e@),
    {
        match (self, e) {
            (Handover::AwaitSpawn { connection_id }, ConnectionEvent::Spawned(r)) => match r {
                Err(err) => {
                    let mut m = String::from_str("spawn handler failed: ");
                    m.append(err.as_str());
                    (Handover::Done, ConnectionAction::Finish(Err(m)))
                },
                Ok(handler_id) => {
                    let h = handler_id.clone();
                    (
                        Handover::AwaitInit { connection_id, handler_id },
                        ConnectionAction::CallInit {
                            handler_id: h,
                            function: String::from_str("theater:simple/actor.init"),
                        },
                    )
                },
            },
            (Handover::AwaitInit { connection_id, handler_id }, ConnectionEvent::InitReturned) => {
                let h = handler_id.clone();
                (
                    Handover::AwaitTransfer { handler_id },
                    ConnectionAction::Transfer { connection_id, handler_id: h },
                )
            },
            (Handover::AwaitTransfer { handler_id }, ConnectionEvent::Transferred(r)) => match r {
                Ok(()) => (Handover::Done, ConnectionAction::Finish(Ok(()))),
                Err(err) => {
                    let mut m = String::from_str("transfer failed: ");
                    m.append(err.as_str());
                    (Handover::AwaitStop { error: m }, ConnectionAction::StopChild { handler_id })
                },
            },
            (Handover::AwaitStop { error }, ConnectionEvent::Stopped) => (
                Handover::Done,
                ConnectionAction::Finish(Err(error)),
            ),
            (s, _) => (s, ConnectionAction::Finish(Ok(()))),
        }
    }
}

/// At most how many more outcomes a hand-over waits for before it ends.
pub open spec fn handover_steps_left(s: HandoverView) -> nat {
    match s {
        HandoverView::AwaitSpawn { .. } => 4,
        HandoverView::AwaitInit { .. } => 3,
        HandoverView::AwaitTransfer { .. } => 2,
        HandoverView::AwaitStop { .. } => 1,
        HandoverView::Done => 0,
    }
}

/// Every hand-over ends: each outcome it waits for brings it strictly closer
/// to the end, and it asks to finish exactly when it is done.
pub proof fn law_handover_terminates(s: HandoverView, e: ConnectionEventView)
    requires
        handover_expects(s, e),
    ensures
        handover_steps_left(handover_next(s, e).0) < handover_steps_left(s),
        handover_next(s, e).1 is Finish <==> handover_next(s, e).0 is Done,
{
}

/// A failed transfer always stops the handler it spawned before the
/// hand-over ends, and ends in the transfer error.
pub proof fn law_failed_transfer_stops_handler(handler_id: Seq<char>, err: Seq<char>)
    ensures
        ({
            let (s1, a1) = handover_next(
                HandoverView::AwaitTransfer { handler_id },
                ConnectionEventView::Transferred(Err(err)),
            );
            &&& a1 == ConnectionActionView::StopChild { handler_id }
            &&& handover_next(s1, ConnectionEventView::Stopped) == (
                HandoverView::Done,
                ConnectionActionView::Finish(Err("transfer failed: "@ + err)),
            )
        }),
{
}

} // verus!
