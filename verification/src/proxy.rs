//! One connection to the proxy: reading the request, choosing who answers it, and bringing the
//! model server up on the way.
//!
//! The connection is a machine. [`ConnState::next`] takes what happened and says what to do; the
//! caller reads, asks the manager, probes, sleeps, connects and sends.
use crate::body;
use crate::config;
use crate::config::{ModelEntry, ModelProfile};
use crate::http;
use crate::replies;
use crate::text;
use vstd::prelude::*;
use vstd::utf8::*;

verus! {

// ── Who answers a request ───────────────────────────────────────────────────

/// What a request asks of the proxy.
pub enum Route {
    /// Which models run.
    Health,
    /// Which models there are.
    Models,
    /// To stop the server on a port, where it names one.
    Unload(Option<u16>),
    /// Something of a model.
    Model,
}

/// The port that the path of an order to unload names. No server has port 0.
pub open spec fn unload_port(path: Seq<char>) -> Option<u16> {
    match text::unsigned(path.skip("/unload/"@.len() as int), u16::MAX as nat) {
        Some(p) if p > 0 => Some(p as u16),
        _ => None,
    }
}

/// What a request with this method and path asks.
pub open spec fn route_of(method: Seq<char>, path: Seq<char>) -> Route {
    if path == "/health"@ {
        Route::Health
    } else if path == "/v1/models"@ && method == "GET"@ {
        Route::Models
    } else if text::stands_at(path, "/unload/"@, 0) {
        Route::Unload(unload_port(path))
    } else {
        Route::Model
    }
}

/// What a request with this method and path asks.
pub fn route(method: &str, path: &str) -> (res: Route)
    ensures
        res == route_of(method@, path@),
{
    if text::same_text(path, "/health") {
        return Route::Health;
    }
    if text::same_text(path, "/v1/models") && text::same_text(method, "GET") {
        return Route::Models;
    }
    let chars = text::chars_of(path);
    if text::has_start(chars.as_slice(), "/unload/") {
        let skipped: usize = text::chars_of("/unload/").len();
        let rest = text::slice_of(chars.as_slice(), skipped, chars.len());
        assert(rest@ == path@.skip(skipped as int));
        return match text::parse_unsigned(rest.as_slice(), u16::MAX as u64) {
            Some(p) => if p > 0 {
                Route::Unload(Some(p as u16))
            } else {
                Route::Unload(None)
            },
            None => Route::Unload(None),
        };
    }
    Route::Model
}

/// Whom a request for a model is for.
pub enum Target<'a> {
    /// The request names no model.
    Missing,
    /// The request names a model that is not configured.
    Unknown(String),
    /// The model, and the profile where the request names one that the model has.
    Found { model: &'a ModelEntry, profile: Option<&'a ModelProfile> },
}

/// What a `Target` says.
pub enum TargetView {
    Missing,
    Unknown(Seq<char>),
    Found { model: config::ModelView, profile: Option<config::ProfileView> },
}

impl<'a> DeepView for Target<'a> {
    type V = TargetView;

    open spec fn deep_view(&self) -> TargetView {
        match self {
            Target::Missing => TargetView::Missing,
            Target::Unknown(id) => TargetView::Unknown(id@),
            Target::Found { model, profile } => TargetView::Found {
                model: model.deep_view(),
                profile: profile.deep_view(),
            },
        }
    }
}

/// Whom a request that names the model `name` is for: the model with that id or, where there is
/// none, the model and the profile that stand before and behind the last slash.
pub open spec fn target_of(models: Seq<config::ModelView>, name: Option<Seq<char>>) -> TargetView {
    match name {
        None => TargetView::Missing,
        Some(n) => match config::model_of(models, n) {
            Some(model) => TargetView::Found { model, profile: None },
            None => match config::model_of(models, body::base_id(n)) {
                None => TargetView::Unknown(body::base_id(n)),
                Some(model) => TargetView::Found {
                    model,
                    profile: match body::profile_name(n) {
                        Some(p) => config::profile_of(model.profiles, p),
                        None => None,
                    },
                },
            },
        },
    }
}

/// Whom a request that names the model `name` is for.
pub fn find_target<'a>(models: &'a Vec<ModelEntry>, name: Option<String>) -> (res: Target<'a>)
    ensures
        res.deep_view() == target_of(models.deep_view(), name.deep_view()),
{
    match name {
        None => Target::Missing,
        Some(n) => {
            if let Some(model) = config::find_model(models, n.as_str()) {
                return Target::Found { model, profile: None };
            }
            let (id, profile_name) = body::split_model_name(n.as_str());
            match config::find_model(models, id.as_str()) {
                None => Target::Unknown(id),
                Some(model) => {
                    let profile = match profile_name {
                        Some(p) => config::find_profile(model, p.as_str()),
                        None => None,
                    };
                    Target::Found { model, profile }
                },
            }
        },
    }
}

/// The body that is sent on: with the parameters of the profile, where there is one.
pub open spec fn sent_body(body: Seq<u8>, profile: Option<config::ProfileView>) -> Seq<u8> {
    match profile {
        Some(p) => body::profiled_bytes(body, p),
        None => body,
    }
}

/// The body that is sent on.
pub fn body_to_send(body: &[u8], profile: Option<&ModelProfile>) -> (res: Vec<u8>)
    ensures
        res@ == sent_body(body@, profile.deep_view()),
{
    match profile {
        Some(p) => body::apply_profile_to_body(body, p),
        None => vstd::slice::slice_to_vec(body),
    }
}

// ── The machine ─────────────────────────────────────────────────────────────

/// How many bytes are read at once at most. A shorter read ends the header block.
pub const CHUNK: usize = 8192;

/// How many times a started model server is asked whether it is ready.
pub const READY_TRIES: u32 = 120;

/// How far a connection has come.
pub enum ConnState {
    /// Reading the header block.
    Head { buf: Vec<u8> },
    /// Reading the rest of the body.
    Body { buf: Vec<u8>, header_end: usize, remaining: usize },
    /// Waiting for the ports in use, to tell which models run.
    Health,
    /// Waiting for a server to be stopped.
    Unload,
    /// Waiting to hear whether the model server on `port` runs.
    Check { port: u16, request: Vec<u8> },
    /// Waiting for that server to be started.
    Start { port: u16, request: Vec<u8> },
    /// Waiting to hear whether it is ready, after so many earlier questions.
    Probe { port: u16, request: Vec<u8>, tries: u32 },
    /// Waiting a second before the next question.
    Pause { port: u16, request: Vec<u8>, tries: u32 },
    /// Waiting for a connection to it.
    Connect { port: u16, request: Vec<u8> },
    /// Waiting for its answer to be on its way to the client.
    Forward { port: u16 },
    /// Nothing is left to do.
    Done,
}

/// What happened on a connection.
pub enum ConnEvent {
    /// These bytes were read.
    Data(Vec<u8>),
    /// Nothing more can be read.
    NoData,
    /// These ports are in use.
    Running(Vec<u16>),
    /// An order to unload went like this.
    Unloaded(Result<String, String>),
    /// Whether the model server runs.
    Checked(bool),
    /// Starting it went like this.
    Started(Result<(), String>),
    /// Whether it is ready.
    Probed(bool),
    /// The second is over.
    Paused,
    /// Connecting to it went like this.
    Connected(Result<(), String>),
    /// Whether its answer is on its way.
    Forwarded(bool),
}

/// What to do next on a connection.
pub enum ConnAction {
    /// Read up to `CHUNK` bytes.
    Read,
    /// Close it, unanswered.
    Close,
    /// Send these bytes to the client and close it.
    Reply(Vec<u8>),
    /// Find out which ports are in use.
    ListRunning,
    /// Stop the server on this port.
    Unload(u16),
    /// Find out whether the server on this port runs.
    CheckRunning(u16),
    /// Start the server on this port.
    Start(u16),
    /// Ask the server on this port whether it is ready.
    ProbeReady(u16),
    /// Wait a second.
    Pause,
    /// Connect to the server on this port.
    Connect(u16),
    /// Send it these bytes and pass its answer on to the client.
    Forward(Vec<u8>),
    /// Note that the server on this port was used.
    Touch(u16),
}

/// What a `ConnState` says.
pub enum StateView {
    Head { buf: Seq<u8> },
    Body { buf: Seq<u8>, header_end: nat, remaining: nat },
    Health,
    Unload,
    Check { port: u16, request: Seq<u8> },
    Start { port: u16, request: Seq<u8> },
    Probe { port: u16, request: Seq<u8>, tries: u32 },
    Pause { port: u16, request: Seq<u8>, tries: u32 },
    Connect { port: u16, request: Seq<u8> },
    Forward { port: u16 },
    Done,
}

/// What a `ConnEvent` says.
pub enum EventView {
    Data(Seq<u8>),
    NoData,
    Running(Seq<u16>),
    Unloaded(Result<Seq<char>, Seq<char>>),
    Checked(bool),
    Started(Result<(), Seq<char>>),
    Probed(bool),
    Paused,
    Connected(Result<(), Seq<char>>),
    Forwarded(bool),
}

/// What a `ConnAction` says.
pub enum ActionView {
    Read,
    Close,
    Reply(Seq<u8>),
    ListRunning,
    Unload(u16),
    CheckRunning(u16),
    Start(u16),
    ProbeReady(u16),
    Pause,
    Connect(u16),
    Forward(Seq<u8>),
    Touch(u16),
}

impl DeepView for ConnState {
    type V = StateView;

    open spec fn deep_view(&self) -> StateView {
        match self {
            ConnState::Head { buf } => StateView::Head { buf: buf@ },
            ConnState::Body { buf, header_end, remaining } => StateView::Body {
                buf: buf@,
                header_end: *header_end as nat,
                remaining: *remaining as nat,
            },
            ConnState::Health => StateView::Health,
            ConnState::Unload => StateView::Unload,
            ConnState::Check { port, request } => StateView::Check {
                port: *port,
                request: request@,
            },
            ConnState::Start { port, request } => StateView::Start {
                port: *port,
                request: request@,
            },
            ConnState::Probe { port, request, tries } => StateView::Probe {
                port: *port,
                request: request@,
                tries: *tries,
            },
            ConnState::Pause { port, request, tries } => StateView::Pause {
                port: *port,
                request: request@,
                tries: *tries,
            },
            ConnState::Connect { port, request } => StateView::Connect {
                port: *port,
                request: request@,
            },
            ConnState::Forward { port } => StateView::Forward { port: *port },
            ConnState::Done => StateView::Done,
        }
    }
}

/// A result, its text as a sequence of characters.
pub open spec fn done_view(outcome: Result<(), String>) -> Result<(), Seq<char>> {
    match outcome {
        Ok(()) => Ok(()),
        Err(e) => Err(e@),
    }
}

impl DeepView for ConnEvent {
    type V = EventView;

    open spec fn deep_view(&self) -> EventView {
        match self {
            ConnEvent::Data(bytes) => EventView::Data(bytes@),
            ConnEvent::NoData => EventView::NoData,
            ConnEvent::Running(ports) => EventView::Running(ports@),
            ConnEvent::Unloaded(outcome) => EventView::Unloaded(replies::outcome_view(*outcome)),
            ConnEvent::Checked(up) => EventView::Checked(*up),
            ConnEvent::Started(outcome) => EventView::Started(done_view(*outcome)),
            ConnEvent::Probed(ready) => EventView::Probed(*ready),
            ConnEvent::Paused => EventView::Paused,
            ConnEvent::Connected(outcome) => EventView::Connected(done_view(*outcome)),
            ConnEvent::Forwarded(piped) => EventView::Forwarded(*piped),
        }
    }
}

impl DeepView for ConnAction {
    type V = ActionView;

    open spec fn deep_view(&self) -> ActionView {
        match self {
            ConnAction::Read => ActionView::Read,
            ConnAction::Close => ActionView::Close,
            ConnAction::Reply(bytes) => ActionView::Reply(bytes@),
            ConnAction::ListRunning => ActionView::ListRunning,
            ConnAction::Unload(port) => ActionView::Unload(*port),
            ConnAction::CheckRunning(port) => ActionView::CheckRunning(*port),
            ConnAction::Start(port) => ActionView::Start(*port),
            ConnAction::ProbeReady(port) => ActionView::ProbeReady(*port),
            ConnAction::Pause => ActionView::Pause,
            ConnAction::Connect(port) => ActionView::Connect(*port),
            ConnAction::Forward(request) => ActionView::Forward(request@),
            ConnAction::Touch(port) => ActionView::Touch(*port),
        }
    }
}

/// Where a connection stands after a step, and what to do next.
pub struct StepView {
    pub state: StateView,
    pub action: ActionView,
}

/// The step that answers the client.
pub open spec fn reply(bytes: Seq<u8>) -> StepView {
    StepView { state: StateView::Done, action: ActionView::Reply(bytes) }
}

/// The step that closes the connection unanswered.
pub open spec fn close() -> StepView {
    StepView { state: StateView::Done, action: ActionView::Close }
}

/// The step that tells the client of a failure.
pub open spec fn fail(status: u16, message: Seq<char>) -> StepView {
    reply(replies::json_bytes(status, replies::error_json(message)))
}

/// The step after a request for a model was read: the server of the model is to get the request,
/// with the parameters of the profile that it names.
pub open spec fn serve(
    target: TargetView,
    head: Seq<char>,
    body: Seq<u8>,
) -> StepView {
    match target {
        TargetView::Missing => fail(400, "Missing model field in request body"@),
        TargetView::Unknown(id) => fail(404, "Unknown model: "@ + id),
        TargetView::Found { model, profile } => StepView {
            state: StateView::Check {
                port: model.port,
                request: http::forwarded(head, sent_body(body, profile), model.port),
            },
            action: ActionView::CheckRunning(model.port),
        },
    }
}

/// The step after the request `buf` was read, whose header block ends at `header_end`. A request
/// for a model that ends before its header block does is not answered.
pub open spec fn dispatch(
    models: Seq<config::ModelView>,
    buf: Seq<u8>,
    header_end: nat,
) -> StepView {
    let head = text::utf8_lossy(buf.take(header_end as int));
    let h = http::head_of(head);
    match route_of(h.method, h.path) {
        Route::Health => StepView { state: StateView::Health, action: ActionView::ListRunning },
        Route::Models => reply(replies::json_bytes(200, replies::models_json(models))),
        Route::Unload(Some(port)) => StepView {
            state: StateView::Unload,
            action: ActionView::Unload(port),
        },
        Route::Unload(None) => reply(
            replies::json_bytes(400, replies::outcome_json("error"@, "Invalid port"@)),
        ),
        Route::Model => if header_end + 4 > buf.len() {
            close()
        } else {
            let body = buf.skip(header_end as int + 4);
            serve(target_of(models, body::requested(body)), head, body)
        },
    }
}

/// How many bytes of the body are still to be read once the header block of `buf` is.
pub open spec fn missing(buf: Seq<u8>) -> nat {
    let end = http::header_end(buf);
    let declared = http::head_of(text::utf8_lossy(buf.take(end as int))).content_length;
    let have = if end + 4 < buf.len() {
        (buf.len() - end - 4) as nat
    } else {
        0
    };
    if have < declared {
        (declared - have) as nat
    } else {
        0
    }
}

/// The step that goes on reading the body, or has it whole.
pub open spec fn read_on(
    models: Seq<config::ModelView>,
    buf: Seq<u8>,
    header_end: nat,
    remaining: nat,
) -> StepView {
    if remaining > 0 {
        StepView {
            state: StateView::Body { buf, header_end, remaining },
            action: ActionView::Read,
        }
    } else {
        dispatch(models, buf, header_end)
    }
}

/// The step after `data` was read of the header block.
pub open spec fn read_head(
    models: Seq<config::ModelView>,
    buf: Seq<u8>,
    data: Seq<u8>,
) -> StepView {
    let all = buf + data;
    if data.len() == 0 {
        close()
    } else if text::contains_part(all, http::terminator()) || data.len() < CHUNK {
        read_on(models, all, http::header_end(all), missing(all))
    } else {
        StepView { state: StateView::Head { buf: all }, action: ActionView::Read }
    }
}

/// The step after `data` was read of the body; what is too much is dropped.
pub open spec fn read_body(
    models: Seq<config::ModelView>,
    buf: Seq<u8>,
    header_end: nat,
    remaining: nat,
    data: Seq<u8>,
) -> StepView {
    if data.len() == 0 {
        dispatch(models, buf, header_end)
    } else if data.len() < remaining {
        read_on(models, buf + data, header_end, (remaining - data.len()) as nat)
    } else {
        dispatch(models, buf + data.take(remaining as int), header_end)
    }
}

/// The step of a connection. An event that it does not wait for closes it.
pub open spec fn step(
    models: Seq<config::ModelView>,
    state: StateView,
    event: EventView,
) -> StepView {
    match (state, event) {
        (StateView::Head { buf }, EventView::Data(data)) => read_head(models, buf, data),
        (StateView::Body { buf, header_end, remaining }, EventView::Data(data)) => read_body(
            models,
            buf,
            header_end,
            remaining,
            data,
        ),
        (StateView::Body { buf, header_end, .. }, EventView::NoData) => dispatch(
            models,
            buf,
            header_end,
        ),
        (StateView::Health, EventView::Running(ports)) => reply(
            replies::json_bytes(200, replies::health_json(models, ports)),
        ),
        (StateView::Unload, EventView::Unloaded(outcome)) => reply(replies::unload_bytes(outcome)),
        (StateView::Check { port, request }, EventView::Checked(true)) => StepView {
            state: StateView::Connect { port, request },
            action: ActionView::Connect(port),
        },
        (StateView::Check { port, request }, EventView::Checked(false)) => StepView {
            state: StateView::Start { port, request },
            action: ActionView::Start(port),
        },
        (StateView::Start { port, request }, EventView::Started(Ok(()))) => StepView {
            state: StateView::Probe { port, request, tries: 0 },
            action: ActionView::ProbeReady(port),
        },
        (StateView::Start { .. }, EventView::Started(Err(e))) => fail(
            503,
            "Failed to start model: "@ + e,
        ),
        (StateView::Probe { port, request, .. }, EventView::Probed(true)) => StepView {
            state: StateView::Connect { port, request },
            action: ActionView::Connect(port),
        },
        (StateView::Probe { port, request, tries }, EventView::Probed(false)) => if tries + 1
            < READY_TRIES {
            StepView {
                state: StateView::Pause { port, request, tries },
                action: ActionView::Pause,
            }
        } else {
            fail(503, "Model loading timeout after 120s"@)
        },
        (StateView::Pause { port, request, tries }, EventView::Paused) => if tries + 1
            < READY_TRIES {
            StepView {
                state: StateView::Probe { port, request, tries: (tries + 1) as u32 },
                action: ActionView::ProbeReady(port),
            }
        } else {
            fail(503, "Model loading timeout after 120s"@)
        },
        (StateView::Connect { port, request }, EventView::Connected(Ok(()))) => StepView {
            state: StateView::Forward { port },
            action: ActionView::Forward(request),
        },
        (StateView::Connect { .. }, EventView::Connected(Err(e))) => fail(
            502,
            "Cannot connect to upstream: "@ + e,
        ),
        (StateView::Forward { port }, EventView::Forwarded(true)) => StepView {
            state: StateView::Done,
            action: ActionView::Touch(port),
        },
        _ => close(),
    }
}

/// Whether a header block is read as the text that it encodes, where it is valid UTF-8.
pub open spec fn plainly_read(head: Seq<u8>) -> bool {
    valid_utf8(head) ==> text::utf8_lossy(head) == decode_utf8(head)
}

/// The header block that a step reads, where it reads one: once the block is there, and again
/// once the body is.
pub open spec fn head_read(state: StateView, event: EventView) -> Option<Seq<u8>> {
    match (state, event) {
        (StateView::Head { buf }, EventView::Data(data)) => {
            let all = buf + data;
            if data.len() > 0 && (text::contains_part(all, http::terminator()) || data.len()
                < CHUNK) {
                Some(all.take(http::header_end(all) as int))
            } else {
                None
            }
        },
        (StateView::Body { buf, header_end, remaining }, EventView::Data(data)) => if data.len()
            == 0 || data.len() >= remaining {
            Some(buf.take(header_end as int))
        } else {
            None
        },
        (StateView::Body { buf, header_end, .. }, EventView::NoData) => Some(
            buf.take(header_end as int),
        ),
        _ => None,
    }
}

/// What a step comes to.
pub open spec fn step_view(res: (ConnState, ConnAction)) -> StepView {
    StepView { state: res.0.deep_view(), action: res.1.deep_view() }
}

/// Tells the client of a failure.
fn fail_with(status: u16, label: &str, cause: &str) -> (res: (ConnState, ConnAction))
    ensures
        step_view(res) == fail(status, label@ + cause@),
{
    let bytes = replies::labelled_error_reply(status, label, cause);
    (ConnState::Done, ConnAction::Reply(bytes))
}

/// Tells the client of a failure.
fn fail_plainly(status: u16, message: &str) -> (res: (ConnState, ConnAction))
    ensures
        step_view(res) == fail(status, message@),
{
    let bytes = replies::error_reply(status, message.to_string());
    (ConnState::Done, ConnAction::Reply(bytes))
}

/// The step after a request for a model was read, by whom it is for.
pub fn serve_target(target: Target, buf: &Vec<u8>, header_end: usize) -> (res: (
    ConnState,
    ConnAction,
))
    requires
        header_end + 4 <= buf.len(),
    ensures
        step_view(res) == serve(
            target.deep_view(),
            text::utf8_lossy(buf@.take(header_end as int)),
            buf@.skip(header_end + 4),
        ),
        valid_utf8(buf@.take(header_end as int)) ==> step_view(res) == serve(
            target.deep_view(),
            decode_utf8(buf@.take(header_end as int)),
            buf@.skip(header_end + 4),
        ),
{
    match target {
        Target::Missing => fail_plainly(400, "Missing model field in request body"),
        Target::Unknown(id) => fail_with(404, "Unknown model: ", id.as_str()),
        Target::Found { model, profile } => {
            let body = vstd::slice::slice_subrange(buf.as_slice(), header_end + 4, buf.len());
            assert(body@ == buf@.skip(header_end + 4));
            let new_body = body_to_send(body, profile);
            let mut whole = vstd::slice::slice_to_vec(
                vstd::slice::slice_subrange(buf.as_slice(), 0, header_end + 4),
            );
            http::push_bytes(&mut whole, new_body.as_slice());
            assert(whole@.take(header_end as int) == buf@.take(header_end as int));
            assert(whole@.skip(header_end + 4) == new_body@);
            let request = http::rebuild_request(whole.as_slice(), header_end, model.port);
            (
                ConnState::Check { port: model.port, request },
                ConnAction::CheckRunning(model.port),
            )
        },
    }
}

/// The step after the request `buf` was read, whose header block ends at `header_end`.
pub fn dispatch_request(models: &Vec<ModelEntry>, buf: &Vec<u8>, header_end: usize) -> (res: (
    ConnState,
    ConnAction,
))
    requires
        header_end <= buf.len(),
    ensures
        step_view(res) == dispatch(models.deep_view(), buf@, header_end as nat),
        plainly_read(buf@.take(header_end as int)),
{
    let head_bytes = vstd::slice::slice_subrange(buf.as_slice(), 0, header_end);
    assert(head_bytes@ == buf@.take(header_end as int));
    let head = http::parse_head(head_bytes);
    match route(head.method.as_str(), head.path.as_str()) {
        Route::Health => (ConnState::Health, ConnAction::ListRunning),
        Route::Models => (ConnState::Done, ConnAction::Reply(replies::models_reply(models))),
        Route::Unload(Some(port)) => (ConnState::Unload, ConnAction::Unload(port)),
        Route::Unload(None) => (ConnState::Done, ConnAction::Reply(replies::invalid_port_reply())),
        Route::Model => {
            if buf.len() - header_end < 4 {
                return (ConnState::Done, ConnAction::Close);
            }
            let body = vstd::slice::slice_subrange(buf.as_slice(), header_end + 4, buf.len());
            assert(body@ == buf@.skip(header_end + 4));
            let target = find_target(models, body::requested_model(body));
            serve_target(target, buf, header_end)
        },
    }
}

/// How many bytes of the body are still to be read once the header block of `buf`, which ends at
/// `header_end`, is.
fn missing_bytes(buf: &Vec<u8>, header_end: usize) -> (n: usize)
    requires
        header_end == http::header_end(buf@),
        header_end <= buf.len(),
    ensures
        n == missing(buf@),
        plainly_read(buf@.take(header_end as int)),
{
    let head_bytes = vstd::slice::slice_subrange(buf.as_slice(), 0, header_end);
    assert(head_bytes@ == buf@.take(header_end as int));
    let declared: usize = http::parse_head(head_bytes).content_length;
    let have: usize = if buf.len() - header_end > 4 {
        buf.len() - header_end - 4
    } else {
        0
    };
    if have < declared {
        declared - have
    } else {
        0
    }
}

impl ConnState {
    /// A connection of which nothing has been read yet.
    pub fn new() -> (state: ConnState)
        ensures
            state.deep_view() == (StateView::Head { buf: seq![] }),
    {
        let buf: Vec<u8> = Vec::new();
        assert(buf@ == Seq::<u8>::empty());
        ConnState::Head { buf }
    }

    /// Whether the header block of a request that is being read ends within it.
    pub open spec fn wf(&self) -> bool {
        match self {
            ConnState::Body { buf, header_end, .. } => *header_end <= buf.len(),
            _ => true,
        }
    }

    /// The step of a connection: where it stands after the event, and what to do next.
    pub fn next(self, models: &Vec<ModelEntry>, event: ConnEvent) -> (res: (ConnState, ConnAction))
        requires
            self.wf(),
        ensures
            res.0.wf(),
            step_view(res) == step(models.deep_view(), self.deep_view(), event.deep_view()),
            match head_read(self.deep_view(), event.deep_view()) {
                Some(head) => plainly_read(head),
                None => true,
            },
    {
        match (self, event) {
            (ConnState::Head { buf }, ConnEvent::Data(data)) => {
                let mut buf = buf;
                if data.len() == 0 {
                    return (ConnState::Done, ConnAction::Close);
                }
                http::push_bytes(&mut buf, data.as_slice());
                proof {
                    http::lemma_header_end_found(buf@);
                }
                let end: usize = http::find_header_end(buf.as_slice());
                if end < buf.len() || data.len() < CHUNK {
                    let remaining: usize = missing_bytes(&buf, end);
                    if remaining > 0 {
                        (
                            ConnState::Body { buf, header_end: end, remaining },
                            ConnAction::Read,
                        )
                    } else {
                        dispatch_request(models, &buf, end)
                    }
                } else {
                    (ConnState::Head { buf }, ConnAction::Read)
                }
            },
            (ConnState::Body { buf, header_end, remaining }, ConnEvent::Data(data)) => {
                let mut buf = buf;
                if data.len() == 0 {
                    dispatch_request(models, &buf, header_end)
                } else if data.len() < remaining {
                    http::push_bytes(&mut buf, data.as_slice());
                    (
                        ConnState::Body { buf, header_end, remaining: remaining - data.len() },
                        ConnAction::Read,
                    )
                } else {
                    let part = vstd::slice::slice_subrange(data.as_slice(), 0, remaining);
                    assert(part@ == data@.take(remaining as int));
                    let ghost head = buf@.take(header_end as int);
                    http::push_bytes(&mut buf, part);
                    assert(buf@.take(header_end as int) == head);
                    dispatch_request(models, &buf, header_end)
                }
            },
            (ConnState::Body { buf, header_end, .. }, ConnEvent::NoData) => dispatch_request(
                models,
                &buf,
                header_end,
            ),
            (ConnState::Health, ConnEvent::Running(ports)) => (
                ConnState::Done,
                ConnAction::Reply(replies::health_reply(models, &ports)),
            ),
            (ConnState::Unload, ConnEvent::Unloaded(outcome)) => (
                ConnState::Done,
                ConnAction::Reply(replies::unload_reply(outcome)),
            ),
            (ConnState::Check { port, request }, ConnEvent::Checked(up)) => {
                if up {
                    (ConnState::Connect { port, request }, ConnAction::Connect(port))
                } else {
                    (ConnState::Start { port, request }, ConnAction::Start(port))
                }
            },
            (ConnState::Start { port, request }, ConnEvent::Started(outcome)) => {
                match outcome {
                    Ok(()) => (
                        ConnState::Probe { port, request, tries: 0 },
                        ConnAction::ProbeReady(port),
                    ),
                    Err(e) => fail_with(503, "Failed to start model: ", e.as_str()),
                }
            },
            (ConnState::Probe { port, request, tries }, ConnEvent::Probed(ready)) => {
                if ready {
                    (ConnState::Connect { port, request }, ConnAction::Connect(port))
                } else if tries < READY_TRIES - 1 {
                    (ConnState::Pause { port, request, tries }, ConnAction::Pause)
                } else {
                    fail_plainly(503, "Model loading timeout after 120s")
                }
            },
            (ConnState::Pause { port, request, tries }, ConnEvent::Paused) => {
                if tries < READY_TRIES - 1 {
                    (
                        ConnState::Probe { port, request, tries: tries + 1 },
                        ConnAction::ProbeReady(port),
                    )
                } else {
                    fail_plainly(503, "Model loading timeout after 120s")
                }
            },
            (ConnState::Connect { port, request }, ConnEvent::Connected(outcome)) => {
                match outcome {
                    Ok(()) => (ConnState::Forward { port }, ConnAction::Forward(request)),
                    Err(e) => fail_with(502, "Cannot connect to upstream: ", e.as_str()),
                }
            },
            (ConnState::Forward { port }, ConnEvent::Forwarded(piped)) => {
                if piped {
                    (ConnState::Done, ConnAction::Touch(port))
                } else {
                    (ConnState::Done, ConnAction::Close)
                }
            },
            _ => (ConnState::Done, ConnAction::Close),
        }
    }
}

/// The views of a connection say what its states, events and actions hold.
pub proof fn law_connection_views(
    bytes: Vec<u8>,
    ports: Vec<u16>,
    port: u16,
    n: usize,
    r: usize,
    tries: u32,
    message: String,
)
    ensures
        (ConnEvent::Data(bytes)).deep_view() == EventView::Data(bytes@),
        (ConnEvent::NoData).deep_view() == EventView::NoData,
        (ConnEvent::Running(ports)).deep_view() == EventView::Running(ports@),
        (ConnEvent::Unloaded(Ok(message))).deep_view() == EventView::Unloaded(Ok(message@)),
        (ConnEvent::Unloaded(Err(message))).deep_view() == EventView::Unloaded(Err(message@)),
        (ConnEvent::Checked(true)).deep_view() == EventView::Checked(true),
        (ConnEvent::Checked(false)).deep_view() == EventView::Checked(false),
        (ConnEvent::Started(Ok(()))).deep_view() == EventView::Started(Ok(())),
        (ConnEvent::Started(Err(message))).deep_view() == EventView::Started(Err(message@)),
        (ConnEvent::Probed(true)).deep_view() == EventView::Probed(true),
        (ConnEvent::Probed(false)).deep_view() == EventView::Probed(false),
        (ConnEvent::Paused).deep_view() == EventView::Paused,
        (ConnEvent::Connected(Ok(()))).deep_view() == EventView::Connected(Ok(())),
        (ConnEvent::Connected(Err(message))).deep_view() == EventView::Connected(Err(message@)),
        (ConnEvent::Forwarded(true)).deep_view() == EventView::Forwarded(true),
        (ConnEvent::Forwarded(false)).deep_view() == EventView::Forwarded(false),
        (ConnAction::Read).deep_view() == ActionView::Read,
        (ConnAction::Close).deep_view() == ActionView::Close,
        (ConnAction::Reply(bytes)).deep_view() == ActionView::Reply(bytes@),
        (ConnAction::ListRunning).deep_view() == ActionView::ListRunning,
        (ConnAction::Unload(port)).deep_view() == ActionView::Unload(port),
        (ConnAction::CheckRunning(port)).deep_view() == ActionView::CheckRunning(port),
        (ConnAction::Start(port)).deep_view() == ActionView::Start(port),
        (ConnAction::ProbeReady(port)).deep_view() == ActionView::ProbeReady(port),
        (ConnAction::Pause).deep_view() == ActionView::Pause,
        (ConnAction::Connect(port)).deep_view() == ActionView::Connect(port),
        (ConnAction::Forward(bytes)).deep_view() == ActionView::Forward(bytes@),
        (ConnAction::Touch(port)).deep_view() == ActionView::Touch(port),
        (ConnState::Head { buf: bytes }).deep_view() == (StateView::Head { buf: bytes@ }),
        (ConnState::Body { buf: bytes, header_end: n, remaining: r }).deep_view() == (
        StateView::Body { buf: bytes@, header_end: n as nat, remaining: r as nat }),
        (ConnState::Health).deep_view() == StateView::Health,
        (ConnState::Unload).deep_view() == StateView::Unload,
        (ConnState::Check { port, request: bytes }).deep_view() == (StateView::Check {
            port,
            request: bytes@,
        }),
        (ConnState::Start { port, request: bytes }).deep_view() == (StateView::Start {
            port,
            request: bytes@,
        }),
        (ConnState::Probe { port, request: bytes, tries }).deep_view() == (StateView::Probe {
            port,
            request: bytes@,
            tries,
        }),
        (ConnState::Pause { port, request: bytes, tries }).deep_view() == (StateView::Pause {
            port,
            request: bytes@,
            tries,
        }),
        (ConnState::Connect { port, request: bytes }).deep_view() == (StateView::Connect {
            port,
            request: bytes@,
        }),
        (ConnState::Forward { port }).deep_view() == (StateView::Forward { port }),
        (ConnState::Done).deep_view() == StateView::Done,
{
}

} // verus!
