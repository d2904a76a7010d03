//! What a session does about an event.

use vstd::prelude::*;

use crate::cdp::{CdpError, CdpErrorSpec, Wire};
use crate::json::{items_view, lemma_array_view, lemma_object_view, members_view, Json, JsonSpec};
use crate::runtime::error::SessionError;
use crate::runtime::page::{
    after_fulfilled, state_is_loaded, PageState, PageStateSpec,
};
use crate::runtime::requests::{
    all_patterns, classify_main_frame, detached_session, event_detaches_session, fetch_patterns,
    is_non_app, is_non_app_page_url, is_request_stage, is_stale, is_stale_interception_error,
    jsons_view, main_frame_of, missing_message, normalize_app_resource, request_url, requested_url,
    require_field, required_str, resource_of, stopped_at_request, str_field, text_or_empty,
    MainFrame, MainFrameSpec,
};
use crate::runtime::session::{
    after_lifecycle, after_navigation, after_network, controlled, is_gone, with_page,
    without_page, without_session, FastSession, SessionSpec,
};
use crate::text::{concat, joined, str_eq, texts};

verus! {

/// A request that is answered with a patched script, for specifications.
pub struct FulfillmentSpec {
    pub request_id: Seq<char>,
    pub session_id: Seq<char>,
    pub resource_path: Seq<char>,
    pub labels: Seq<char>,
    pub encoded_body: Seq<char>,
    pub page_loaded: bool,
    pub script_request: bool,
    pub network_id: Seq<char>,
    pub frame_id: Seq<char>,
}

/// A request that is answered with a patched script.
#[derive(Debug, PartialEq, Eq)]
pub struct Fulfillment {
    pub request_id: String,
    pub session_id: String,
    pub resource_path: String,
    pub labels: String,
    pub encoded_body: String,
    /// The page had loaded when the request came.
    pub page_loaded: bool,
    pub script_request: bool,
    pub network_id: String,
    pub frame_id: String,
}

impl View for Fulfillment {
    type V = FulfillmentSpec;

    open spec fn view(&self) -> FulfillmentSpec {
        FulfillmentSpec {
            request_id: self.request_id@,
            session_id: self.session_id@,
            resource_path: self.resource_path@,
            labels: self.labels@,
            encoded_body: self.encoded_body@,
            page_loaded: self.page_loaded,
            script_request: self.script_request,
            network_id: self.network_id@,
            frame_id: self.frame_id@,
        }
    }
}

/// What to do about an event, for specifications.
pub enum EventStepSpec {
    Done,
    Fail(Seq<char>),
    Abort(Seq<char>),
    Resume(Seq<char>),
    Configure(Seq<char>),
    Continue { request_id: Seq<char>, session_id: Option<Seq<char>> },
    Fulfill(FulfillmentSpec),
    AwaitExit,
}

/// What to do about an event.
#[derive(Debug, PartialEq, Eq)]
pub enum EventStep {
    Done,
    /// The session ends.
    Fail(SessionError),
    /// The application is stopped, and the session ends.
    Abort(SessionError),
    /// A target that waits for the debugger goes on.
    Resume(String),
    /// A page is set up.
    Configure(String),
    /// A request goes on as it is.
    Continue { request_id: String, session_id: Option<String> },
    /// A request is answered.
    Fulfill(Fulfillment),
    /// The application is given time to exit; where it does not, it is stopped.
    AwaitExit,
}

pub open spec fn optional_string(text: Option<String>) -> Option<Seq<char>> {
    match text {
        Some(text) => Some(text@),
        None => None,
    }
}

impl View for EventStep {
    type V = EventStepSpec;

    open spec fn view(&self) -> EventStepSpec {
        match *self {
            EventStep::Done => EventStepSpec::Done,
            EventStep::Fail(error) => EventStepSpec::Fail(error@),
            EventStep::Abort(error) => EventStepSpec::Abort(error@),
            EventStep::Resume(session_id) => EventStepSpec::Resume(session_id@),
            EventStep::Configure(session_id) => EventStepSpec::Configure(session_id@),
            EventStep::Continue { request_id, session_id } => EventStepSpec::Continue {
                request_id: request_id@,
                session_id: optional_string(session_id),
            },
            EventStep::Fulfill(fulfillment) => EventStepSpec::Fulfill(fulfillment@),
            EventStep::AwaitExit => EventStepSpec::AwaitExit,
        }
    }
}

/// What the session ends with when the debugger goes away and the application stays.
pub open spec fn inspector_gone() -> Seq<char> {
    "CDP inspector detached while runtime patching was still required"@
}

pub fn inspector_gone_error() -> (error: SessionError)
    ensures
        error@ == inspector_gone(),
{
    SessionError::new("CDP inspector detached while runtime patching was still required")
}

// ---------------------------------------------------------------------------
// Targets that attach

/// Whether a target waits for the debugger.
pub open spec fn waits(params: JsonSpec) -> bool {
    match params.get("waitingForDebugger"@) {
        Some(waiting) => waiting.as_bool() == Some(true),
        None => false,
    }
}

/// What a `Target.attachedToTarget` event brings about: what is no page of the application
/// goes on, a page of the application is set up before it runs.
pub open spec fn attach_step(session: SessionSpec, event: JsonSpec) -> (
    SessionSpec,
    EventStepSpec,
) {
    let method = "Target.attachedToTarget"@;
    match event.get("params"@) {
        None => (session, EventStepSpec::Fail(missing_message(method, "params"@))),
        Some(params) => match (params.text_at("sessionId"@), params.get("targetInfo"@)) {
            (None, _) => (session, EventStepSpec::Fail(missing_message(method, "sessionId"@))),
            (_, None) => (session, EventStepSpec::Fail(missing_message(method, "targetInfo"@))),
            (Some(session_id), Some(target)) => {
                let url = text_or_empty(target, "url"@);
                if text_or_empty(target, "type"@) != "page"@ || is_non_app(url) {
                    if waits(params) {
                        (session, EventStepSpec::Resume(session_id))
                    } else {
                        (session, EventStepSpec::Done)
                    }
                } else if !waits(params) {
                    (
                        session,
                        EventStepSpec::Abort(
                            joined(
                                seq![
                                    "app page target executed before Fast interception was armed: "@,
                                    url,
                                ],
                            ),
                        ),
                    )
                } else if session.pages.contains_key(session_id) {
                    (
                        with_page(session, session_id, PageStateSpec::Configuring),
                        EventStepSpec::Abort(joined(seq!["duplicate page session "@, session_id])),
                    )
                } else {
                    (
                        with_page(session, session_id, PageStateSpec::Configuring),
                        EventStepSpec::Configure(session_id),
                    )
                }
            },
        },
    }
}

// ---------------------------------------------------------------------------
// Requests that are stopped

/// Whether a page has loaded.
pub open spec fn is_page_loaded(session: SessionSpec, session_id: Seq<char>) -> bool {
    session.pages.contains_key(session_id) && state_is_loaded(session.pages[session_id])
}

/// What a `Fetch.requestPaused` event brings about: a planned resource that a page of the
/// session asks for is answered, any other request goes on.
pub open spec fn paused_step(session: SessionSpec, event: JsonSpec) -> EventStepSpec {
    let method = "Fetch.requestPaused"@;
    let session_id = event.text_at("sessionId"@);
    match event.get("params"@) {
        None => EventStepSpec::Fail(missing_message(method, "params"@)),
        Some(params) => match (params.text_at("requestId"@), requested_url(params)) {
            (None, _) => EventStepSpec::Fail(missing_message(method, "requestId"@)),
            (_, None) => EventStepSpec::Fail(missing_message(method, "request.url"@)),
            (Some(request_id), Some(url)) => match (resource_of(url, session.paths), session_id) {
                (Some(resource), Some(page_id)) => if !session.pages.contains_key(page_id) {
                    EventStepSpec::Continue { request_id, session_id }
                } else if !stopped_at_request(params) {
                    EventStepSpec::Abort(
                        joined(
                            seq![
                                "planned Fast resource was intercepted outside Request stage: "@,
                                url,
                            ],
                        ),
                    )
                } else if !session.expected.contains_key(resource) {
                    EventStepSpec::Continue { request_id, session_id }
                } else {
                    EventStepSpec::Fulfill(
                        FulfillmentSpec {
                            request_id,
                            session_id: page_id,
                            resource_path: resource,
                            labels: session.expected[resource].labels,
                            encoded_body: session.expected[resource].encoded_body,
                            page_loaded: is_page_loaded(session, page_id),
                            script_request: params.text_at("resourceType"@) == Some("Script"@),
                            network_id: text_or_empty(params, "networkId"@),
                            frame_id: text_or_empty(params, "frameId"@),
                        },
                    )
                },
                _ => EventStepSpec::Continue { request_id, session_id },
            },
        },
    }
}

/// The session after a request was answered.
pub open spec fn after_delivery(session: SessionSpec, fulfillment: FulfillmentSpec) -> SessionSpec {
    let id = fulfillment.session_id;
    if fulfillment.script_request && session.pages.contains_key(id) {
        match session.pages[id] {
            PageStateSpec::Intercepting(page) => with_page(
                session,
                id,
                PageStateSpec::Intercepting(
                    after_fulfilled(
                        page,
                        fulfillment.network_id,
                        fulfillment.frame_id,
                        fulfillment.resource_path,
                    ).0,
                ),
            ),
            _ => session,
        }
    } else {
        session
    }
}

/// What is reported of an answer.
pub open spec fn delivery_line(fulfillment: FulfillmentSpec) -> Seq<char> {
    joined(
        seq![
            "PATCHED_RESOURCE="@,
            fulfillment.resource_path,
            " LABELS="@,
            fulfillment.labels,
        ],
    )
}

/// What the answer to an answered request comes to, for specifications.
pub enum DeliveryStepSpec {
    Delivered(Seq<char>),
    Stale,
    Fail(CdpErrorSpec),
}

/// What the answer to an answered request comes to.
#[derive(Debug, PartialEq, Eq)]
pub enum DeliveryStep {
    /// The script was delivered, and this is reported of it.
    Delivered(String),
    /// Nobody waits for the script any more.
    Stale,
    /// The session ends.
    Fail(CdpError),
}

impl View for DeliveryStep {
    type V = DeliveryStepSpec;

    open spec fn view(&self) -> DeliveryStepSpec {
        match *self {
            DeliveryStep::Delivered(line) => DeliveryStepSpec::Delivered(line@),
            DeliveryStep::Stale => DeliveryStepSpec::Stale,
            DeliveryStep::Fail(error) => DeliveryStepSpec::Fail(error@),
        }
    }
}

/// What the answer to `Fetch.fulfillRequest` brings about, none for a result, with these events
/// kept.
pub open spec fn delivery_of(
    session: SessionSpec,
    fulfillment: FulfillmentSpec,
    error: Option<CdpErrorSpec>,
    events: Seq<JsonSpec>,
) -> (SessionSpec, DeliveryStepSpec) {
    match error {
        None => (
            after_delivery(session, fulfillment),
            DeliveryStepSpec::Delivered(delivery_line(fulfillment)),
        ),
        Some(error) => if is_stale(
            error,
            fulfillment.page_loaded,
            is_gone(session, events, fulfillment.session_id),
        ) {
            (session, DeliveryStepSpec::Stale)
        } else {
            (session, DeliveryStepSpec::Fail(error))
        },
    }
}

/// The parameters with which a request goes on.
pub open spec fn continue_json(request_id: Seq<char>) -> JsonSpec {
    JsonSpec::Object(seq![("requestId"@, JsonSpec::Text(request_id))])
}

/// The parameters with which a request is answered.
pub open spec fn fulfill_json(request_id: Seq<char>, encoded_body: Seq<char>) -> JsonSpec {
    let header = JsonSpec::Object(
        seq![
            ("name"@, JsonSpec::Text("content-type"@)),
            ("value"@, JsonSpec::Text("application/javascript; charset=utf-8"@)),
        ],
    );
    JsonSpec::Object(
        seq![
            ("requestId"@, JsonSpec::Text(request_id)),
            ("responseCode"@, JsonSpec::Unsigned(200)),
            ("responseHeaders"@, JsonSpec::Array(seq![header])),
            ("body"@, JsonSpec::Text(encoded_body)),
        ],
    )
}

pub fn continue_params(request_id: &str) -> (params: Json)
    ensures
        params@ == continue_json(request_id@),
{
    let members = vec![("requestId".to_owned(), Json::Text(request_id.to_owned()))];
    proof {
        lemma_object_view(members);
        assert(members_view(members@) =~= continue_json(request_id@)->Object_0);
    }
    Json::Object(members)
}

pub fn fulfill_params(request_id: &str, encoded_body: &str) -> (params: Json)
    ensures
        params@ == fulfill_json(request_id@, encoded_body@),
{
    let header = vec![
        ("name".to_owned(), Json::Text("content-type".to_owned())),
        ("value".to_owned(), Json::Text("application/javascript; charset=utf-8".to_owned())),
    ];
    let ghost header_spec = JsonSpec::Object(
        seq![
            ("name"@, JsonSpec::Text("content-type"@)),
            ("value"@, JsonSpec::Text("application/javascript; charset=utf-8"@)),
        ],
    );
    proof {
        lemma_object_view(header);
        assert(members_view(header@) =~= header_spec->Object_0);
    }
    let headers = vec![Json::Object(header)];
    proof {
        lemma_array_view(headers);
        assert(items_view(headers@) =~= seq![header_spec]);
    }
    let members = vec![
        ("requestId".to_owned(), Json::Text(request_id.to_owned())),
        ("responseCode".to_owned(), Json::Unsigned(200)),
        ("responseHeaders".to_owned(), Json::Array(headers)),
        ("body".to_owned(), Json::Text(encoded_body.to_owned())),
    ];
    proof {
        lemma_object_view(members);
        assert(members_view(members@) =~= fulfill_json(request_id@, encoded_body@)->Object_0);
    }
    Json::Object(members)
}

// ---------------------------------------------------------------------------
// Setting up a page

/// One step of setting up a page, for specifications.
pub enum SetupStepSpec {
    Send { method: Seq<char>, params: Option<JsonSpec> },
    Start { method: Seq<char>, params: Option<JsonSpec> },
    Await { method: Seq<char> },
}

/// One step of setting up a page.
#[derive(Debug, PartialEq, Eq)]
pub enum SetupStep {
    /// Sends a command and waits for its response.
    Send { method: &'static str, params: Option<Json> },
    /// Sends a command.
    Start { method: &'static str, params: Option<Json> },
    /// Waits for the response of a command that was sent.
    Await { method: &'static str },
}

impl View for SetupStep {
    type V = SetupStepSpec;

    open spec fn view(&self) -> SetupStepSpec {
        match *self {
            SetupStep::Send { method, params } => SetupStepSpec::Send {
                method: method@,
                params: crate::cdp::optional_json(params),
            },
            SetupStep::Start { method, params } => SetupStepSpec::Start {
                method: method@,
                params: crate::cdp::optional_json(params),
            },
            SetupStep::Await { method } => SetupStepSpec::Await { method: method@ },
        }
    }
}

pub open spec fn setup_view(steps: Seq<SetupStep>) -> Seq<SetupStepSpec> {
    steps.map_values(|step: SetupStep| step@)
}

/// An object with one member.
pub open spec fn single(key: Seq<char>, value: JsonSpec) -> JsonSpec {
    JsonSpec::Object(seq![(key, value)])
}

/// How a page is set up: its requests are intercepted, and reports of it asked for, before it
/// runs. What its main frame shows is asked for last.
pub open spec fn setup_of(paths: Seq<Seq<char>>) -> Seq<SetupStepSpec> {
    seq![
        SetupStepSpec::Send {
            method: "Fetch.enable"@,
            params: Some(single("patterns"@, JsonSpec::Array(all_patterns(paths)))),
        },
        SetupStepSpec::Start { method: "Page.enable"@, params: None },
        SetupStepSpec::Start { method: "Network.enable"@, params: None },
        SetupStepSpec::Start {
            method: "Network.setCacheDisabled"@,
            params: Some(single("cacheDisabled"@, JsonSpec::Bool(true))),
        },
        SetupStepSpec::Start {
            method: "Page.setLifecycleEventsEnabled"@,
            params: Some(single("enabled"@, JsonSpec::Bool(true))),
        },
        SetupStepSpec::Send { method: "Runtime.runIfWaitingForDebugger"@, params: None },
        SetupStepSpec::Await { method: "Page.enable"@ },
        SetupStepSpec::Await { method: "Network.enable"@ },
        SetupStepSpec::Await { method: "Network.setCacheDisabled"@ },
        SetupStepSpec::Await { method: "Page.setLifecycleEventsEnabled"@ },
        SetupStepSpec::Send { method: "Page.getFrameTree"@, params: None },
    ]
}

fn single_member(key: &str, value: Json) -> (json: Json)
    ensures
        json@ == single(key@, value@),
{
    let members = vec![(key.to_owned(), value)];
    proof {
        lemma_object_view(members);
        assert(members_view(members@) =~= seq![(key@, value@)]);
    }
    Json::Object(members)
}

/// What the main frame of a page shows, in the answer to `Page.getFrameTree`.
pub open spec fn frame_of_tree(frame_tree: JsonSpec) -> Option<JsonSpec> {
    match frame_tree.get("frameTree"@) {
        Some(tree) => tree.get("frame"@),
        None => None,
    }
}

/// The page waits for a document, if it is still being set up.
pub open spec fn await_document(
    session: SessionSpec,
    session_id: Seq<char>,
    frame_id: Seq<char>,
    loader_id: Option<Seq<char>>,
) -> (SessionSpec, EventStepSpec) {
    if session.pages.contains_key(session_id) && session.pages[session_id]
        == PageStateSpec::Configuring {
        match loader_id {
            Some(loader_id) => (
                controlled(session, session_id, frame_id, loader_id),
                EventStepSpec::Done,
            ),
            None => (
                with_page(session, session_id, PageStateSpec::Pending { frame_id }),
                EventStepSpec::Done,
            ),
        }
    } else {
        (
            session,
            EventStepSpec::Abort(
                joined(
                    seq!["page session "@, session_id, " detached during Fast configuration"@],
                ),
            ),
        )
    }
}

/// What the last answer of the setup of a page brings about.
pub open spec fn configured_step(
    session: SessionSpec,
    session_id: Seq<char>,
    frame_tree: JsonSpec,
) -> (SessionSpec, EventStepSpec) {
    match frame_of_tree(frame_tree) {
        None => (session, EventStepSpec::Fail("Page.getFrameTree missing main frame"@)),
        Some(frame) => match main_frame_of(frame) {
            Ok(MainFrameSpec::Transitional { frame_id }) => await_document(
                session,
                session_id,
                frame_id,
                None,
            ),
            Ok(MainFrameSpec::App { frame_id, loader_id }) => await_document(
                session,
                session_id,
                frame_id,
                Some(loader_id),
            ),
            Ok(MainFrameSpec::NonApp) => (
                without_page(session, session_id),
                EventStepSpec::Done,
            ),
            Err(cause) => (
                session,
                EventStepSpec::Abort(joined(seq!["validate page main frame: "@, cause])),
            ),
        },
    }
}

// ---------------------------------------------------------------------------
// Events

/// What an event brings about that says what it is.
pub open spec fn method_step(
    session: SessionSpec,
    event: JsonSpec,
    method: Seq<char>,
    now: u64,
) -> (SessionSpec, EventStepSpec) {
    if method == "Page.frameNavigated"@ {
        match after_navigation(session, event, now) {
            Ok(after) => (after, EventStepSpec::Done),
            Err(problem) => (session, EventStepSpec::Abort(problem)),
        }
    } else if method == "Target.attachedToTarget"@ {
        attach_step(session, event)
    } else if method == "Target.detachedFromTarget"@ {
        match detached_session(event) {
            Some(session_id) => (
                without_session(session, session_id, now),
                EventStepSpec::Done,
            ),
            None => (session, EventStepSpec::Done),
        }
    } else if method == "Network.requestWillBeSent"@ {
        match after_network(session, event) {
            Ok(after) => (after, EventStepSpec::Done),
            Err(problem) => (session, EventStepSpec::Fail(problem)),
        }
    } else if method == "Page.lifecycleEvent"@ {
        (after_lifecycle(session, event), EventStepSpec::Done)
    } else if method == "Fetch.requestPaused"@ {
        (session, paused_step(session, event))
    } else if method == "Inspector.detached"@ {
        match detached_session(event) {
            Some(session_id) => (
                without_session(session, session_id, now),
                EventStepSpec::Done,
            ),
            None => (session, EventStepSpec::AwaitExit),
        }
    } else {
        (session, EventStepSpec::Done)
    }
}

/// What an event brings about.
pub open spec fn event_step(session: SessionSpec, event: JsonSpec, now: u64) -> (
    SessionSpec,
    EventStepSpec,
) {
    match event.text_at("method"@) {
        Some(method) => method_step(session, event, method, now),
        None => (session, EventStepSpec::Done),
    }
}

fn failed(result: Result<(), SessionError>) -> (step: EventStep)
    ensures
        step@ == (match result {
            Ok(_) => EventStepSpec::Done,
            Err(error) => EventStepSpec::Fail(error@),
        }),
{
    match result {
        Ok(_) => EventStep::Done,
        Err(error) => EventStep::Fail(error),
    }
}

impl FastSession {
    /// Takes an event, and says what to do about it.
    pub fn handle_message(&mut self, value: &Json, now: u64) -> (step: EventStep)
        requires
            old(self).well_formed(),
        ensures
            final(self).well_formed(),
            final(self).expected_resources == old(self).expected_resources,
            final(self).request_paths == old(self).request_paths,
            (final(self)@, step@) == event_step(old(self)@, value@, now),
    {
        let method = match value.text_at("method") {
            Some(method) => method,
            None => {
                return EventStep::Done;
            },
        };
        match self.dispatch_local_event(value, now) {
            Ok(taken) => if taken {
                return EventStep::Done;
            },
            Err(error) => {
                return EventStep::Abort(error);
            },
        }
        if str_eq(method, "Target.attachedToTarget") {
            self.handle_attached_to_target(value)
        } else if str_eq(method, "Target.detachedFromTarget") {
            if let Some(session_id) = event_detaches_session(value) {
                self.detach_page_session(session_id, now);
            }
            EventStep::Done
        } else if str_eq(method, "Network.requestWillBeSent") {
            failed(self.handle_network_request(value))
        } else if str_eq(method, "Page.lifecycleEvent") {
            self.handle_page_lifecycle(value);
            EventStep::Done
        } else if str_eq(method, "Fetch.requestPaused") {
            self.handle_fetch_request_paused(value)
        } else if str_eq(method, "Inspector.detached") {
            if let Some(session_id) = event_detaches_session(value) {
                self.detach_page_session(session_id, now);
                return EventStep::Done;
            }
            EventStep::AwaitExit
        } else {
            EventStep::Done
        }
    }

    /// A target attached.
    pub fn handle_attached_to_target(&mut self, value: &Json) -> (step: EventStep)
        requires
            old(self).well_formed(),
        ensures
            final(self).well_formed(),
            final(self).expected_resources == old(self).expected_resources,
            final(self).request_paths == old(self).request_paths,
            (final(self)@, step@) == attach_step(old(self)@, value@),
    {
        let method = "Target.attachedToTarget";
        let params = match require_field(value, method, "params") {
            Ok(params) => params,
            Err(error) => {
                return EventStep::Fail(error);
            },
        };
        let session_id = match required_str(params, method, "sessionId") {
            Ok(session_id) => session_id,
            Err(error) => {
                return EventStep::Fail(error);
            },
        };
        let target = match require_field(params, method, "targetInfo") {
            Ok(target) => target,
            Err(error) => {
                return EventStep::Fail(error);
            },
        };
        let url = str_field(target, "url");
        let waiting = match params.get("waitingForDebugger") {
            Some(waiting) => match waiting.as_bool() {
                Some(waiting) => waiting,
                None => false,
            },
            None => false,
        };
        if !str_eq(str_field(target, "type"), "page") || is_non_app_page_url(url) {
            if waiting {
                return EventStep::Resume(session_id.to_owned());
            }
            return EventStep::Done;
        }
        if !waiting {
            let parts: [&str; 2] = [
                "app page target executed before Fast interception was armed: ",
                url,
            ];
            assert(texts(parts@) =~= seq![
                "app page target executed before Fast interception was armed: "@,
                url@,
            ]);
            return EventStep::Abort(SessionError::from_parts(&parts));
        }
        if self.put_page(session_id, PageState::Configuring) {
            let parts: [&str; 2] = ["duplicate page session ", session_id];
            assert(texts(parts@) =~= seq!["duplicate page session "@, session_id@]);
            return EventStep::Abort(SessionError::from_parts(&parts));
        }
        EventStep::Configure(session_id.to_owned())
    }

    /// The steps of setting up a page.
    pub fn setup_steps(&self) -> (steps: Vec<SetupStep>)
        requires
            self.well_formed(),
        ensures
            setup_view(steps@) == setup_of(self.request_paths.keys()),
    {
        let patterns = fetch_patterns(&self.request_paths);
        proof {
            lemma_array_view(patterns);
            assert(items_view(patterns@) =~= jsons_view(patterns@));
        }
        let steps = vec![
            SetupStep::Send {
                method: "Fetch.enable",
                params: Some(single_member("patterns", Json::Array(patterns))),
            },
            SetupStep::Start { method: "Page.enable", params: None },
            SetupStep::Start { method: "Network.enable", params: None },
            SetupStep::Start {
                method: "Network.setCacheDisabled",
                params: Some(single_member("cacheDisabled", Json::Bool(true))),
            },
            SetupStep::Start {
                method: "Page.setLifecycleEventsEnabled",
                params: Some(single_member("enabled", Json::Bool(true))),
            },
            SetupStep::Send { method: "Runtime.runIfWaitingForDebugger", params: None },
            SetupStep::Await { method: "Page.enable" },
            SetupStep::Await { method: "Network.enable" },
            SetupStep::Await { method: "Network.setCacheDisabled" },
            SetupStep::Await { method: "Page.setLifecycleEventsEnabled" },
            SetupStep::Send { method: "Page.getFrameTree", params: None },
        ];
        assert(setup_view(steps@) =~= setup_of(self.request_paths.keys()));
        steps
    }

    /// A page is set up: its main frame is known.
    pub fn finish_configuration(&mut self, session_id: &str, frame_tree: &Json) -> (step:
        EventStep)
        requires
            old(self).well_formed(),
        ensures
            final(self).well_formed(),
            final(self).expected_resources == old(self).expected_resources,
            final(self).request_paths == old(self).request_paths,
            (final(self)@, step@) == configured_step(old(self)@, session_id@, frame_tree@),
    {
        let frame = match frame_tree.get("frameTree") {
            Some(tree) => tree.get("frame"),
            None => None,
        };
        let frame = match frame {
            Some(frame) => frame,
            None => {
                return EventStep::Fail(SessionError::new("Page.getFrameTree missing main frame"));
            },
        };
        let (frame_id, loader_id) = match classify_main_frame(frame) {
            Ok(MainFrame::Transitional { frame_id }) => (frame_id, None),
            Ok(MainFrame::App { frame_id, loader_id }) => (frame_id, Some(loader_id)),
            Ok(MainFrame::NonApp) => {
                let _ = self.take_page(session_id);
                return EventStep::Done;
            },
            Err(error) => {
                let parts: [&str; 2] = ["validate page main frame: ", error.message.as_str()];
                assert(texts(parts@) =~= seq!["validate page main frame: "@, error@]);
                return EventStep::Abort(SessionError::from_parts(&parts));
            },
        };
        let configuring = match self.pages.get(session_id) {
            Some(PageState::Configuring) => true,
            _ => false,
        };
        if !configuring {
            let parts: [&str; 3] = [
                "page session ",
                session_id,
                " detached during Fast configuration",
            ];
            assert(texts(parts@) =~= seq![
                "page session "@,
                session_id@,
                " detached during Fast configuration"@,
            ]);
            return EventStep::Abort(SessionError::from_parts(&parts));
        }
        let ghost before = self@;
        let pending = PageState::Pending { frame_id: frame_id.as_str().to_owned() };
        let _ = self.put_page(session_id, pending);
        if let Some(loader_id) = loader_id {
            self.begin_controlled_load(session_id, frame_id, loader_id);
            assert(self@.pages =~= controlled(
                before,
                session_id@,
                frame_id@,
                loader_id@,
            ).pages);
        }
        EventStep::Done
    }

    /// A request was stopped.
    pub fn handle_fetch_request_paused(&self, value: &Json) -> (step: EventStep)
        requires
            self.well_formed(),
        ensures
            step@ == paused_step(self@, value@),
    {
        let method = "Fetch.requestPaused";
        let params = match require_field(value, method, "params") {
            Ok(params) => params,
            Err(error) => {
                return EventStep::Fail(error);
            },
        };
        let request_id = match required_str(params, method, "requestId") {
            Ok(request_id) => request_id,
            Err(error) => {
                return EventStep::Fail(error);
            },
        };
        let url = match request_url(params, method) {
            Ok(url) => url,
            Err(error) => {
                return EventStep::Fail(error);
            },
        };
        let session_id = match value.text_at("sessionId") {
            Some(session_id) => session_id,
            None => {
                return EventStep::Continue { request_id: request_id.to_owned(), session_id: None };
            },
        };
        let resource_path = match normalize_app_resource(url, &self.request_paths) {
            Some(resource_path) => resource_path,
            None => {
                return EventStep::Continue {
                    request_id: request_id.to_owned(),
                    session_id: Some(session_id.to_owned()),
                };
            },
        };
        let page_loaded = match self.pages.get(session_id) {
            Some(state) => state.is_loaded(),
            None => {
                return EventStep::Continue {
                    request_id: request_id.to_owned(),
                    session_id: Some(session_id.to_owned()),
                };
            },
        };
        if !is_request_stage(params) {
            let parts: [&str; 2] = [
                "planned Fast resource was intercepted outside Request stage: ",
                url,
            ];
            assert(texts(parts@) =~= seq![
                "planned Fast resource was intercepted outside Request stage: "@,
                url@,
            ]);
            return EventStep::Abort(SessionError::from_parts(&parts));
        }
        let script_request = match params.text_at("resourceType") {
            Some(kind) => str_eq(kind, "Script"),
            None => false,
        };
        match self.expected_resources.get(resource_path.as_str()) {
            Some(expected) => EventStep::Fulfill(
                Fulfillment {
                    request_id: request_id.to_owned(),
                    session_id: session_id.to_owned(),
                    labels: expected.labels.as_str().to_owned(),
                    encoded_body: expected.encoded_body.as_str().to_owned(),
                    resource_path,
                    page_loaded,
                    script_request,
                    network_id: str_field(params, "networkId").to_owned(),
                    frame_id: str_field(params, "frameId").to_owned(),
                },
            ),
            None => EventStep::Continue {
                request_id: request_id.to_owned(),
                session_id: Some(session_id.to_owned()),
            },
        }
    }

    /// A request was answered. Hands back what is reported of it.
    pub fn delivered(&mut self, fulfillment: &Fulfillment) -> (line: String)
        requires
            old(self).well_formed(),
        ensures
            final(self).well_formed(),
            final(self).expected_resources == old(self).expected_resources,
            final(self).request_paths == old(self).request_paths,
            final(self)@ == after_delivery(old(self)@, fulfillment@),
            line@ == delivery_line(fulfillment@),
    {
        let ghost before = self@;
        let session_id = fulfillment.session_id.as_str();
        if fulfillment.script_request {
            match self.take_page(session_id) {
                Some(PageState::Intercepting(page)) => {
                    let mut page = page;
                    let _ = page.record_fulfilled_script(
                        fulfillment.network_id.as_str(),
                        fulfillment.frame_id.as_str(),
                        fulfillment.resource_path.as_str(),
                    );
                    let _ = self.put_page(session_id, PageState::Intercepting(page));
                    assert(self@.pages =~= before.pages.insert(
                        session_id@,
                        PageStateSpec::Intercepting(page@),
                    ));
                },
                Some(state) => {
                    let _ = self.put_page(session_id, state);
                    assert(self@.pages =~= before.pages);
                },
                None => {
                    assert(self@.pages =~= before.pages);
                },
            }
        }
        let parts: [&str; 4] = [
            "PATCHED_RESOURCE=",
            fulfillment.resource_path.as_str(),
            " LABELS=",
            fulfillment.labels.as_str(),
        ];
        assert(texts(parts@) =~= seq![
            "PATCHED_RESOURCE="@,
            fulfillment.resource_path@,
            " LABELS="@,
            fulfillment.labels@,
        ]);
        concat(&parts)
    }

    /// A request was answered, and that was answered in turn.
    pub fn delivery_step(
        &mut self,
        fulfillment: &Fulfillment,
        answer: Result<Json, CdpError>,
        wire: &Wire,
    ) -> (step: DeliveryStep)
        requires
            old(self).well_formed(),
        ensures
            final(self).well_formed(),
            final(self).expected_resources == old(self).expected_resources,
            final(self).request_paths == old(self).request_paths,
            (final(self)@, step@) == delivery_of(
                old(self)@,
                fulfillment@,
                (match answer {
                    Ok(_) => None,
                    Err(error) => Some(error@),
                }),
                wire@.events,
            ),
    {
        match answer {
            Ok(_) => DeliveryStep::Delivered(self.delivered(fulfillment)),
            Err(error) => if self.is_stale_delivery(fulfillment, &error, wire) {
                DeliveryStep::Stale
            } else {
                DeliveryStep::Fail(error)
            },
        }
    }

    /// A request could not be answered. Says whether that is because it or its page is gone.
    pub fn is_stale_delivery(&self, fulfillment: &Fulfillment, error: &CdpError, wire: &Wire) -> (
        stale: bool)
        requires
            self.well_formed(),
        ensures
            stale == is_stale(
                error@,
                fulfillment.page_loaded,
                is_gone(self@, wire@.events, fulfillment.session_id@),
            ),
    {
        let gone = self.session_detached_or_pending(wire, fulfillment.session_id.as_str());
        is_stale_interception_error(error, fulfillment.page_loaded, gone)
    }
}

} // verus!
