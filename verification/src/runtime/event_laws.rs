//! What each event of the protocol brings about, told from its fields.

use vstd::prelude::*;

use crate::cdp::CdpErrorSpec;
use crate::json::JsonSpec;
use crate::runtime::address_laws::{
    is_app_address, is_end_at, lemma_address_asks_for_longest_end,
    lemma_foreign_address_asks_for_nothing, lemma_other_address_asks_for_nothing,
};
use crate::runtime::page::{HalfSpec, PageSpec, PageStateSpec};
use crate::runtime::readiness::received_by;
use crate::runtime::requests::path_patterns;
use crate::runtime::session::SessionSpec;
use crate::runtime::steps::{
    after_delivery, configured_step, continue_json, delivery_of, event_step, fulfill_json,
    DeliveryStepSpec, EventStepSpec, FulfillmentSpec,
};

verus! {

// ---------------------------------------------------------------------------
// Events and pages

/// An event with this method and these parameters.
pub open spec fn is_event(event: JsonSpec, method: Seq<char>, params: JsonSpec) -> bool {
    event.text_at("method"@) == Some(method) && event.get("params"@) == Some(params)
}

/// A page of the session is intercepted, and this is known of it.
pub open spec fn intercepts(session: SessionSpec, id: Seq<char>, page: PageSpec) -> bool {
    session.pages.contains_key(id) && session.pages[id] == PageStateSpec::Intercepting(page)
}

/// An address that starts with the scheme of the application.
pub open spec fn shows_app(url: Seq<char>) -> bool {
    url.len() >= 6 && url.take(6) == "app://"@
}

/// The address of a page that shows no document yet.
pub open spec fn shows_nothing(url: Seq<char>) -> bool {
    url.len() == 0 || url == "about:blank"@
}

proof fn lemma_shows_app(url: Seq<char>)
    ensures
        shows_app(url) <==> "app://"@.is_prefix_of(url),
        shows_app(url) ==> !shows_nothing(url),
{
    reveal_strlit("app://");
    reveal_strlit("about:blank");
    if shows_app(url) {
        assert(url[1] == url.take(6)[1]);
    }
    if "app://"@.is_prefix_of(url) {
        assert(url.take(6) =~= "app://"@);
    }
    assert("app://"@[1] == 'p' && "about:blank"@[1] == 'b');
}

proof fn lemma_methods_differ()
    ensures
        "Page.frameNavigated"@ != "Target.attachedToTarget"@,
        "Page.frameNavigated"@ != "Target.detachedFromTarget"@,
        "Page.frameNavigated"@ != "Network.requestWillBeSent"@,
        "Page.frameNavigated"@ != "Page.lifecycleEvent"@,
        "Page.frameNavigated"@ != "Fetch.requestPaused"@,
        "Page.frameNavigated"@ != "Inspector.detached"@,
        "Target.attachedToTarget"@ != "Target.detachedFromTarget"@,
        "Target.attachedToTarget"@ != "Network.requestWillBeSent"@,
        "Target.attachedToTarget"@ != "Page.lifecycleEvent"@,
        "Target.attachedToTarget"@ != "Fetch.requestPaused"@,
        "Target.attachedToTarget"@ != "Inspector.detached"@,
        "Target.detachedFromTarget"@ != "Network.requestWillBeSent"@,
        "Target.detachedFromTarget"@ != "Page.lifecycleEvent"@,
        "Target.detachedFromTarget"@ != "Fetch.requestPaused"@,
        "Target.detachedFromTarget"@ != "Inspector.detached"@,
        "Network.requestWillBeSent"@ != "Page.lifecycleEvent"@,
        "Network.requestWillBeSent"@ != "Fetch.requestPaused"@,
        "Network.requestWillBeSent"@ != "Inspector.detached"@,
        "Page.lifecycleEvent"@ != "Fetch.requestPaused"@,
        "Page.lifecycleEvent"@ != "Inspector.detached"@,
        "Fetch.requestPaused"@ != "Inspector.detached"@,
        "Document"@ != "Script"@,
{
    reveal_strlit("Page.frameNavigated");
    reveal_strlit("Target.attachedToTarget");
    reveal_strlit("Target.detachedFromTarget");
    reveal_strlit("Network.requestWillBeSent");
    reveal_strlit("Page.lifecycleEvent");
    reveal_strlit("Fetch.requestPaused");
    reveal_strlit("Inspector.detached");
    reveal_strlit("Document");
    reveal_strlit("Script");
    assert("Page.frameNavigated"@.len() == 19);
    assert("Target.attachedToTarget"@.len() == 23);
    assert("Target.detachedFromTarget"@.len() == 25);
    assert("Network.requestWillBeSent"@.len() == 25);
    assert("Page.lifecycleEvent"@.len() == 19);
    assert("Fetch.requestPaused"@.len() == 19);
    assert("Inspector.detached"@.len() == 18);
    assert("Target.detachedFromTarget"@[0] != "Network.requestWillBeSent"@[0]);
    assert("Page.frameNavigated"@[5] != "Page.lifecycleEvent"@[5]);
    assert("Page.frameNavigated"@[0] != "Fetch.requestPaused"@[0]);
    assert("Page.lifecycleEvent"@[0] != "Fetch.requestPaused"@[0]);
    assert("Document"@.len() != "Script"@.len());
}

// ---------------------------------------------------------------------------
// Targets that attach

/// A target that attached, with its session, kind, address and whether it waits.
pub open spec fn attaches(
    event: JsonSpec,
    session_id: Seq<char>,
    kind: Option<Seq<char>>,
    url: Option<Seq<char>>,
    waiting: bool,
) -> bool {
    &&& event.text_at("method"@) == Some("Target.attachedToTarget"@)
    &&& event.get("params"@) matches Some(params)
    &&& params.text_at("sessionId"@) == Some(session_id)
    &&& params.get("targetInfo"@) matches Some(target)
    &&& target.text_at("type"@) == kind
    &&& target.text_at("url"@) == url
    &&& waiting == (params.get("waitingForDebugger"@) == Some(JsonSpec::Bool(true)))
}

/// A target whose document the application does not own: it is no page, or shows a document
/// from elsewhere.
pub open spec fn is_foreign(kind: Option<Seq<char>>, url: Option<Seq<char>>) -> bool {
    ||| kind != Some("page"@)
    ||| url matches Some(url) && !shows_nothing(url) && !shows_app(url)
}

/// No waiting target is left waiting: one that is not the application's goes on at once, a
/// page of the application is set up, and a page that attaches twice stops everything. What
/// does not wait and is not the application's is left alone, and a page of the application
/// that already runs stops everything.
pub proof fn lemma_no_target_is_left_waiting(
    session: SessionSpec,
    event: JsonSpec,
    now: u64,
    session_id: Seq<char>,
    kind: Option<Seq<char>>,
    url: Option<Seq<char>>,
    waiting: bool,
)
    requires
        attaches(event, session_id, kind, url, waiting),
    ensures
        ({
            let (after, step) = event_step(session, event, now);
            &&& is_foreign(kind, url) && waiting ==> after == session && step
                == EventStepSpec::Resume(session_id)
            &&& is_foreign(kind, url) && !waiting ==> after == session && step
                == EventStepSpec::Done
            &&& !is_foreign(kind, url) && !waiting ==> after == session && step is Abort
            &&& !is_foreign(kind, url) && waiting && !session.pages.contains_key(session_id)
                ==> step == EventStepSpec::Configure(session_id) && after.pages
                == session.pages.insert(session_id, PageStateSpec::Configuring)
            &&& !is_foreign(kind, url) && waiting && session.pages.contains_key(session_id)
                ==> step is Abort
            &&& waiting ==> step is Resume || step is Configure || step is Abort
            &&& after.expected == session.expected && after.paths == session.paths
                && after.replacement == session.replacement
        }),
{
    lemma_methods_differ();
    if let Some(url) = url {
        lemma_shows_app(url);
    }
    lemma_shows_app(Seq::empty());
    reveal_strlit("page");
    assert("page"@.len() == 4);
}

// ---------------------------------------------------------------------------
// Requests that are stopped

/// A request of a page was stopped before it was sent.
pub open spec fn is_paused(
    event: JsonSpec,
    params: JsonSpec,
    id: Seq<char>,
    request_id: Seq<char>,
    url: Seq<char>,
) -> bool {
    &&& is_event(event, "Fetch.requestPaused"@, params)
    &&& event.text_at("sessionId"@) == Some(id)
    &&& params.text_at("requestId"@) == Some(request_id)
    &&& params.get("request"@) matches Some(request) && request.text_at("url"@) == Some(url)
    &&& params.get("responseStatusCode"@) is None
    &&& params.get("responseErrorReason"@) is None
}

/// The address asks for a resource that the session serves.
pub open spec fn asks_for(session: SessionSpec, url: Seq<char>, resource: Seq<char>) -> bool {
    exists|
        host: Seq<char>,
        lead: Seq<char>,
        path: Seq<char>,
        trail: Seq<char>,
        tail: Seq<char>,
        k: int,
    |
        {
            &&& #[trigger] is_app_address(url, host, lead, path, trail, tail)
            &&& #[trigger] is_end_at(path, k)
            &&& session.paths.contains_key(path.skip(k))
            &&& session.paths[path.skip(k)] == resource
            &&& forall|j: int|
                0 <= j < k && is_end_at(path, j) ==> !session.paths.contains_key(
                    #[trigger] path.skip(j),
                )
        }
}

proof fn lemma_asks_for(session: SessionSpec, url: Seq<char>, resource: Seq<char>)
    requires
        asks_for(session, url, resource),
    ensures
        crate::runtime::requests::resource_of(url, session.paths) == Some(resource),
{
    let (host, lead, path, trail, tail, k) = choose|
        host: Seq<char>,
        lead: Seq<char>,
        path: Seq<char>,
        trail: Seq<char>,
        tail: Seq<char>,
        k: int,
    |
        {
            &&& #[trigger] is_app_address(url, host, lead, path, trail, tail)
            &&& #[trigger] is_end_at(path, k)
            &&& session.paths.contains_key(path.skip(k))
            &&& session.paths[path.skip(k)] == resource
            &&& forall|j: int|
                0 <= j < k && is_end_at(path, j) ==> !session.paths.contains_key(
                    #[trigger] path.skip(j),
                )
        };
    lemma_address_asks_for_longest_end(url, host, lead, path, trail, tail, session.paths, k);
}

/// The text of a field, nothing without one.
pub open spec fn field(node: JsonSpec, key: Seq<char>) -> Seq<char> {
    match node.get(key) {
        Some(JsonSpec::Text(text)) => text,
        _ => Seq::empty(),
    }
}

/// A stopped request of a page for a resource that is served is answered with that resource,
/// under the names that the event gives it.
pub proof fn lemma_planned_request_is_fulfilled(
    session: SessionSpec,
    event: JsonSpec,
    params: JsonSpec,
    now: u64,
    id: Seq<char>,
    request_id: Seq<char>,
    url: Seq<char>,
    resource: Seq<char>,
)
    requires
        is_paused(event, params, id, request_id, url),
        session.pages.contains_key(id),
        asks_for(session, url, resource),
        session.expected.contains_key(resource),
    ensures
        ({
            let (after, step) = event_step(session, event, now);
            &&& after == session
            &&& step matches EventStepSpec::Fulfill(answer)
            &&& answer.request_id == request_id
            &&& answer.session_id == id
            &&& answer.resource_path == resource
            &&& answer.labels == session.expected[resource].labels
            &&& answer.encoded_body == session.expected[resource].encoded_body
            &&& answer.network_id == field(params, "networkId"@)
            &&& answer.frame_id == field(params, "frameId"@)
            &&& answer.script_request == (params.get("resourceType"@) == Some(
                JsonSpec::Text("Script"@),
            ))
            &&& answer.page_loaded == (session.pages[id] matches PageStateSpec::Intercepting(page)
                && page.loaded)
        }),
{
    lemma_methods_differ();
    lemma_asks_for(session, url, resource);
}

/// A stopped request that asks for nothing that is served, or comes from no page of the session,
/// goes on as it was.
pub proof fn lemma_other_request_goes_on(
    session: SessionSpec,
    event: JsonSpec,
    params: JsonSpec,
    now: u64,
    request_id: Seq<char>,
    url: Seq<char>,
)
    requires
        is_event(event, "Fetch.requestPaused"@, params),
        params.text_at("requestId"@) == Some(request_id),
        params.get("request"@) matches Some(request) && request.text_at("url"@) == Some(url),
        ({
            ||| !shows_app(url)
            ||| event.text_at("sessionId"@) is None
            ||| event.text_at("sessionId"@) matches Some(id) && !session.pages.contains_key(id)
            ||| session.paths == Map::<Seq<char>, Seq<char>>::empty()
        }),
    ensures
        event_step(session, event, now) == (
            session,
            EventStepSpec::Continue { request_id, session_id: event.text_at("sessionId"@) },
        ),
{
    lemma_methods_differ();
    reveal_strlit("app://");
    assert("app://"@ =~= seq!['a', 'p', 'p', ':', '/', '/']);
    if !shows_app(url) {
        lemma_foreign_address_asks_for_nothing(url, session.paths);
    }
    if session.paths == Map::<Seq<char>, Seq<char>>::empty() {
        if let Some(path) = crate::runtime::requests::app_path(url) {
            lemma_nothing_in_empty(crate::paths::suffixes(path));
        }
    }
}

proof fn lemma_nothing_in_empty(texts: Seq<Seq<char>>)
    ensures
        crate::runtime::requests::first_value(texts, Map::<Seq<char>, Seq<char>>::empty()) is None,
    decreases texts.len(),
{
    if texts.len() > 0 {
        lemma_nothing_in_empty(texts.drop_first());
    }
}

/// A stopped request of a page of the session whose address has no end that is a request path
/// goes on as it was.
pub proof fn lemma_unplanned_request_goes_on(
    session: SessionSpec,
    event: JsonSpec,
    params: JsonSpec,
    now: u64,
    request_id: Seq<char>,
    url: Seq<char>,
    host: Seq<char>,
    lead: Seq<char>,
    path: Seq<char>,
    trail: Seq<char>,
    tail: Seq<char>,
)
    requires
        is_event(event, "Fetch.requestPaused"@, params),
        params.text_at("requestId"@) == Some(request_id),
        params.get("request"@) matches Some(request) && request.text_at("url"@) == Some(url),
        is_app_address(url, host, lead, path, trail, tail),
        forall|j: int| is_end_at(path, j) ==> !session.paths.contains_key(#[trigger] path.skip(j)),
    ensures
        event_step(session, event, now) == (
            session,
            EventStepSpec::Continue { request_id, session_id: event.text_at("sessionId"@) },
        ),
{
    lemma_methods_differ();
    lemma_other_address_asks_for_nothing(url, host, lead, path, trail, tail, session.paths);
}

/// A planned resource that was already answered when its request was stopped stops everything.
pub proof fn lemma_late_interception_stops(
    session: SessionSpec,
    event: JsonSpec,
    params: JsonSpec,
    now: u64,
    id: Seq<char>,
    request_id: Seq<char>,
    url: Seq<char>,
    resource: Seq<char>,
)
    requires
        is_event(event, "Fetch.requestPaused"@, params),
        event.text_at("sessionId"@) == Some(id),
        params.text_at("requestId"@) == Some(request_id),
        params.get("request"@) matches Some(request) && request.text_at("url"@) == Some(url),
        session.pages.contains_key(id),
        asks_for(session, url, resource),
        params.get("responseStatusCode"@) is Some || params.get("responseErrorReason"@) is Some,
    ensures
        event_step(session, event, now).0 == session,
        event_step(session, event, now).1 is Abort,
{
    lemma_methods_differ();
    lemma_asks_for(session, url, resource);
}

// ---------------------------------------------------------------------------
// Deliveries

/// A page asked for a script over the network.
pub open spec fn is_script_request(
    event: JsonSpec,
    id: Seq<char>,
    request_id: Seq<char>,
    frame_id: Seq<char>,
    loader_id: Seq<char>,
    url: Seq<char>,
) -> bool {
    &&& event.text_at("method"@) == Some("Network.requestWillBeSent"@)
    &&& event.get("params"@) matches Some(params)
    &&& event.text_at("sessionId"@) == Some(id)
    &&& params.get("type"@) == Some(JsonSpec::Text("Script"@))
    &&& params.text_at("requestId"@) == Some(request_id)
    &&& params.text_at("frameId"@) == Some(frame_id)
    &&& params.text_at("loaderId"@) == Some(loader_id)
    &&& params.get("request"@) matches Some(request) && request.text_at("url"@) == Some(url)
}

/// A script that a page asked for, whose request was stopped and answered, is verified on the
/// page, whichever of the two is seen first: both name the same request of the network, the
/// same frame and the same resource, and the first names the document that is being verified.
pub proof fn lemma_answered_script_is_verified(
    session: SessionSpec,
    page: PageSpec,
    id: Seq<char>,
    paused: JsonSpec,
    params: JsonSpec,
    request_id: Seq<char>,
    paused_url: Seq<char>,
    network: JsonSpec,
    network_id: Seq<char>,
    network_url: Seq<char>,
    resource: Seq<char>,
    first: u64,
    second: u64,
    events: Seq<JsonSpec>,
)
    requires
        intercepts(session, id, page),
        page.frame_id.len() > 0,
        page.loader_id.len() > 0,
        network_id.len() > 0,
        session.expected.contains_key(resource),
        is_paused(paused, params, id, request_id, paused_url),
        asks_for(session, paused_url, resource),
        params.text_at("networkId"@) == Some(network_id),
        params.text_at("frameId"@) == Some(page.frame_id),
        params.get("resourceType"@) == Some(JsonSpec::Text("Script"@)),
        is_script_request(
            network,
            id,
            network_id,
            page.frame_id,
            page.loader_id,
            network_url,
        ),
        asks_for(session, network_url, resource),
    ensures
        ({
            let (after_pause, step) = event_step(session, paused, first);
            &&& step is Fulfill
            &&& {
                let answered = delivery_of(after_pause, step->Fulfill_0, None, events).0;
                received_by(event_step(answered, network, second).0, id) matches Some(verified)
                    && verified.contains(resource)
            }
        }),
        ({
            let asked = event_step(session, network, first).0;
            let (after_pause, step) = event_step(asked, paused, second);
            &&& step is Fulfill
            &&& received_by(delivery_of(after_pause, step->Fulfill_0, None, events).0, id) matches
                Some(verified) && verified.contains(resource)
        }),
{
    lemma_methods_differ();
    lemma_asks_for(session, paused_url, resource);
    lemma_asks_for(session, network_url, resource);
    let (after_pause, step) = event_step(session, paused, first);
    assert(step is Fulfill);
    let answered = delivery_of(after_pause, step->Fulfill_0, None, events).0;
    assert(answered.paths == session.paths);
    let asked = event_step(session, network, first).0;
    assert(asked.paths == session.paths && asked.expected == session.expected);
    assert(asked.pages.contains_key(id));
}

/// A script is verified only by both: what a page asked for over the network without an answer,
/// or what was answered without being asked for, stays unverified.
pub proof fn lemma_one_side_verifies_nothing(
    session: SessionSpec,
    page: PageSpec,
    id: Seq<char>,
    event: JsonSpec,
    now: u64,
    fulfillment: FulfillmentSpec,
)
    requires
        intercepts(session, id, page),
        page.pending == Map::<Seq<char>, HalfSpec>::empty(),
    ensures
        received_by(event_step(session, event, now).0, id) matches Some(verified)
            ==> verified.subset_of(page.verified),
        received_by(after_delivery(session, fulfillment), id) matches Some(verified)
            ==> verified.subset_of(page.verified),
{
}

/// The answer to a stopped request that was taken is reported under the path and the labels of
/// its resource. Only a request or a page that is gone may refuse it.
pub proof fn lemma_refused_answer_is_stale_or_fatal(
    session: SessionSpec,
    fulfillment: FulfillmentSpec,
    details: JsonSpec,
    events: Seq<JsonSpec>,
)
    ensures
        ({
            let error = CdpErrorSpec::Command { method: "Fetch.fulfillRequest"@, details };
            let (after, step) = delivery_of(session, fulfillment, Some(error), events);
            let unknown_request = details.get("code"@) == Some(JsonSpec::Negative(-32602i64))
                && details.text_at("message"@) == Some("Invalid InterceptionId."@);
            let unknown_session = details.get("code"@) == Some(JsonSpec::Negative(-32001i64))
                && details.text_at("message"@) == Some("Session with given id not found."@);
            let page_is_known = session.pages.contains_key(fulfillment.session_id);
            &&& after == session
            &&& unknown_request && !fulfillment.page_loaded ==> step == DeliveryStepSpec::Stale
            &&& unknown_session && !page_is_known ==> step == DeliveryStepSpec::Stale
            &&& unknown_request && fulfillment.page_loaded ==> step == DeliveryStepSpec::Fail(error)
            &&& details.get("code"@) is None ==> step == DeliveryStepSpec::Fail(error)
            &&& details.get("message"@) is None ==> step == DeliveryStepSpec::Fail(error)
            &&& unknown_session && page_is_known && events.len() == 0 ==> step
                == DeliveryStepSpec::Fail(error)
        }),
        ({
            let error = CdpErrorSpec::Malformed { method: "Fetch.fulfillRequest"@ };
            delivery_of(session, fulfillment, Some(error), events) == (
                session,
                DeliveryStepSpec::Fail(error),
            )
        }),
        delivery_of(session, fulfillment, None, events).1 == DeliveryStepSpec::Delivered(
            "PATCHED_RESOURCE="@ + fulfillment.resource_path + " LABELS="@ + fulfillment.labels,
        ),
{
    reveal_strlit("Invalid InterceptionId.");
    reveal_strlit("Invalid InterceptionId");
    let dotted = "Invalid InterceptionId."@;
    let bare = "Invalid InterceptionId"@;
    assert(dotted.drop_last() =~= bare);
    reveal_with_fuel(crate::runtime::requests::without_dots, 3);
    assert(crate::runtime::requests::without_dots(dotted) == bare);
    reveal_with_fuel(crate::text::joined, 5);
    assert(crate::runtime::steps::delivery_line(fulfillment) =~= "PATCHED_RESOURCE="@
        + fulfillment.resource_path + " LABELS="@ + fulfillment.labels);
}

// ---------------------------------------------------------------------------
// Navigations

/// A frame of a page shows a document, with this id, address and loader.
pub open spec fn commits(
    event: JsonSpec,
    id: Seq<char>,
    frame_id: Seq<char>,
    url: Seq<char>,
    loader_id: Seq<char>,
) -> bool {
    &&& event.text_at("method"@) == Some("Page.frameNavigated"@)
    &&& event.text_at("sessionId"@) == Some(id)
    &&& event.get("params"@) matches Some(params)
    &&& params.get("frame"@) matches Some(frame)
    &&& frame.text_at("id"@) == Some(frame_id)
    &&& frame.text_at("url"@) == Some(url)
    &&& frame.text_at("loaderId"@) == Some(loader_id)
}

/// A page that waits for its document is intercepted from the moment that the application's
/// document commits in its main frame, with nothing verified; a document from elsewhere makes
/// it no page of the session; an empty one leaves it waiting, and so does any other frame.
pub proof fn lemma_waiting_page_takes_its_document(
    session: SessionSpec,
    event: JsonSpec,
    now: u64,
    id: Seq<char>,
    waiting: Seq<char>,
    frame_id: Seq<char>,
    url: Seq<char>,
    loader_id: Seq<char>,
)
    requires
        commits(event, id, frame_id, url, loader_id),
        session.pages.contains_key(id),
        session.pages[id] == (PageStateSpec::Pending { frame_id: waiting }),
        loader_id.len() > 0,
    ensures
        ({
            let (after, step) = event_step(session, event, now);
            &&& step == EventStepSpec::Done
            &&& frame_id != waiting || shows_nothing(url) ==> after == session
            &&& frame_id == waiting && shows_app(url) ==> {
                &&& intercepts(
                    after,
                    id,
                    PageSpec {
                        frame_id,
                        loader_id,
                        loaded: false,
                        first_load_completed: false,
                        reverify_deadline: None,
                        verified: Set::empty(),
                        pending: Map::empty(),
                    },
                )
                &&& after.replacement is None
            }
            &&& frame_id == waiting && !shows_app(url) && !shows_nothing(url) ==> after.pages
                == session.pages.remove(id) && after.replacement == session.replacement
        }),
{
    lemma_methods_differ();
    lemma_shows_app(url);
}

/// A document that commits in the main frame of an intercepted page: before the first load is
/// done it stops everything; after it, one of the application starts the page over, on the
/// clock for forty-five seconds, and one from elsewhere stops everything. The document that is
/// being verified, and documents of other frames, change nothing.
pub proof fn lemma_intercepted_page_goes_elsewhere(
    session: SessionSpec,
    event: JsonSpec,
    now: u64,
    id: Seq<char>,
    page: PageSpec,
    frame_id: Seq<char>,
    url: Seq<char>,
    loader_id: Seq<char>,
)
    requires
        commits(event, id, frame_id, url, loader_id),
        intercepts(session, id, page),
        now <= u64::MAX - 45_000,
        loader_id.len() > 0,
    ensures
        ({
            let (after, step) = event_step(session, event, now);
            let elsewhere = frame_id == page.frame_id && loader_id != page.loader_id;
            &&& !elsewhere ==> step == EventStepSpec::Done && after.pages =~= session.pages
            &&& elsewhere && !page.first_load_completed ==> step is Abort && after == session
            &&& elsewhere && page.first_load_completed && !shows_app(url) && !shows_nothing(url)
                ==> step is Abort && after == session
            &&& elsewhere && page.first_load_completed && (shows_app(url) || shows_nothing(url))
                ==> step == EventStepSpec::Done && intercepts(
                after,
                id,
                PageSpec {
                    frame_id,
                    loader_id,
                    loaded: false,
                    first_load_completed: true,
                    reverify_deadline: Some((now + 45_000) as u64),
                    verified: Set::empty(),
                    pending: Map::empty(),
                },
            )
            &&& forall|other: Seq<char>|
                other != id ==> after.pages.contains_key(other) == session.pages.contains_key(
                    other,
                ) && #[trigger] after.pages[other] == session.pages[other]
        }),
{
    lemma_methods_differ();
    lemma_shows_app(url);
    lemma_shows_app(Seq::empty());
}

/// A page asked for a document over the network.
pub open spec fn is_document_request(
    event: JsonSpec,
    id: Seq<char>,
    frame_id: Seq<char>,
    loader_id: Seq<char>,
    url: Seq<char>,
) -> bool {
    &&& event.text_at("method"@) == Some("Network.requestWillBeSent"@)
    &&& event.get("params"@) matches Some(params)
    &&& event.text_at("sessionId"@) == Some(id)
    &&& params.get("type"@) == Some(JsonSpec::Text("Document"@))
    &&& field(params, "frameId"@) == frame_id
    &&& field(params, "loaderId"@) == loader_id
    &&& params.get("request"@) matches Some(request) && request.text_at("url"@) == Some(url)
}

/// A request for a document changes nothing. The main frame of a page may ask only for the
/// application's documents, and for another one only after its first load.
pub proof fn lemma_document_requests_are_watched(
    session: SessionSpec,
    event: JsonSpec,
    now: u64,
    id: Seq<char>,
    page: PageSpec,
    frame_id: Seq<char>,
    loader_id: Seq<char>,
    url: Seq<char>,
)
    requires
        is_document_request(event, id, frame_id, loader_id, url),
        intercepts(session, id, page),
    ensures
        ({
            let (after, step) = event_step(session, event, now);
            let ours = frame_id == page.frame_id;
            let another = loader_id != page.loader_id;
            &&& after == session
            &&& step is Fail <==> loader_id.len() == 0 || ours && !(another
                && page.first_load_completed) && (another || !shows_app(url))
            &&& step is Fail || step == EventStepSpec::Done
        }),
{
    lemma_methods_differ();
    lemma_shows_app(url);
}

// ---------------------------------------------------------------------------
// Loads

/// A page reported something of its life.
pub open spec fn reports(
    event: JsonSpec,
    id: Seq<char>,
    name: Seq<char>,
    frame_id: Seq<char>,
    loader_id: Option<Seq<char>>,
) -> bool {
    &&& event.text_at("method"@) == Some("Page.lifecycleEvent"@)
    &&& event.get("params"@) matches Some(params)
    &&& event.text_at("sessionId"@) == Some(id)
    &&& params.text_at("name"@) == Some(name)
    &&& field(params, "frameId"@) == frame_id
    &&& params.text_at("loaderId"@) == loader_id
}

/// A page has loaded once its main frame reports the load of the document that is being
/// verified, or of one that it does not name. Nothing else loads it.
pub proof fn lemma_load_is_reported(
    session: SessionSpec,
    event: JsonSpec,
    now: u64,
    id: Seq<char>,
    page: PageSpec,
    name: Seq<char>,
    frame_id: Seq<char>,
    loader_id: Option<Seq<char>>,
)
    requires
        reports(event, id, name, frame_id, loader_id),
        intercepts(session, id, page),
        !page.loaded,
    ensures
        ({
            let (after, step) = event_step(session, event, now);
            let ours = match loader_id {
                Some(loader) => loader.len() == 0 || loader == page.loader_id,
                None => true,
            };
            &&& step == EventStepSpec::Done
            &&& name == "load"@ && frame_id == page.frame_id && ours ==> intercepts(
                after,
                id,
                PageSpec { loaded: true, first_load_completed: true, ..page },
            )
            &&& !(name == "load"@ && frame_id == page.frame_id && ours) ==> after.pages
                =~= session.pages
        }),
{
    lemma_methods_differ();
}

// ---------------------------------------------------------------------------
// Pages that go away

/// A page is gone.
pub open spec fn detaches(event: JsonSpec, id: Seq<char>) -> bool {
    ||| {
        &&& event.text_at("method"@) == Some("Target.detachedFromTarget"@)
        &&& event.get("params"@) matches Some(params)
        &&& params.text_at("sessionId"@) == Some(id)
    }
    ||| event.text_at("method"@) == Some("Inspector.detached"@) && event.text_at("sessionId"@)
        == Some(id)
}

/// A page that is gone is no page of the session any more. The last one must be replaced within
/// twenty seconds.
pub proof fn lemma_gone_page_is_forgotten(
    session: SessionSpec,
    event: JsonSpec,
    now: u64,
    id: Seq<char>,
)
    requires
        detaches(event, id),
        now <= u64::MAX - 20_000,
    ensures
        ({
            let (after, step) = event_step(session, event, now);
            &&& step == EventStepSpec::Done
            &&& after.pages == session.pages.remove(id)
            &&& session.pages.contains_key(id) && (forall|other: Seq<char>|
                session.pages.contains_key(other) ==> other == id) ==> after.replacement == Some(
                (now + 20_000) as u64,
            )
            &&& !session.pages.contains_key(id) ==> after.replacement == session.replacement
            &&& (exists|other: Seq<char>| #[trigger]
                session.pages.contains_key(other) && other != id) ==> after.replacement
                == session.replacement
        }),
{
    lemma_methods_differ();
    let rest = session.pages.remove(id);
    if forall|other: Seq<char>| session.pages.contains_key(other) ==> other == id {
        assert(rest =~= Map::empty());
    }
    if exists|other: Seq<char>| #[trigger] session.pages.contains_key(other) && other != id {
        let other = choose|other: Seq<char>| #[trigger]
            session.pages.contains_key(other) && other != id;
        assert(rest.contains_key(other));
    }
}

/// When the debugger itself goes away, the application is given time to exit.
pub proof fn lemma_lost_debugger_awaits_the_exit(session: SessionSpec, event: JsonSpec, now: u64)
    requires
        event.text_at("method"@) == Some("Inspector.detached"@),
        event.text_at("sessionId"@) is None,
    ensures
        event_step(session, event, now) == (session, EventStepSpec::AwaitExit),
{
    lemma_methods_differ();
}

/// An event that the session has no use for changes nothing and asks for nothing.
pub proof fn lemma_other_events_are_ignored(session: SessionSpec, event: JsonSpec, now: u64)
    requires
        event.text_at("method"@) matches Some(method) ==> {
            &&& method != "Page.frameNavigated"@
            &&& method != "Target.attachedToTarget"@
            &&& method != "Target.detachedFromTarget"@
            &&& method != "Network.requestWillBeSent"@
            &&& method != "Page.lifecycleEvent"@
            &&& method != "Fetch.requestPaused"@
            &&& method != "Inspector.detached"@
        },
    ensures
        event_step(session, event, now) == (session, EventStepSpec::Done),
{
}

// ---------------------------------------------------------------------------
// Pages that were set up

/// The answer to `Page.getFrameTree`, with the id, address and loader of the main frame.
pub open spec fn is_frame_tree(
    tree: JsonSpec,
    frame_id: Seq<char>,
    url: Seq<char>,
    loader_id: Seq<char>,
) -> bool {
    &&& tree.get("frameTree"@) matches Some(root)
    &&& root.get("frame"@) matches Some(frame)
    &&& frame.text_at("id"@) == Some(frame_id)
    &&& frame.text_at("url"@) == Some(url)
    &&& field(frame, "loaderId"@) == loader_id
}

/// A page that was set up waits for its document, is intercepted where it already shows one of
/// the application, and is no page of the session where it shows one from elsewhere. One that
/// went away meanwhile stops everything.
pub proof fn lemma_page_that_was_set_up(
    session: SessionSpec,
    id: Seq<char>,
    tree: JsonSpec,
    frame_id: Seq<char>,
    url: Seq<char>,
    loader_id: Seq<char>,
)
    requires
        is_frame_tree(tree, frame_id, url, loader_id),
    ensures
        ({
            let (after, step) = configured_step(session, id, tree);
            let waits = session.pages.contains_key(id) && session.pages[id]
                == PageStateSpec::Configuring;
            &&& shows_nothing(url) && waits ==> step == EventStepSpec::Done && after.pages
                == session.pages.insert(id, PageStateSpec::Pending { frame_id })
                && after.replacement == session.replacement
            &&& shows_app(url) && waits && loader_id.len() > 0 ==> {
                &&& step == EventStepSpec::Done
                &&& intercepts(
                    after,
                    id,
                    PageSpec {
                        frame_id,
                        loader_id,
                        loaded: false,
                        first_load_completed: false,
                        reverify_deadline: None,
                        verified: Set::empty(),
                        pending: Map::empty(),
                    },
                )
                &&& after.replacement is None
            }
            &&& shows_app(url) && loader_id.len() == 0 ==> step is Abort && after == session
            &&& !shows_app(url) && !shows_nothing(url) ==> step == EventStepSpec::Done
                && after.pages == session.pages.remove(id)
            &&& !waits && (shows_nothing(url) || shows_app(url)) ==> step is Abort && after
                == session
        }),
{
    lemma_shows_app(url);
}

// ---------------------------------------------------------------------------
// What is sent

/// The member of an object with this key.
pub open spec fn has(json: JsonSpec, key: Seq<char>, value: JsonSpec) -> bool {
    json matches JsonSpec::Object(members) && members.contains((key, value))
}

/// A request is answered as a script of the application, with a success and the encoded body;
/// a request that goes on is only named.
pub proof fn lemma_answers_carry_the_script(request_id: Seq<char>, body: Seq<char>)
    ensures
        has(fulfill_json(request_id, body), "requestId"@, JsonSpec::Text(request_id)),
        has(fulfill_json(request_id, body), "responseCode"@, JsonSpec::Unsigned(200)),
        has(fulfill_json(request_id, body), "body"@, JsonSpec::Text(body)),
        exists|headers: Seq<JsonSpec>| #[trigger]
            has(fulfill_json(request_id, body), "responseHeaders"@, JsonSpec::Array(headers))
                && headers.len() == 1 && has(headers[0], "name"@, JsonSpec::Text("content-type"@))
                && has(
                headers[0],
                "value"@,
                JsonSpec::Text("application/javascript; charset=utf-8"@),
            ),
        has(continue_json(request_id), "requestId"@, JsonSpec::Text(request_id)),
        continue_json(request_id)->Object_0.len() == 1,
        fulfill_json(request_id, body)->Object_0.len() == 4,
{
    let answer = fulfill_json(request_id, body)->Object_0;
    assert(answer[0] == ("requestId"@, JsonSpec::Text(request_id)));
    assert(answer[1] == ("responseCode"@, JsonSpec::Unsigned(200)));
    assert(answer[3] == ("body"@, JsonSpec::Text(body)));
    let headers = answer[2].1->Array_0;
    assert(answer[2] == ("responseHeaders"@, JsonSpec::Array(headers)));
    let header = headers[0]->Object_0;
    assert(header[0] == ("name"@, JsonSpec::Text("content-type"@)));
    assert(header[1] == ("value"@, JsonSpec::Text("application/javascript; charset=utf-8"@)));
    assert(has(fulfill_json(request_id, body), "responseHeaders"@, JsonSpec::Array(headers)));
    assert(continue_json(request_id)->Object_0[0] == (
        "requestId"@,
        JsonSpec::Text(request_id),
    ));
}

/// A request path is intercepted on every host of the application, alone and with a query, when
/// it is asked for.
pub proof fn lemma_paths_are_intercepted(path: Seq<char>)
    ensures
        path_patterns(path).len() == 2,
        has(path_patterns(path)[0], "urlPattern"@, JsonSpec::Text("app://*/"@ + path)),
        has(path_patterns(path)[1], "urlPattern"@, JsonSpec::Text("app://*/"@ + path + "\\?*"@)),
        forall|k: int|
            0 <= k < 2 ==> has(
                #[trigger] path_patterns(path)[k],
                "requestStage"@,
                JsonSpec::Text("Request"@),
            ),
{
    reveal_with_fuel(crate::text::joined, 4);
    assert(crate::text::joined(seq!["app://*/"@, path]) =~= "app://*/"@ + path);
    assert(crate::text::joined(seq!["app://*/"@, path, "\\?*"@]) =~= "app://*/"@ + path
        + "\\?*"@);
    assert forall|k: int| 0 <= k < 2 implies has(
        #[trigger] path_patterns(path)[k],
        "requestStage"@,
        JsonSpec::Text("Request"@),
    ) by {
        let members = path_patterns(path)[k]->Object_0;
        assert(members[1] == ("requestStage"@, JsonSpec::Text("Request"@)));
    }
    assert(path_patterns(path)[0]->Object_0[0] == (
        "urlPattern"@,
        JsonSpec::Text("app://*/"@ + path),
    ));
    assert(path_patterns(path)[1]->Object_0[0] == (
        "urlPattern"@,
        JsonSpec::Text("app://*/"@ + path + "\\?*"@),
    ));
}

} // verus!
