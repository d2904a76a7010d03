//! What holds of every session.

use vstd::prelude::*;

use crate::json::JsonSpec;
use crate::runtime::page::{state_is_loaded, HalfSpec, PageSpec, PageStateSpec, ScriptDeliveryHalf};
use crate::runtime::plan::ExpectedResource;
use crate::runtime::readiness::{
    first_expired, interception_problem, is_expired, is_first_loaded, is_ready, lemma_missing_paths,
    missing_paths, received_by, settled, state_deadline,
};
use crate::runtime::requests::{requested_url, resource_of, stopped_at_request};
use crate::runtime::session::{after_commit, after_document, FastSession, SessionSpec};
use crate::runtime::steps::{
    after_delivery, configured_step, event_step, paused_step, setup_of, single, FulfillmentSpec,
    SetupStepSpec,
};
use crate::text_map::TextMap;

verus! {

// ---------------------------------------------------------------------------
// Pages run only with interception

/// A page is told to run only after its requests are intercepted, for all planned paths, and
/// after all reports of it were asked for.
pub proof fn lemma_armed_before_running(paths: Seq<Seq<char>>, i: int)
    requires
        0 <= i < setup_of(paths).len(),
        setup_of(paths)[i] == (SetupStepSpec::Send {
            method: "Runtime.runIfWaitingForDebugger"@,
            params: None,
        }),
    ensures
        setup_of(paths)[0] == (SetupStepSpec::Send {
            method: "Fetch.enable"@,
            params: Some(
                single(
                    "patterns"@,
                    JsonSpec::Array(crate::runtime::requests::all_patterns(paths)),
                ),
            ),
        }),
        0 < i,
        forall|j: int|
            0 <= j < setup_of(paths).len() && #[trigger] setup_of(paths)[j] is Start ==> 0 < j < i,
{
    reveal_strlit("Fetch.enable");
    reveal_strlit("Page.getFrameTree");
    reveal_strlit("Runtime.runIfWaitingForDebugger");
    assert("Fetch.enable"@.len() != "Runtime.runIfWaitingForDebugger"@.len());
    assert("Page.getFrameTree"@.len() != "Runtime.runIfWaitingForDebugger"@.len());
    assert(i == 5);
}

/// Every request path leads to a resource that is served.
pub open spec fn paths_are_served(session: SessionSpec) -> bool {
    forall|path: Seq<char>|
        session.paths.contains_key(path) ==> session.expected.contains_key(
            #[trigger] session.paths[path],
        )
}

proof fn lemma_first_value_is_value(
    texts: Seq<Seq<char>>,
    map: Map<Seq<char>, Seq<char>>,
)
    ensures
        crate::runtime::requests::first_value(texts, map) matches Some(value) ==> exists|
            key: Seq<char>,
        | #[trigger] map.contains_key(key) && map[key] == value,
    decreases texts.len(),
{
    if texts.len() > 0 {
        if map.contains_key(texts[0]) {
            assert(map[texts[0]] == map[texts[0]]);
        } else {
            lemma_first_value_is_value(texts.drop_first(), map);
        }
    }
}

/// A planned resource that a page of the session asks for is answered with its patched content,
/// whatever else the event says.
pub proof fn lemma_planned_request_is_answered(
    session: SessionSpec,
    event: JsonSpec,
    params: JsonSpec,
    session_id: Seq<char>,
    request_id: Seq<char>,
    url: Seq<char>,
    resource: Seq<char>,
)
    requires
        paths_are_served(session),
        session.pages.contains_key(session_id),
        event.text_at("sessionId"@) == Some(session_id),
        event.get("params"@) == Some(params),
        params.text_at("requestId"@) == Some(request_id),
        requested_url(params) == Some(url),
        resource_of(url, session.paths) == Some(resource),
        stopped_at_request(params),
    ensures
        ({
            let step = paused_step(session, event);
            &&& step is Fulfill
            &&& step->Fulfill_0.request_id == request_id
            &&& step->Fulfill_0.session_id == session_id
            &&& step->Fulfill_0.resource_path == resource
            &&& session.expected.contains_key(resource)
            &&& step->Fulfill_0.encoded_body == session.expected[resource].encoded_body
        }),
{
    let path = crate::runtime::requests::app_path(url)->0;
    lemma_first_value_is_value(crate::paths::suffixes(path), session.paths);
}

/// What a plan makes a session serve leads somewhere for every request path.
pub proof fn lemma_planned_paths_are_served(
    session: SessionSpec,
    resources: Seq<crate::asar::PlannedResource>,
)
    requires
        session.expected == crate::runtime::plan::all_served(resources),
        session.paths == crate::runtime::plan::all_paths(resources),
    ensures
        paths_are_served(session),
{
    assert forall|path: Seq<char>|
        session.paths.contains_key(path) implies session.expected.contains_key(
        #[trigger] session.paths[path],
    ) by {
        crate::runtime::plan::lemma_paths_lead_to_served(resources, path);
    }
}

// ---------------------------------------------------------------------------
// Navigations

/// A request for a document changes nothing: only a document that commits does.
pub proof fn lemma_request_is_no_commit(
    session: SessionSpec,
    session_id: Seq<char>,
    frame_id: Seq<char>,
    loader_id: Seq<char>,
    url: Seq<char>,
)
    ensures
        after_document(session, session_id, frame_id, loader_id, url) matches Ok(after) ==> after
            == session,
{
}

/// A document that commits during the first load is refused, wherever it comes from.
pub proof fn lemma_first_load_is_not_interrupted(
    page: PageSpec,
    frame: JsonSpec,
    loader_id: Seq<char>,
    now: u64,
)
    requires
        !page.first_load_completed,
        frame.text_at("loaderId"@) == Some(loader_id),
        loader_id.len() > 0,
        loader_id != page.loader_id,
    ensures
        after_commit(page, page.frame_id, frame, now) is Err,
{
}

/// After a document committed over one that had loaded, nothing seen before it counts, and the
/// page is on the clock.
pub proof fn lemma_commit_starts_over(
    page: PageSpec,
    frame_id: Seq<char>,
    frame: JsonSpec,
    now: u64,
)
    ensures
        after_commit(page, frame_id, frame, now) matches Ok(after) ==> after == page || {
            &&& after.frame_id == page.frame_id
            &&& after.loader_id != page.loader_id
            &&& !after.loaded
            &&& after.first_load_completed
            &&& after.reverify_deadline is Some
            &&& after.verified == Set::<Seq<char>>::empty()
            &&& after.pending == Map::<Seq<char>, HalfSpec>::empty()
        },
{
}

/// Once a page has loaded, that stays known as long as it is intercepted.
pub proof fn lemma_load_stays_completed(
    session: SessionSpec,
    event: JsonSpec,
    now: u64,
    id: Seq<char>,
)
    requires
        session.pages.contains_key(id),
        session.pages[id] matches PageStateSpec::Intercepting(page) && page.first_load_completed,
    ensures
        ({
            let after = event_step(session, event, now).0;
            after.pages.contains_key(id) ==> (after.pages[id] matches PageStateSpec::Intercepting(
                page,
            ) ==> page.first_load_completed)
        }),
{
}

// ---------------------------------------------------------------------------
// What is verified

/// An event verifies a resource of a page only where a request of that page for it was answered
/// with the patched content.
pub proof fn lemma_event_verifies_answered(
    session: SessionSpec,
    event: JsonSpec,
    now: u64,
    id: Seq<char>,
    resource: Seq<char>,
)
    requires
        received_by(event_step(session, event, now).0, id) matches Some(verified)
            && verified.contains(resource),
        !(received_by(session, id) matches Some(verified) && verified.contains(resource)),
    ensures
        session.pages.contains_key(id),
        session.pages[id] matches PageStateSpec::Intercepting(page) && exists|
            request_id: Seq<char>,
        | #[trigger]
            page.pending.contains_key(request_id) && page.pending[request_id] == (HalfSpec {
                half: ScriptDeliveryHalf::Fulfilled,
                resource_path: resource,
            }),
{
    let after = event_step(session, event, now).0;
    let page = session.pages[id]->Intercepting_0;
    let params = event.get("params"@)->0;
    let request_id = params.text_at("requestId"@)->0;
    assert(after.pages.contains_key(id));
    assert(session.pages.contains_key(id));
    assert(session.pages[id] is Intercepting);
    assert(page.pending.contains_key(request_id));
}

/// An answer verifies a resource only where its page, in the navigation that is being verified,
/// asked for it.
pub proof fn lemma_answer_verifies_requested(
    session: SessionSpec,
    fulfillment: FulfillmentSpec,
    id: Seq<char>,
    resource: Seq<char>,
)
    requires
        received_by(after_delivery(session, fulfillment), id) matches Some(verified)
            && verified.contains(resource),
        !(received_by(session, id) matches Some(verified) && verified.contains(resource)),
    ensures
        id == fulfillment.session_id,
        resource == fulfillment.resource_path,
        session.pages.contains_key(id),
        session.pages[id] matches PageStateSpec::Intercepting(page)
            && page.pending.contains_key(fulfillment.network_id)
            && page.pending[fulfillment.network_id] == (HalfSpec {
            half: ScriptDeliveryHalf::Network,
            resource_path: resource,
        }),
{
}

/// A session is ready only when a page has loaded that received every required script.
pub proof fn lemma_ready_is_verified(session: FastSession)
    requires
        session.well_formed(),
        is_ready(session),
    ensures
        exists|id: Seq<char>| #[trigger]
            is_first_loaded(session@, id) && forall|path: Seq<char>|
                session.expected_resources@.contains_key(path)
                    && (#[trigger] session.expected_resources@[path]).required_for_ready
                    ==> received_by(session@, id)->0.contains(path),
{
    let id = choose|id: Seq<char>| #[trigger]
        is_first_loaded(session@, id) && missing_paths(
            session.expected_resources,
            received_by(session@, id),
        ).len() == 0;
    assert forall|path: Seq<char>|
        session.expected_resources@.contains_key(path) && (
        #[trigger] session.expected_resources@[path]).required_for_ready implies received_by(
        session@,
        id,
    )->0.contains(path) by {
        lemma_missing_paths(session.expected_resources, received_by(session@, id), path);
        assert(state_is_loaded(session@.pages[id]));
    }
}

// ---------------------------------------------------------------------------
// Deadlines

/// A page is freed of its deadline, whatever other pages do, exactly when it has received
/// every required script.
pub proof fn lemma_gate_is_lifted(
    expected: TextMap<ExpectedResource>,
    states: Seq<PageStateSpec>,
    i: int,
)
    requires
        expected.well_formed(),
        0 <= i < states.len(),
        states[i] is Intercepting,
    ensures
        ({
            let verified = states[i]->Intercepting_0.verified;
            if forall|path: Seq<char>|
                expected@.contains_key(path) && (#[trigger] expected@[path]).required_for_ready
                    ==> verified.contains(path) {
                state_deadline(settled(expected, states)[i]) is None
            } else {
                settled(expected, states)[i] == states[i]
            }
        }),
{
    let verified = states[i]->Intercepting_0.verified;
    let missing = missing_paths(expected, Some(verified));
    if missing.len() > 0 {
        lemma_missing_paths(expected, Some(verified), missing[0]);
        assert(missing.contains(missing[0]));
    } else {
        assert forall|path: Seq<char>|
            expected@.contains_key(path) && (
            #[trigger] expected@[path]).required_for_ready implies verified.contains(path) by {
            lemma_missing_paths(expected, Some(verified), path);
        }
    }
}

/// After the gates were looked at and nothing was found, every deadline that is left lies
/// ahead.
pub proof fn lemma_deadlines_lie_ahead(
    expected: TextMap<ExpectedResource>,
    states: Seq<PageStateSpec>,
    replacement: Option<u64>,
    now: u64,
    i: int,
)
    requires
        interception_problem(expected, states, replacement, now) is None,
        0 <= i < states.len(),
    ensures
        replacement matches Some(deadline) ==> now < deadline,
        state_deadline(settled(expected, states)[i]) matches Some(deadline) ==> now < deadline,
{
    lemma_no_expired(expected, states, now, 0, i);
}

proof fn lemma_no_expired(
    expected: TextMap<ExpectedResource>,
    states: Seq<PageStateSpec>,
    now: u64,
    from: int,
    i: int,
)
    requires
        0 <= from <= i < states.len(),
        first_expired(expected, states, now, from) >= states.len(),
    ensures
        !is_expired(expected, states[i], now),
    decreases states.len() - from,
{
    if from < i {
        lemma_no_expired(expected, states, now, from + 1, i);
    }
}

/// While another page must take the place of the last one, no page is intercepted.
pub open spec fn replacement_is_due(session: SessionSpec) -> bool {
    session.replacement is Some ==> forall|id: Seq<char>|
        #![trigger session.pages[id]]
        session.pages.contains_key(id) ==> !(session.pages[id] is Intercepting)
}

/// Whatever happens, a page is to be replaced only while none is intercepted.
pub proof fn lemma_replacement_is_due(
    session: SessionSpec,
    event: JsonSpec,
    now: u64,
    fulfillment: FulfillmentSpec,
    session_id: Seq<char>,
    frame_tree: JsonSpec,
)
    requires
        replacement_is_due(session),
    ensures
        replacement_is_due(event_step(session, event, now).0),
        replacement_is_due(after_delivery(session, fulfillment)),
        replacement_is_due(configured_step(session, session_id, frame_tree).0),
{
}

} // verus!
