use codex_fast::asar::{CompatibilityPlan, PlannedResource};
use codex_fast::cdp::{response_result, CdpError, Wire};
use codex_fast::json::{parse_json, Json};
use codex_fast::patch::planner::{PatchSetReport, PatchStatus};
use codex_fast::paths::is_safe_request_path;
use codex_fast::runtime::error::SessionError;
use codex_fast::runtime::outcome::{app_exit_code, reconcile_run, RunError};
use codex_fast::runtime::page::{PageState, PageVerification};
use codex_fast::runtime::plan::{ExpectedResource, RuntimePlan};
use codex_fast::runtime::readiness::{
    missing_required_resources, next_heartbeat, AliveStep, ReadyStep, HEARTBEAT_INTERVAL,
};
use codex_fast::runtime::requests::{
    classify_main_frame, event_detaches_session, fetch_patterns, is_non_app_page_url,
    is_request_stage, is_stale_interception_error, is_transitional_page_url,
    normalize_app_resource, request_url, require_field, required_str, str_field, MainFrame,
};
use codex_fast::runtime::session::{
    later_than, FastSession, INITIAL_RELOAD_TIMEOUT, PAGE_REPLACEMENT_TIMEOUT,
};
use codex_fast::runtime::setup::{SetupReply, SetupTurn};
use codex_fast::runtime::steps::{
    continue_params, fulfill_params, inspector_gone_error, DeliveryStep, EventStep, Fulfillment,
    SetupStep,
};
use codex_fast::text_map::{TextMap, TextSet};
use std::collections::BTreeSet;

const NOW: u64 = 1_000_000;
const SECOND: u64 = 1_000;

fn json(text: &str) -> Json {
    parse_json(text).unwrap()
}

fn page_verification() -> PageVerification {
    PageVerification::new("frame".to_owned(), "new".to_owned())
}

fn paths(pairs: &[(&str, &str)]) -> TextMap<String> {
    let mut map = TextMap::new();
    for (path, resource) in pairs {
        map.insert(path.to_string(), resource.to_string());
    }
    map
}

fn set(members: &[&str]) -> TextSet {
    let mut set = TextSet::new();
    for member in members {
        set.insert(member);
    }
    set
}

#[test]
fn requires_the_active_page_loader_to_finish_loading() {
    let mut page = page_verification();
    page.observe_load("other-frame", Some("new"));
    assert!(!page.is_loaded());

    page.observe_load("frame", Some("other"));
    assert!(!page.is_loaded());

    page.observe_load("frame", Some("new"));
    assert!(page.is_loaded());

    let mut page = page_verification();
    page.observe_load("frame", None);
    assert!(page.is_loaded());
}

#[test]
fn rejects_navigation_away_from_the_active_app_page() {
    let page = page_verification();
    page.observe_document("frame", "new", "app://codex/index.html")
        .unwrap();
    assert!(page
        .observe_document("frame", "other", "app://codex/index.html")
        .is_err());

    let page = page_verification();
    assert!(page
        .observe_document("frame", "new", "https://example.com/")
        .is_err());
}

#[test]
fn waits_for_an_app_document_before_configuring_a_new_page() {
    assert_eq!(
        classify_main_frame(&json(
            r#"{ "id": "frame", "url": "about:blank", "loaderId": "" }"#
        ))
        .unwrap(),
        MainFrame::Transitional {
            frame_id: "frame".to_owned()
        }
    );
    assert_eq!(
        classify_main_frame(&json(r#"{ "id": "frame", "url": "", "loaderId": "" }"#)).unwrap(),
        MainFrame::Transitional {
            frame_id: "frame".to_owned()
        }
    );
    assert_eq!(
        classify_main_frame(&json(
            r#"{ "id": "frame", "url": "app://codex/index.html", "loaderId": "loader" }"#
        ))
        .unwrap(),
        MainFrame::App {
            frame_id: "frame".to_owned(),
            loader_id: "loader".to_owned(),
        }
    );
    assert_eq!(
        classify_main_frame(&json(
            r#"{ "id": "frame", "url": "https://example.com/", "loaderId": "loader" }"#
        ))
        .unwrap(),
        MainFrame::NonApp
    );
}

#[test]
fn ignores_only_stale_interception_ids_before_page_load() {
    for method in ["Fetch.fulfillRequest", "Fetch.continueRequest"] {
        let error = response_result(
            &json(r#"{ "error": { "code": -32602, "message": "Invalid InterceptionId." } }"#),
            method,
        )
        .unwrap_err();

        assert!(is_stale_interception_error(&error, false, false));
        assert!(!is_stale_interception_error(&error, true, false));
    }

    let stale_session = response_result(
        &json(r#"{ "error": { "code": -32001, "message": "Session with given id not found." } }"#),
        "Fetch.fulfillRequest",
    )
    .unwrap_err();
    assert!(is_stale_interception_error(&stale_session, false, true));
    assert!(!is_stale_interception_error(&stale_session, false, false));

    let unrelated = response_result(
        &json(r#"{ "error": { "code": -32602, "message": "Invalid InterceptionId." } }"#),
        "Runtime.evaluate",
    )
    .unwrap_err();
    assert!(!is_stale_interception_error(&unrelated, false, true));
}

#[test]
fn fetch_patterns_target_only_exact_resource_suffixes() {
    let request_paths = paths(&[
        ("assets/settings-abc.js", "assets/settings-abc.js"),
        ("webview/assets/settings-abc.js", "assets/settings-abc.js"),
    ]);
    let fetch_patterns = fetch_patterns(&request_paths);
    assert!(fetch_patterns
        .iter()
        .all(|value| value.text_at("requestStage") == Some("Request")));
    let patterns = fetch_patterns
        .iter()
        .map(|value| value.text_at("urlPattern").unwrap().to_owned())
        .collect::<BTreeSet<_>>();

    assert_eq!(
        patterns,
        BTreeSet::from([
            "app://*/assets/settings-abc.js".to_owned(),
            "app://*/assets/settings-abc.js\\?*".to_owned(),
            "app://*/webview/assets/settings-abc.js".to_owned(),
            "app://*/webview/assets/settings-abc.js\\?*".to_owned(),
        ])
    );
    assert!(patterns.iter().all(|pattern| !pattern.ends_with(".js*")));
}

fn resource(labels: &str, required_for_ready: bool) -> ExpectedResource {
    ExpectedResource {
        labels: labels.to_owned(),
        encoded_body: String::new(),
        required_for_ready,
    }
}

#[test]
fn readiness_requires_core_resources_but_not_lazy_ui_resources() {
    let mut expected = TextMap::new();
    expected.insert("core.js".to_owned(), resource("Core", true));
    expected.insert("settings.js".to_owned(), resource("Settings", false));

    assert_eq!(missing_required_resources(&expected, None), vec!["core.js"]);
    assert!(missing_required_resources(&expected, Some(&set(&["core.js"]))).is_empty());
}

#[test]
fn verifies_only_matching_script_halves_from_the_active_page() {
    let mut network_first = page_verification();
    assert!(!network_first.observe_script_request("request", "frame", "new", "assets/app.js"));
    assert!(network_first.record_fulfilled_script("request", "frame", "assets/app.js"));
    assert!(network_first.verified_resources.contains("assets/app.js"));

    let mut fetch_first = page_verification();
    assert!(!fetch_first.record_fulfilled_script("request", "frame", "assets/app.js"));
    assert!(fetch_first.observe_script_request("request", "frame", "new", "assets/app.js"));
    assert!(fetch_first.verified_resources.contains("assets/app.js"));

    for (network_frame, loader, network_resource, fulfilled_frame, fulfilled_resource) in [
        ("other", "new", "assets/app.js", "frame", "assets/app.js"),
        ("frame", "old", "assets/app.js", "frame", "assets/app.js"),
        ("frame", "new", "assets/app.js", "other", "assets/app.js"),
        ("frame", "new", "assets/app.js", "frame", "assets/other.js"),
    ] {
        let mut mismatch = page_verification();
        mismatch.observe_script_request("request", network_frame, loader, network_resource);
        assert!(!mismatch.record_fulfilled_script(
            "request",
            fulfilled_frame,
            fulfilled_resource
        ));
        assert_eq!(mismatch.verified_resources.len(), 0);
    }
}

fn intercepting_session(page: PageVerification) -> FastSession {
    let mut expected = TextMap::new();
    expected.insert("assets/app.js".to_owned(), resource("Fast", true));
    let mut pages = TextMap::new();
    pages.insert("page".to_owned(), PageState::Intercepting(page));
    FastSession {
        expected_resources: expected,
        request_paths: paths(&[("assets/app.js", "assets/app.js")]),
        pages,
        page_replacement_deadline: None,
    }
}

fn document_event(loader_id: &str, url: &str) -> Json {
    json(&format!(
        r#"{{
            "sessionId": "page",
            "params": {{
                "type": "Document",
                "frameId": "frame",
                "loaderId": "{loader_id}",
                "request": {{ "url": "{url}" }}
            }}
        }}"#
    ))
}

/// A commit that never hit the network: the only signal is `Page.frameNavigated`.
fn navigation_under(method: &str, loader_id: &str, url: &str) -> Json {
    json(&format!(
        r#"{{
            "method": "{method}",
            "sessionId": "page",
            "params": {{
                "frame": {{ "id": "frame", "loaderId": "{loader_id}", "url": "{url}" }}
            }}
        }}"#
    ))
}

fn frame_navigated_event(loader_id: &str, url: &str) -> Json {
    navigation_under("Page.frameNavigated", loader_id, url)
}

fn intercepting_page(session: &FastSession) -> &PageVerification {
    match session.pages.get("page") {
        Some(PageState::Intercepting(page)) => page,
        _ => panic!("expected an intercepting page"),
    }
}

fn completed_load_page() -> PageVerification {
    let mut page = page_verification();
    page.observe_load("frame", Some("new"));
    page
}

fn dispatch_frame_navigated(session: &mut FastSession, event: &Json) -> Result<(), String> {
    match session.dispatch_local_event(event, NOW) {
        Ok(true) => Ok(()),
        Ok(false) => Err("frameNavigated event was not dispatched".to_owned()),
        Err(error) => Err(error.message),
    }
}

#[test]
fn does_not_dispatch_a_frame_payload_under_another_method() {
    let mut session = intercepting_session(completed_load_page());
    let event = navigation_under(
        "Page.frameStartedLoading",
        "newer",
        "app://codex/index.html",
    );

    let error = dispatch_frame_navigated(&mut session, &event).unwrap_err();

    assert_eq!(error, "frameNavigated event was not dispatched");
    assert_eq!(intercepting_page(&session).loader_id, "new");
}

#[test]
fn leaves_the_loaded_page_alone_until_the_navigation_commits() {
    let mut page = completed_load_page();
    page.observe_script_request("request", "frame", "new", "assets/app.js");
    page.record_fulfilled_script("request", "frame", "assets/app.js");
    let mut session = intercepting_session(page);

    session
        .handle_network_request(&document_event("newer", "app://codex/index.html"))
        .unwrap();

    let page = intercepting_page(&session);
    assert_eq!(page.loader_id, "new");
    assert!(page.loaded);
    assert!(page.verified_resources.contains("assets/app.js"));
    assert!(page.reverify_deadline.is_none());
}

#[test]
fn rebinds_once_a_navigation_after_the_first_load_completes() {
    let mut page = completed_load_page();
    page.observe_script_request("stale", "frame", "new", "assets/app.js");
    page.record_fulfilled_script("stale", "frame", "assets/app.js");
    assert_eq!(page.verified_resources.len(), 1);
    let mut session = intercepting_session(page);

    dispatch_frame_navigated(
        &mut session,
        &frame_navigated_event("newer", "app://codex/index.html"),
    )
    .unwrap();

    let page = intercepting_page(&session);
    assert_eq!(page.loader_id, "newer");
    assert!(!page.loaded);
    assert_eq!(page.verified_resources.len(), 0);
    assert_eq!(page.pending_script_deliveries.len(), 0);
    assert!(page.reverify_deadline.is_some());

    // Committing again before the rebound load completes is not a breach either.
    dispatch_frame_navigated(
        &mut session,
        &frame_navigated_event("newest", "app://codex/index.html"),
    )
    .unwrap();
    assert_eq!(intercepting_page(&session).loader_id, "newest");
}

#[test]
fn rejects_a_commit_that_interrupts_the_controlled_reload() {
    // The network path refuses this as a breach; the commit path must agree rather
    // than let it through to be noticed only when the startup deadline expires.
    let mut session = intercepting_session(page_verification());

    let error = dispatch_frame_navigated(
        &mut session,
        &frame_navigated_event("newer", "app://codex/index.html"),
    )
    .unwrap_err();

    assert!(error.contains("main frame navigated again during Fast verification"));
}

#[test]
fn rejects_an_about_blank_commit_during_the_controlled_reload() {
    let mut session = intercepting_session(page_verification());

    let error =
        dispatch_frame_navigated(&mut session, &frame_navigated_event("newer", "about:blank"))
            .unwrap_err();

    assert!(error.contains("non-app document"));
}

#[test]
fn regates_a_committed_about_blank_document() {
    let mut page = completed_load_page();
    page.observe_script_request("stale", "frame", "new", "assets/app.js");
    page.record_fulfilled_script("stale", "frame", "assets/app.js");
    page.observe_script_request("pending", "frame", "new", "assets/app.js");
    let mut session = intercepting_session(page);

    dispatch_frame_navigated(&mut session, &frame_navigated_event("newer", "about:blank"))
        .unwrap();

    let page = intercepting_page(&session);
    assert_eq!(page.loader_id, "newer");
    assert!(!page.loaded);
    assert!(page.first_load_completed);
    assert_eq!(page.verified_resources.len(), 0);
    assert_eq!(page.pending_script_deliveries.len(), 0);
    assert!(page.reverify_deadline.is_some());
}

#[test]
fn refuses_to_verify_from_a_half_that_outlived_its_navigation() {
    // The fulfilled half for a superseded navigation arrives after the rebind cleared
    // the table, so it re-inserts itself. On its own it proves nothing about the
    // navigation now in progress: that one must still make the request itself.
    let mut page = completed_load_page();
    page.observe_script_request("shared", "frame", "new", "assets/app.js");
    page.rebind_to_navigation("newer".to_owned(), NOW + INITIAL_RELOAD_TIMEOUT);

    assert!(!page.record_fulfilled_script("shared", "frame", "assets/app.js"));
    assert_eq!(page.verified_resources.len(), 0);

    // Nothing else happens. The stranded half must never mature into a verification.
    page.record_fulfilled_script("other", "frame", "assets/app.js");
    assert_eq!(page.verified_resources.len(), 0);
}

#[test]
fn verifies_a_resource_the_rebound_navigation_actually_requested() {
    let mut page = completed_load_page();
    page.rebind_to_navigation("newer".to_owned(), NOW + INITIAL_RELOAD_TIMEOUT);

    assert!(!page.observe_script_request("request", "frame", "newer", "assets/app.js"));
    assert!(page.record_fulfilled_script("request", "frame", "assets/app.js"));
    assert!(page.verified_resources.contains("assets/app.js"));
}

#[test]
fn rejects_a_request_that_interrupts_the_controlled_reload() {
    let mut session = intercepting_session(page_verification());

    // The first load never completed, so a new loader is a breach, not a rebind.
    let error = session
        .handle_network_request(&document_event("newer", "app://codex/index.html"))
        .unwrap_err();

    assert!(error
        .message
        .contains("main frame navigated again during Fast verification"));
}

#[test]
fn rejects_a_non_app_commit_after_the_first_load_completes() {
    let mut session = intercepting_session(completed_load_page());

    let error = dispatch_frame_navigated(
        &mut session,
        &frame_navigated_event("newer", "https://example.com/"),
    )
    .unwrap_err();

    assert!(error.contains("non-app document"));
}

#[test]
fn clears_the_reverification_gate_once_required_resources_arrive() {
    let mut page = completed_load_page();
    page.rebind_to_navigation("newer".to_owned(), NOW + INITIAL_RELOAD_TIMEOUT);
    page.observe_script_request("request", "frame", "newer", "assets/app.js");
    page.record_fulfilled_script("request", "frame", "assets/app.js");
    let mut session = intercepting_session(page);

    assert!(session.settle_reverification_gates(NOW).is_none());

    assert!(intercepting_page(&session).reverify_deadline.is_none());
}

#[test]
fn keeps_the_reverification_gate_while_a_resource_is_missing() {
    let mut page = completed_load_page();
    page.rebind_to_navigation("newer".to_owned(), NOW + INITIAL_RELOAD_TIMEOUT);
    let mut session = intercepting_session(page);

    assert!(session.settle_reverification_gates(NOW).is_none());

    assert!(intercepting_page(&session).reverify_deadline.is_some());
}

#[test]
fn reports_the_resources_a_rebound_page_never_received() {
    // The deadline has passed and the page still has not been proven to be running
    // patched scripts. This is what turns into an abort in the event loop.
    let mut page = completed_load_page();
    page.rebind_to_navigation("newer".to_owned(), NOW - SECOND);
    let mut session = intercepting_session(page);

    assert_eq!(
        session.settle_reverification_gates(NOW),
        Some("assets/app.js".to_owned())
    );
}

#[test]
fn does_not_report_a_page_that_delivered_before_its_gate_expired() {
    let mut page = completed_load_page();
    page.rebind_to_navigation("newer".to_owned(), NOW - SECOND);
    page.observe_script_request("request", "frame", "newer", "assets/app.js");
    page.record_fulfilled_script("request", "frame", "assets/app.js");
    let mut session = intercepting_session(page);

    assert!(session.settle_reverification_gates(NOW).is_none());
    assert!(intercepting_page(&session).reverify_deadline.is_none());
}

#[test]
fn lifts_every_delivered_gate_behind_an_expired_one() {
    let mut late = completed_load_page();
    late.rebind_to_navigation("newer".to_owned(), NOW - SECOND);
    let mut session = intercepting_session(late);
    let mut delivered = completed_load_page();
    delivered.rebind_to_navigation("newer".to_owned(), NOW - SECOND);
    delivered.observe_script_request("request", "frame", "newer", "assets/app.js");
    delivered.record_fulfilled_script("request", "frame", "assets/app.js");
    session
        .pages
        .insert("second".to_owned(), PageState::Intercepting(delivered));

    assert_eq!(
        session.settle_reverification_gates(NOW),
        Some("assets/app.js".to_owned())
    );
    assert!(intercepting_page(&session).reverify_deadline.is_some());
    match session.pages.get("second") {
        Some(PageState::Intercepting(page)) => assert!(page.reverify_deadline.is_none()),
        _ => panic!("the page is gone"),
    }
}

#[test]
fn waits_no_longer_than_the_soonest_deadline() {
    // The event pump must wake for a reverification deadline, or it is only noticed
    // whenever the next event happens to arrive.
    let far = NOW + 600 * SECOND;
    let gate = NOW + 5 * SECOND;

    let mut page = completed_load_page();
    page.rebind_to_navigation("newer".to_owned(), gate);
    let session = intercepting_session(page);

    assert_eq!(session.effective_deadline(far), gate);

    let mut session = session;
    session.page_replacement_deadline = Some(NOW + SECOND);
    assert_eq!(
        session.effective_deadline(far),
        session.page_replacement_deadline.unwrap()
    );
}

#[test]
fn pairs_a_delivery_seen_twice_from_the_same_side() {
    let mut repeated_network = page_verification();
    repeated_network.observe_script_request("request", "frame", "new", "assets/app.js");
    repeated_network.observe_script_request("request", "frame", "new", "assets/app.js");
    assert!(repeated_network.record_fulfilled_script("request", "frame", "assets/app.js"));

    let mut repeated_fulfilled = page_verification();
    repeated_fulfilled.record_fulfilled_script("request", "frame", "assets/app.js");
    repeated_fulfilled.record_fulfilled_script("request", "frame", "assets/app.js");
    assert!(repeated_fulfilled.observe_script_request(
        "request",
        "frame",
        "new",
        "assets/app.js"
    ));
}

#[test]
fn reuses_a_request_id_without_crediting_the_resource_it_abandoned() {
    let mut page = page_verification();
    page.observe_script_request("request", "frame", "new", "assets/app.js");
    page.record_fulfilled_script("request", "frame", "assets/other.js");
    assert!(page.observe_script_request("request", "frame", "new", "assets/other.js"));

    assert_eq!(page.verified_resources.members(), vec!["assets/other.js"]);
}

#[test]
fn normalizes_planned_aliases_without_hard_coding_the_renderer_root() {
    let request_paths = paths(&[
        ("assets/chunk.js", "assets/chunk.js"),
        ("future-root/assets/chunk.js", "assets/chunk.js"),
    ]);

    let direct =
        normalize_app_resource("app://codex/assets/chunk.js?cache=1", &request_paths).unwrap();
    let rooted =
        normalize_app_resource("app://codex/future-root/assets/chunk.js", &request_paths).unwrap();
    let prefixed = normalize_app_resource(
        "app://codex/unknown-root/future-root/assets/chunk.js",
        &request_paths,
    )
    .unwrap();

    assert_eq!(direct, "assets/chunk.js");
    assert_eq!(rooted, "assets/chunk.js");
    assert_eq!(prefixed, "assets/chunk.js");
    assert!(normalize_app_resource("app://codex/assets/other.js", &request_paths).is_none());
}

#[test]
fn prefers_the_longest_matching_resource_alias() {
    let request_paths = paths(&[
        ("assets/shared.js", "resource-a"),
        ("shared.js", "resource-b"),
    ]);

    assert_eq!(
        normalize_app_resource("app://codex/assets/shared.js", &request_paths).unwrap(),
        "resource-a"
    );
    assert_eq!(
        normalize_app_resource("app://codex/other/shared.js", &request_paths).unwrap(),
        "resource-b"
    );
}

#[test]
fn accepts_only_request_paths_with_stable_url_serialization() {
    assert!(is_safe_request_path(".vite/build/@scope/chunk_A-1.js"));
    assert!(!is_safe_request_path("assets/chunk name.js"));
    assert!(!is_safe_request_path("assets/chunk?.js"));
    assert!(!is_safe_request_path("assets/chunk*.js"));
    assert!(!is_safe_request_path("/assets/chunk.js"));
    assert!(!is_safe_request_path("assets//chunk.js"));
    assert!(!is_safe_request_path("assets/../chunk.js"));
}

// ---------------------------------------------------------------------------
// Addresses and fields

#[test]
fn tells_pages_of_the_application_from_others() {
    assert!(is_transitional_page_url(""));
    assert!(is_transitional_page_url("about:blank"));
    assert!(!is_transitional_page_url("app://codex/"));
    assert!(is_non_app_page_url("https://example.com/"));
    assert!(!is_non_app_page_url("about:blank"));
    assert!(!is_non_app_page_url("app://codex/"));
}

#[test]
fn strips_queries_fragments_and_slashes_from_addresses() {
    let map = paths(&[("a.js", "a")]);
    for url in ["app://h/a.js#x", "app://h//a.js/", "app://h/a.js?b=/c", "app:///a.js"] {
        assert_eq!(normalize_app_resource(url, &map), Some("a".to_owned()), "{url}");
    }
    for url in ["app://a.js", "http://h/a.js", "app://h/ba.js"] {
        assert_eq!(normalize_app_resource(url, &map), None, "{url}");
    }
}

#[test]
fn missing_fields_are_named() {
    let event = json(r#"{"params":{"request":{},"n":1}}"#);
    let params = require_field(&event, "M", "params").unwrap();
    assert_eq!(require_field(&event, "M", "x").unwrap_err().message, "M missing x");
    assert_eq!(required_str(params, "M", "n").unwrap_err().message, "M missing n");
    assert_eq!(str_field(params, "n"), "");
    assert_eq!(
        request_url(params, "M").unwrap_err().message,
        "M missing request.url"
    );
    assert!(is_request_stage(params));
    assert!(!is_request_stage(&json(r#"{"responseStatusCode":200}"#)));
    assert!(!is_request_stage(&json(r#"{"responseErrorReason":"Failed"}"#)));
}

#[test]
fn main_frames_need_an_id_an_address_and_a_loader() {
    for (frame, message) in [
        (r#"{"url":""}"#, "page main frame missing id"),
        (r#"{"id":"f"}"#, "page main frame missing url"),
        (
            r#"{"id":"f","url":"app://codex/","loaderId":""}"#,
            "app main frame missing loader id",
        ),
    ] {
        assert_eq!(classify_main_frame(&json(frame)).unwrap_err().message, message);
    }
}

#[test]
fn knows_which_session_an_event_takes_away() {
    let target = json(r#"{"method":"Target.detachedFromTarget","params":{"sessionId":"s"}}"#);
    assert_eq!(event_detaches_session(&target), Some("s"));
    let inspector = json(r#"{"method":"Inspector.detached","sessionId":"s"}"#);
    assert_eq!(event_detaches_session(&inspector), Some("s"));
    let other = json(r#"{"method":"Page.loaded","sessionId":"s"}"#);
    assert_eq!(event_detaches_session(&other), None);
}

// ---------------------------------------------------------------------------
// Plans

fn planned(path: &str, content: &str, request_paths: &[&str]) -> PlannedResource {
    PlannedResource {
        archive_path: path.to_owned(),
        request_paths: set(request_paths),
        labels: set(&["B", "A"]),
        patched_content: content.to_owned(),
        required_for_ready: true,
    }
}

fn compatibility_plan(resources: Vec<PlannedResource>) -> CompatibilityPlan {
    CompatibilityPlan {
        verification_snapshots: Vec::new(),
        patch_set: PatchSetReport {
            id: "set",
            label: "Set",
            status: PatchStatus::Complete,
            features: Vec::new(),
            messages: Vec::new(),
        },
        resources,
    }
}

#[test]
fn serves_planned_resources_in_base64() {
    let plan = compatibility_plan(vec![planned("assets/a.js", "hello?", &["a.js", "x/a.js"])]);
    let runtime = RuntimePlan::from_plan(&plan);
    let expected = runtime.expected_resources.get("assets/a.js").unwrap();
    assert_eq!(expected.encoded_body, "aGVsbG8/");
    assert_eq!(expected.labels, "A|B");
    assert!(expected.required_for_ready);
    for path in ["a.js", "x/a.js"] {
        assert_eq!(runtime.request_paths.get(path).unwrap(), "assets/a.js");
    }
    let session = FastSession::new(runtime);
    assert_eq!(session.pages.len(), 0);
    assert!(session.page_replacement_deadline.is_none());
}

// ---------------------------------------------------------------------------
// Events

fn attach(kind: &str, url: &str, waiting: bool) -> Json {
    json(&format!(
        r#"{{
            "method": "Target.attachedToTarget",
            "params": {{
                "sessionId": "s",
                "targetInfo": {{ "type": "{kind}", "url": "{url}" }},
                "waitingForDebugger": {waiting}
            }}
        }}"#
    ))
}

fn empty_session() -> FastSession {
    let plan = compatibility_plan(vec![planned("app.js", "x", &["app.js"])]);
    FastSession::new(RuntimePlan::from_plan(&plan))
}

#[test]
fn sets_up_pages_of_the_application_before_they_run() {
    let mut session = empty_session();
    assert_eq!(
        session.handle_message(&attach("worker", "app://codex/", true), NOW),
        EventStep::Resume("s".to_owned())
    );
    assert_eq!(
        session.handle_message(&attach("page", "https://example.com/", false), NOW),
        EventStep::Done
    );
    assert_eq!(
        session.handle_message(&attach("page", "app://codex/", true), NOW),
        EventStep::Configure("s".to_owned())
    );
    assert!(matches!(session.pages.get("s"), Some(PageState::Configuring)));
    assert_eq!(
        session.handle_message(&attach("page", "app://codex/", true), NOW),
        EventStep::Abort(SessionError::new("duplicate page session s"))
    );
    assert_eq!(
        empty_session().handle_message(&attach("page", "app://codex/", false), NOW),
        EventStep::Abort(SessionError::new(
            "app page target executed before Fast interception was armed: app://codex/"
        ))
    );
    assert_eq!(
        session.handle_message(&json(r#"{"method":"Target.attachedToTarget"}"#), NOW),
        EventStep::Fail(SessionError::new("Target.attachedToTarget missing params"))
    );
}

#[test]
fn intercepts_before_a_page_is_told_to_run() {
    let steps = empty_session().setup_steps();
    let run = steps
        .iter()
        .position(|step| {
            matches!(
                step,
                SetupStep::Send {
                    method: "Runtime.runIfWaitingForDebugger",
                    ..
                }
            )
        })
        .unwrap();
    match &steps[0] {
        SetupStep::Send {
            method: "Fetch.enable",
            params: Some(params),
        } => assert_eq!(
            params.render(),
            r#"{"patterns":[{"requestStage":"Request","urlPattern":"app://*/app.js"},{"requestStage":"Request","urlPattern":"app://*/app.js\\?*"}]}"#
        ),
        other => panic!("unexpected {other:?}"),
    }
    assert_eq!(run, 5);
    assert_eq!(steps.len(), 11);
    assert!(steps[1..run]
        .iter()
        .all(|step| matches!(step, SetupStep::Start { .. })));
}

fn method_of(turn: &SetupTurn) -> &'static str {
    match turn {
        SetupTurn::Send { session_id, method, .. } | SetupTurn::Start { session_id, method, .. } => {
            assert_eq!(session_id, "s");
            *method
        }
        SetupTurn::Await { method, .. } => *method,
        other => panic!("unexpected {other:?}"),
    }
}

#[test]
fn takes_the_setup_of_a_page_turn_by_turn() {
    let mut session = empty_session();
    session.handle_message(&attach("page", "", true), NOW);
    let mut progress = session.begin_setup("s");
    let tree = json(r#"{"frameTree":{"frame":{"id":"frame","url":"about:blank"}}}"#);
    let mut methods = Vec::new();
    let mut id = 10;
    let mut reply = None;
    let step = loop {
        let turn = session.setup_turn(&mut progress, reply);
        if let SetupTurn::Finish(step) = turn {
            break step;
        }
        methods.push(method_of(&turn));
        reply = Some(match turn {
            SetupTurn::Start { .. } => {
                id += 1;
                SetupReply::Started(id)
            }
            SetupTurn::Await { method, id } => {
                let expected = match method {
                    "Page.enable" => 11,
                    "Network.enable" => 12,
                    "Network.setCacheDisabled" => 13,
                    _ => 14,
                };
                assert_eq!(id, expected);
                SetupReply::Answered(Ok(Json::Null))
            }
            _ => SetupReply::Answered(Ok(tree.copy())),
        });
    };
    assert_eq!(step, EventStep::Done);
    assert_eq!(
        methods,
        [
            "Fetch.enable",
            "Page.enable",
            "Network.enable",
            "Network.setCacheDisabled",
            "Page.setLifecycleEventsEnabled",
            "Runtime.runIfWaitingForDebugger",
            "Page.enable",
            "Network.enable",
            "Network.setCacheDisabled",
            "Page.setLifecycleEventsEnabled",
            "Page.getFrameTree",
        ]
    );
    assert!(matches!(session.pages.get("s"), Some(PageState::Pending { frame_id }) if frame_id == "frame"));
    // Nothing is left to do.
    let turn = session.setup_turn(&mut progress, Some(SetupReply::Answered(Ok(tree))));
    assert_eq!(turn, SetupTurn::Finish(EventStep::Done));
}

#[test]
fn a_page_never_runs_when_its_interception_is_refused() {
    let mut session = empty_session();
    session.handle_message(&attach("page", "", true), NOW);
    let mut progress = session.begin_setup("s");
    let refused = || CdpError::Command {
        method: "Fetch.enable".to_owned(),
        details: json("{}"),
    };
    // An answer to nothing is no answer.
    let first = session.setup_turn(&mut progress, Some(SetupReply::Answered(Ok(Json::Null))));
    assert_eq!(method_of(&first), "Fetch.enable");
    // Neither is the id of a command that was not to be started.
    let again = session.setup_turn(&mut progress, Some(SetupReply::Started(7)));
    assert_eq!(first, again);
    let turn = session.setup_turn(&mut progress, Some(SetupReply::Answered(Err(refused()))));
    assert_eq!(turn, SetupTurn::Fail(refused()));
    for reply in [None, Some(SetupReply::Answered(Ok(Json::Null))), Some(SetupReply::Started(3))] {
        assert_eq!(
            session.setup_turn(&mut progress, reply),
            SetupTurn::Fail(refused())
        );
    }
    assert!(matches!(session.pages.get("s"), Some(PageState::Configuring)));
}

#[test]
fn a_configured_page_waits_for_its_document() {
    let mut session = empty_session();
    session.handle_message(&attach("page", "", true), NOW);
    let blank = json(r#"{"frameTree":{"frame":{"id":"frame","url":"about:blank"}}}"#);
    assert_eq!(session.finish_configuration("s", &blank), EventStep::Done);
    assert!(matches!(session.pages.get("s"), Some(PageState::Pending { frame_id }) if frame_id == "frame"));

    let commit = json(
        r#"{"method":"Page.frameNavigated","sessionId":"s","params":{"frame":{"id":"frame","url":"app://codex/","loaderId":"l"}}}"#,
    );
    assert_eq!(session.handle_message(&commit, NOW), EventStep::Done);
    assert!(matches!(session.pages.get("s"), Some(PageState::Intercepting(page)) if page.loader_id == "l"));
}

#[test]
fn a_configured_page_may_already_show_its_document() {
    let tree = |frame: &str| json(&format!(r#"{{"frameTree":{{"frame":{frame}}}}}"#));
    let mut session = empty_session();
    session.handle_message(&attach("page", "", true), NOW);
    let app = tree(r#"{"id":"frame","url":"app://codex/","loaderId":"l"}"#);
    assert_eq!(session.finish_configuration("s", &app), EventStep::Done);
    assert!(matches!(session.pages.get("s"), Some(PageState::Intercepting(_))));

    assert_eq!(
        session.finish_configuration("s", &json("{}")),
        EventStep::Fail(SessionError::new("Page.getFrameTree missing main frame"))
    );
    assert_eq!(
        session.finish_configuration("s", &tree(r#"{"url":""}"#)),
        EventStep::Abort(SessionError::new(
            "validate page main frame: page main frame missing id"
        ))
    );
    assert_eq!(
        session.finish_configuration("gone", &app),
        EventStep::Abort(SessionError::new(
            "page session gone detached during Fast configuration"
        ))
    );
    let web = tree(r#"{"id":"frame","url":"https://example.com/"}"#);
    assert_eq!(session.finish_configuration("s", &web), EventStep::Done);
    assert!(session.pages.get("s").is_none());
}

fn paused(session_id: &str, url: &str, extra: &str) -> Json {
    json(&format!(
        r#"{{
            "method": "Fetch.requestPaused",
            "sessionId": "{session_id}",
            "params": {{
                "requestId": "r",
                "request": {{ "url": "{url}" }},
                "resourceType": "Script",
                "networkId": "n",
                "frameId": "frame"{extra}
            }}
        }}"#
    ))
}

#[test]
fn answers_planned_requests_of_its_pages_only() {
    let mut session = intercepting_session(page_verification());
    let step = session.handle_message(&paused("page", "app://codex/assets/app.js", ""), NOW);
    let fulfillment = match step {
        EventStep::Fulfill(fulfillment) => fulfillment,
        other => panic!("unexpected {other:?}"),
    };
    assert_eq!(fulfillment.resource_path, "assets/app.js");
    assert!(fulfillment.script_request);
    assert!(!fulfillment.page_loaded);

    let go_on = |session_id: &str| EventStep::Continue {
        request_id: "r".to_owned(),
        session_id: Some(session_id.to_owned()),
    };
    assert_eq!(
        session.handle_message(&paused("page", "app://codex/assets/other.js", ""), NOW),
        go_on("page")
    );
    assert_eq!(
        session.handle_message(&paused("other", "app://codex/assets/app.js", ""), NOW),
        go_on("other")
    );
    assert_eq!(
        session.handle_message(
            &paused(
                "page",
                "app://codex/assets/app.js",
                r#", "responseStatusCode": 200"#
            ),
            NOW
        ),
        EventStep::Abort(SessionError::new(
            "planned Fast resource was intercepted outside Request stage: app://codex/assets/app.js"
        ))
    );
}

#[test]
fn an_answer_and_its_request_verify_a_script() {
    let mut session = intercepting_session(page_verification());
    let fulfillment = Fulfillment {
        request_id: "r".to_owned(),
        session_id: "page".to_owned(),
        resource_path: "assets/app.js".to_owned(),
        labels: "Fast".to_owned(),
        encoded_body: "eA==".to_owned(),
        page_loaded: false,
        script_request: true,
        network_id: "n".to_owned(),
        frame_id: "frame".to_owned(),
    };
    assert_eq!(
        session.delivered(&fulfillment),
        "PATCHED_RESOURCE=assets/app.js LABELS=Fast"
    );
    assert_eq!(intercepting_page(&session).verified_resources.len(), 0);
    let request = json(
        r#"{"method":"Network.requestWillBeSent","sessionId":"page","params":{"type":"Script","frameId":"frame","loaderId":"new","requestId":"n","request":{"url":"app://codex/assets/app.js"}}}"#,
    );
    assert_eq!(session.handle_message(&request, NOW), EventStep::Done);
    assert!(intercepting_page(&session)
        .verified_resources
        .contains("assets/app.js"));
    assert_eq!(
        fulfill_params("r", "eA==").render(),
        r#"{"body":"eA==","requestId":"r","responseCode":200,"responseHeaders":[{"name":"content-type","value":"application/javascript; charset=utf-8"}]}"#
    );
    assert_eq!(continue_params("r").render(), r#"{"requestId":"r"}"#);
}

#[test]
fn an_answer_to_a_page_that_is_gone_is_stale() {
    let session = intercepting_session(page_verification());
    let fulfillment = Fulfillment {
        request_id: "r".to_owned(),
        session_id: "page".to_owned(),
        resource_path: "assets/app.js".to_owned(),
        labels: String::new(),
        encoded_body: String::new(),
        page_loaded: true,
        script_request: false,
        network_id: String::new(),
        frame_id: String::new(),
    };
    let error = CdpError::Command {
        method: "Fetch.fulfillRequest".to_owned(),
        details: json(r#"{"code":-32001,"message":"Session with given id not found."}"#),
    };
    let mut wire = Wire::new();
    assert!(!session.is_stale_delivery(&fulfillment, &error, &wire));
    wire.begin_event();
    let event = r#"{"method":"Inspector.detached","sessionId":"page"}"#;
    wire.receive_message(event, 2, "Test").unwrap();
    assert!(session.is_stale_delivery(&fulfillment, &error, &wire));
    assert!(session.session_detached_or_pending(&Wire::new(), "other"));

    let mut session = session;
    assert_eq!(
        session.delivery_step(&fulfillment, Err(error.copy()), &wire),
        DeliveryStep::Stale
    );
    assert_eq!(
        session.delivery_step(&fulfillment, Err(error.copy()), &Wire::new()),
        DeliveryStep::Fail(error)
    );
    assert_eq!(
        session.delivery_step(&fulfillment, Ok(Json::Null), &wire),
        DeliveryStep::Delivered("PATCHED_RESOURCE=assets/app.js LABELS=".to_owned())
    );
}

#[test]
fn a_lost_page_must_be_replaced_in_time() {
    let mut session = intercepting_session(page_verification());
    let event = json(r#"{"method":"Target.detachedFromTarget","params":{"sessionId":"page"}}"#);
    assert_eq!(session.handle_message(&event, NOW), EventStep::Done);
    let deadline = NOW + PAGE_REPLACEMENT_TIMEOUT;
    assert_eq!(session.page_replacement_deadline, Some(deadline));
    assert!(session.ensure_page_interception(deadline - 1).is_ok());
    assert_eq!(
        session.ensure_page_interception(deadline).unwrap_err().message,
        "active page target was not replaced; Fast interception is no longer active"
    );

    session.handle_message(&attach("page", "", true), NOW);
    let tree = json(r#"{"frameTree":{"frame":{"id":"f","url":"app://codex/","loaderId":"l"}}}"#);
    session.finish_configuration("s", &tree);
    assert!(session.page_replacement_deadline.is_none());
}

#[test]
fn the_end_of_the_inspector_awaits_the_exit() {
    let mut session = intercepting_session(page_verification());
    let event = json(r#"{"method":"Inspector.detached"}"#);
    assert_eq!(session.handle_message(&event, NOW), EventStep::AwaitExit);
    assert_eq!(
        inspector_gone_error().message,
        "CDP inspector detached while runtime patching was still required"
    );
    assert_eq!(session.handle_message(&json("{}"), NOW), EventStep::Done);
    assert_eq!(
        session.handle_message(&json(r#"{"method":"Other.event"}"#), NOW),
        EventStep::Done
    );
}

#[test]
fn a_breach_stops_the_application() {
    let mut session = intercepting_session(page_verification());
    let commit = frame_navigated_event("newer", "app://codex/index.html");
    assert_eq!(
        session.handle_message(&commit, NOW),
        EventStep::Abort(SessionError::new(
            "main frame navigated again during Fast verification"
        ))
    );
    let mut event = document_event("", "app://codex/index.html");
    if let Json::Object(members) = &mut event {
        members.push((
            "method".to_owned(),
            Json::Text("Network.requestWillBeSent".to_owned()),
        ));
    }
    assert_eq!(
        session.handle_message(&event, NOW),
        EventStep::Fail(SessionError::new("main document request missing loaderId"))
    );
}

#[test]
fn a_load_event_completes_the_load() {
    let mut session = intercepting_session(page_verification());
    let event = |name: &str| {
        json(&format!(
            r#"{{"method":"Page.lifecycleEvent","sessionId":"page","params":{{"name":"{name}","frameId":"frame","loaderId":"new"}}}}"#
        ))
    };
    session.handle_message(&event("init"), NOW);
    assert!(!intercepting_page(&session).loaded);
    session.handle_message(&event("load"), NOW);
    assert!(intercepting_page(&session).loaded);
    assert!(intercepting_page(&session).first_load_completed);
}

// ---------------------------------------------------------------------------
// Readiness

#[test]
fn is_ready_once_the_loaded_page_received_everything() {
    let deadline = NOW + INITIAL_RELOAD_TIMEOUT;
    let waiting = intercepting_session(page_verification());
    assert_eq!(waiting.loaded_page_session(), None);
    assert_eq!(waiting.ready_step(NOW, deadline), ReadyStep::Wait(deadline));
    assert_eq!(
        waiting.ready_step(deadline, deadline),
        ReadyStep::Abort(SessionError::new(
            "controlled Fast reload timed out before the main frame finished loading"
        ))
    );

    let loaded = intercepting_session(completed_load_page());
    assert_eq!(loaded.loaded_page_session(), Some("page"));
    assert_eq!(loaded.missing_resources("page"), vec!["assets/app.js"]);
    assert_eq!(loaded.ready_step(NOW, deadline), ReadyStep::Wait(deadline));
    assert_eq!(
        loaded.ready_step(deadline, deadline),
        ReadyStep::Abort(SessionError::new(
            "Fast scripts were not delivered during controlled reload: assets/app.js"
        ))
    );

    let mut page = completed_load_page();
    page.observe_script_request("request", "frame", "new", "assets/app.js");
    page.record_fulfilled_script("request", "frame", "assets/app.js");
    let ready = intercepting_session(page);
    assert_eq!(ready.ready_step(deadline, deadline), ReadyStep::Ready);
}

#[test]
fn stays_alive_until_the_next_heartbeat() {
    let heartbeat = next_heartbeat(NOW);
    assert_eq!(heartbeat, NOW + HEARTBEAT_INTERVAL);
    let mut session = intercepting_session(completed_load_page());
    assert_eq!(
        session.alive_step(None, NOW, heartbeat),
        AliveStep::Wait(heartbeat)
    );
    assert_eq!(
        session.alive_step(Some(3), NOW, heartbeat),
        AliveStep::Exited(3)
    );

    let mut page = completed_load_page();
    page.rebind_to_navigation("newer".to_owned(), NOW);
    let mut session = intercepting_session(page);
    assert_eq!(
        session.alive_step(None, NOW, heartbeat),
        AliveStep::Abort(SessionError::new(
            "page navigated after its completed load and did not receive the Fast scripts again: assets/app.js"
        ))
    );
}

#[test]
fn times_do_not_wrap() {
    assert_eq!(later_than(1, 2), 3);
    assert_eq!(later_than(u64::MAX, 2), u64::MAX);
}

#[test]
fn a_clean_exit_is_no_error() {
    let exited: Result<(), RunError<String>> = Err(RunError::AppExited(0));
    assert_eq!(app_exit_code(&exited), Some(0));
    assert_eq!(reconcile_run(exited), Ok(()));
    let crashed: Result<(), RunError<String>> = Err(RunError::AppExited(1));
    assert_eq!(reconcile_run(crashed), Err(RunError::AppExited(1)));
    let failed: Result<(), RunError<String>> = Err(RunError::Other("x".to_owned()));
    assert_eq!(app_exit_code(&failed), None);
    assert_eq!(reconcile_run(failed), Err(RunError::Other("x".to_owned())));
}
