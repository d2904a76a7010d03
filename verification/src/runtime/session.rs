//! The pages of a session, and how events change them.

use vstd::prelude::*;

use crate::cdp::{Wire, COMMAND_TIMEOUT};
use crate::json::{Json, JsonSpec};
use crate::runtime::error::SessionError;
use crate::runtime::page::{
    after_load, after_request, document_problem, is_empty, new_page, rebound, supersedes, PageSpec,
    PageState, PageStateSpec, PageVerification,
};
use crate::runtime::plan::{expected_view, ExpectedResource, ExpectedSpec, RuntimePlan};
use crate::runtime::requests::{
    classify_main_frame, detached_session, event_detaches_session, is_non_app,
    is_non_app_page_url, main_frame_of, missing_message, normalize_app_resource, paths_view,
    request_url, requested_url, require_field, required_str, resource_of, str_field, text_or_empty,
    MainFrame, MainFrameSpec,
};
use crate::text::{joined, str_eq, texts};
use crate::text_map::TextMap;

verus! {

/// How long the scripts of a load may take to arrive, in milliseconds.
pub const INITIAL_RELOAD_TIMEOUT: u64 = 45_000;

/// How long the last page may be gone before another takes its place, in milliseconds.
pub const PAGE_REPLACEMENT_TIMEOUT: u64 = COMMAND_TIMEOUT;

/// A time that lies a delay after another.
pub open spec fn later(now: u64, delay: u64) -> u64 {
    if now + delay <= u64::MAX {
        (now + delay) as u64
    } else {
        u64::MAX
    }
}

pub fn later_than(now: u64, delay: u64) -> (time: u64)
    ensures
        time == later(now, delay),
{
    now.saturating_add(delay)
}

// ---------------------------------------------------------------------------
// Sessions

/// A session, for specifications.
#[verifier::ext_equal]
pub struct SessionSpec {
    /// What is served, by file.
    pub expected: Map<Seq<char>, ExpectedSpec>,
    /// The file that each request path asks for.
    pub paths: Map<Seq<char>, Seq<char>>,
    /// The pages, by their sessions.
    pub pages: Map<Seq<char>, PageStateSpec>,
    /// Until when a page must take the place of the last one.
    pub replacement: Option<u64>,
}

pub open spec fn states_of(pages: TextMap<PageState>) -> Map<Seq<char>, PageStateSpec> {
    pages@.map_values(|state: PageState| state@)
}

/// Which resources are served, and which pages may load.
pub struct FastSession {
    pub expected_resources: TextMap<ExpectedResource>,
    pub request_paths: TextMap<String>,
    pub pages: TextMap<PageState>,
    pub page_replacement_deadline: Option<u64>,
}

impl View for FastSession {
    type V = SessionSpec;

    open spec fn view(&self) -> SessionSpec {
        SessionSpec {
            expected: expected_view(self.expected_resources),
            paths: paths_view(self.request_paths),
            pages: states_of(self.pages),
            replacement: self.page_replacement_deadline,
        }
    }
}

/// The session with a page in another state.
pub open spec fn with_page(
    session: SessionSpec,
    session_id: Seq<char>,
    state: PageStateSpec,
) -> SessionSpec {
    SessionSpec { pages: session.pages.insert(session_id, state), ..session }
}

/// The session without a page.
pub open spec fn without_page(session: SessionSpec, session_id: Seq<char>) -> SessionSpec {
    SessionSpec { pages: session.pages.remove(session_id), ..session }
}

/// A document of the application starts to load in a page: nothing of it is verified yet, and
/// no other page needs to take its place.
pub open spec fn controlled(
    session: SessionSpec,
    session_id: Seq<char>,
    frame_id: Seq<char>,
    loader_id: Seq<char>,
) -> SessionSpec {
    SessionSpec {
        pages: session.pages.insert(
            session_id,
            PageStateSpec::Intercepting(new_page(frame_id, loader_id)),
        ),
        replacement: None,
        ..session
    }
}

/// A page is gone. When it was the last, another must take its place.
pub open spec fn without_session(
    session: SessionSpec,
    session_id: Seq<char>,
    now: u64,
) -> SessionSpec {
    let pages = session.pages.remove(session_id);
    if session.pages.contains_key(session_id) && pages == Map::<
        Seq<char>,
        PageStateSpec,
    >::empty() {
        SessionSpec { pages, replacement: Some(later(now, PAGE_REPLACEMENT_TIMEOUT)), ..session }
    } else {
        SessionSpec { pages, ..session }
    }
}

// ---------------------------------------------------------------------------
// Navigations that commit

/// The page after a document committed in one of its frames, or why it may not.
pub open spec fn after_commit(
    page: PageSpec,
    frame_id: Seq<char>,
    frame: JsonSpec,
    now: u64,
) -> Result<PageSpec, Seq<char>> {
    let loader_id = text_or_empty(frame, "loaderId"@);
    let url = text_or_empty(frame, "url"@);
    if loader_id.len() == 0 || frame_id != page.frame_id || loader_id == page.loader_id {
        Ok(page)
    } else if !page.first_load_completed {
        match document_problem(page, frame_id, loader_id, url) {
            Some(problem) => Err(problem),
            None => Ok(page),
        }
    } else if is_non_app(url) {
        Err(joined(seq!["app page navigated to a non-app document: "@, url]))
    } else {
        Ok(rebound(page, loader_id, later(now, INITIAL_RELOAD_TIMEOUT)))
    }
}

/// The session after a document committed in a frame of a page, or why it may not.
pub open spec fn after_frame(
    session: SessionSpec,
    session_id: Seq<char>,
    frame_id: Seq<char>,
    frame: JsonSpec,
    now: u64,
) -> Result<SessionSpec, Seq<char>> {
    if !session.pages.contains_key(session_id) {
        Ok(session)
    } else {
        match session.pages[session_id] {
            PageStateSpec::Configuring => Ok(session),
            PageStateSpec::Pending { frame_id: waiting } => if frame_id != waiting {
                Ok(session)
            } else {
                match main_frame_of(frame) {
                    Ok(MainFrameSpec::Transitional { .. }) => Ok(session),
                    Ok(MainFrameSpec::App { frame_id, loader_id }) => Ok(
                        controlled(session, session_id, frame_id, loader_id),
                    ),
                    Ok(MainFrameSpec::NonApp) => Ok(without_page(session, session_id)),
                    Err(cause) => Err(
                        joined(seq!["validate committed page main frame: "@, cause]),
                    ),
                }
            },
            PageStateSpec::Intercepting(page) => match after_commit(page, frame_id, frame, now) {
                Ok(page) => Ok(
                    with_page(session, session_id, PageStateSpec::Intercepting(page)),
                ),
                Err(problem) => Err(problem),
            },
        }
    }
}

/// The session after a `Page.frameNavigated` event, or why it may not go on.
pub open spec fn after_navigation(session: SessionSpec, event: JsonSpec, now: u64) -> Result<
    SessionSpec,
    Seq<char>,
> {
    let frame = match event.get("params"@) {
        Some(params) => params.get("frame"@),
        None => None,
    };
    match (event.text_at("sessionId"@), frame) {
        (Some(session_id), Some(frame)) => match frame.text_at("id"@) {
            Some(frame_id) => after_frame(session, session_id, frame_id, frame, now),
            None => Ok(session),
        },
        _ => Ok(session),
    }
}

// ---------------------------------------------------------------------------
// Requests

/// The session after a page asked for a document. A request is no commit: it changes nothing.
pub open spec fn after_document(
    session: SessionSpec,
    session_id: Seq<char>,
    frame_id: Seq<char>,
    loader_id: Seq<char>,
    url: Seq<char>,
) -> Result<SessionSpec, Seq<char>> {
    if !session.pages.contains_key(session_id) {
        Ok(session)
    } else {
        match session.pages[session_id] {
            PageStateSpec::Intercepting(page) => if loader_id.len() == 0 {
                Err("main document request missing loaderId"@)
            } else if supersedes(page, frame_id, loader_id) {
                Ok(session)
            } else {
                match document_problem(page, frame_id, loader_id, url) {
                    Some(problem) => Err(problem),
                    None => Ok(session),
                }
            },
            _ => Ok(session),
        }
    }
}

/// The session after a page asked for a script.
pub open spec fn after_script(
    session: SessionSpec,
    session_id: Seq<char>,
    params: JsonSpec,
    url: Seq<char>,
) -> Result<SessionSpec, Seq<char>> {
    match resource_of(url, session.paths) {
        None => Ok(session),
        Some(resource) => match params.text_at("requestId"@) {
            None => Err(missing_message("Network.requestWillBeSent"@, "requestId"@)),
            Some(request_id) => if !session.pages.contains_key(session_id) {
                Ok(session)
            } else {
                match session.pages[session_id] {
                    PageStateSpec::Intercepting(page) => Ok(
                        with_page(
                            session,
                            session_id,
                            PageStateSpec::Intercepting(
                                after_request(
                                    page,
                                    request_id,
                                    text_or_empty(params, "frameId"@),
                                    text_or_empty(params, "loaderId"@),
                                    resource,
                                ).0,
                            ),
                        ),
                    ),
                    _ => Ok(session),
                }
            },
        },
    }
}

/// The session after a `Network.requestWillBeSent` event, or why it may not go on.
pub open spec fn after_network(session: SessionSpec, event: JsonSpec) -> Result<
    SessionSpec,
    Seq<char>,
> {
    match event.text_at("sessionId"@) {
        None => Ok(session),
        Some(session_id) => match event.get("params"@) {
            None => Err(missing_message("Network.requestWillBeSent"@, "params"@)),
            Some(params) => match requested_url(params) {
                None => Err(missing_message("Network.requestWillBeSent"@, "request.url"@)),
                Some(url) => if params.text_at("type"@) == Some("Document"@) {
                    after_document(
                        session,
                        session_id,
                        text_or_empty(params, "frameId"@),
                        text_or_empty(params, "loaderId"@),
                        url,
                    )
                } else if params.text_at("type"@) == Some("Script"@) {
                    after_script(session, session_id, params, url)
                } else {
                    Ok(session)
                },
            },
        },
    }
}

// ---------------------------------------------------------------------------
// Loads

/// The session after a `Page.lifecycleEvent`.
pub open spec fn after_lifecycle(session: SessionSpec, event: JsonSpec) -> SessionSpec {
    match (event.text_at("sessionId"@), event.get("params"@)) {
        (Some(session_id), Some(params)) => if session.pages.contains_key(session_id)
            && params.text_at("name"@) == Some("load"@) {
            match session.pages[session_id] {
                PageStateSpec::Intercepting(page) => if page.loaded {
                    session
                } else {
                    with_page(
                        session,
                        session_id,
                        PageStateSpec::Intercepting(
                            after_load(
                                page,
                                text_or_empty(params, "frameId"@),
                                params.text_at("loaderId"@),
                            ),
                        ),
                    )
                },
                _ => session,
            }
        } else {
            session
        },
        _ => session,
    }
}

impl FastSession {
    pub open spec fn well_formed(&self) -> bool {
        &&& self.expected_resources.well_formed()
        &&& self.request_paths.well_formed()
        &&& self.pages.well_formed()
        &&& forall|id: Seq<char>|
            self.pages@.contains_key(id) ==> (#[trigger] self.pages@[id]).well_formed()
    }

    /// A session that serves a plan and has no page yet.
    pub fn new(plan: RuntimePlan) -> (session: FastSession)
        requires
            plan.well_formed(),
        ensures
            session.well_formed(),
            session.expected_resources == plan.expected_resources,
            session.request_paths == plan.request_paths,
            session@.pages == Map::<Seq<char>, PageStateSpec>::empty(),
            session@.replacement is None,
    {
        let session = FastSession {
            expected_resources: plan.expected_resources,
            request_paths: plan.request_paths,
            pages: TextMap::new(),
            page_replacement_deadline: None,
        };
        assert(session@.pages =~= Map::empty());
        session
    }

    /// Sets the state of a page, and hands back whether it had one.
    pub(crate) fn put_page(&mut self, session_id: &str, state: PageState) -> (known: bool)
        requires
            old(self).well_formed(),
            state.well_formed(),
        ensures
            final(self).well_formed(),
            final(self)@ == with_page(old(self)@, session_id@, state@),
            final(self).expected_resources == old(self).expected_resources,
            final(self).request_paths == old(self).request_paths,
            known == old(self)@.pages.contains_key(session_id@),
    {
        let ghost before = self@;
        let known = self.pages.insert(session_id.to_owned(), state).is_some();
        assert(self@.pages =~= before.pages.insert(session_id@, state@));
        known
    }

    /// Takes a page out, and hands back its state.
    pub(crate) fn take_page(&mut self, session_id: &str) -> (state: Option<PageState>)
        requires
            old(self).well_formed(),
        ensures
            final(self).well_formed(),
            final(self)@ == without_page(old(self)@, session_id@),
            final(self).expected_resources == old(self).expected_resources,
            final(self).request_paths == old(self).request_paths,
            match state {
                Some(state) => old(self)@.pages.contains_key(session_id@)
                    && old(self)@.pages[session_id@] == state@ && state.well_formed(),
                None => !old(self)@.pages.contains_key(session_id@),
            },
    {
        let ghost before = self@;
        let state = self.pages.remove(session_id);
        assert(self@.pages =~= before.pages.remove(session_id@));
        state
    }

    /// Takes an event that changes pages and asks for nothing else, and says whether it is one.
    pub fn dispatch_local_event(&mut self, value: &Json, now: u64) -> (taken: Result<
        bool,
        SessionError,
    >)
        requires
            old(self).well_formed(),
        ensures
            final(self).well_formed(),
            final(self).expected_resources == old(self).expected_resources,
            final(self).request_paths == old(self).request_paths,
            if value@.text_at("method"@) == Some("Page.frameNavigated"@) {
                match (taken, after_navigation(old(self)@, value@, now)) {
                    (Ok(taken), Ok(after)) => taken && final(self)@ == after,
                    (Err(error), Err(problem)) => final(self)@ == old(self)@ && error@ == problem,
                    _ => false,
                }
            } else {
                taken == Ok::<bool, SessionError>(false) && final(self)@ == old(self)@
            },
    {
        let method = match value.text_at("method") {
            Some(method) => method,
            None => {
                return Ok(false);
            },
        };
        if str_eq(method, "Page.frameNavigated") {
            match self.handle_frame_navigated(value, now) {
                Ok(_) => Ok(true),
                Err(error) => Err(error),
            }
        } else {
            Ok(false)
        }
    }

    /// A document committed in a frame.
    pub fn handle_frame_navigated(&mut self, value: &Json, now: u64) -> (result: Result<
        (),
        SessionError,
    >)
        requires
            old(self).well_formed(),
        ensures
            final(self).well_formed(),
            final(self).expected_resources == old(self).expected_resources,
            final(self).request_paths == old(self).request_paths,
            match (result, after_navigation(old(self)@, value@, now)) {
                (Ok(_), Ok(after)) => final(self)@ == after,
                (Err(error), Err(problem)) => final(self)@ == old(self)@ && error@ == problem,
                _ => false,
            },
    {
        let session_id = match value.text_at("sessionId") {
            Some(session_id) => session_id,
            None => {
                return Ok(());
            },
        };
        let frame = match value.get("params") {
            Some(params) => match params.get("frame") {
                Some(frame) => frame,
                None => {
                    return Ok(());
                },
            },
            None => {
                return Ok(());
            },
        };
        let frame_id = match frame.text_at("id") {
            Some(frame_id) => frame_id,
            None => {
                return Ok(());
            },
        };
        let pending = match self.pages.get(session_id) {
            Some(PageState::Intercepting(_)) => {
                return self.commit_navigation(session_id, frame_id, frame, now);
            },
            Some(PageState::Pending { frame_id: pending }) => str_eq(frame_id, pending.as_str()),
            _ => false,
        };
        if !pending {
            return Ok(());
        }
        match classify_main_frame(frame) {
            Ok(MainFrame::Transitional { .. }) => Ok(()),
            Ok(MainFrame::App { frame_id, loader_id }) => {
                self.begin_controlled_load(session_id, frame_id, loader_id);
                Ok(())
            },
            Ok(MainFrame::NonApp) => {
                let _ = self.take_page(session_id);
                Ok(())
            },
            Err(error) => {
                let parts: [&str; 2] = [
                    "validate committed page main frame: ",
                    error.message.as_str(),
                ];
                assert(texts(parts@) =~= seq!["validate committed page main frame: "@, error@]);
                Err(SessionError::from_parts(&parts))
            },
        }
    }

    /// A document of the application starts to load in a page.
    pub(crate) fn begin_controlled_load(
        &mut self,
        session_id: &str,
        frame_id: String,
        loader_id: String,
    )
        requires
            old(self).well_formed(),
            old(self)@.pages.contains_key(session_id@),
            old(self)@.pages[session_id@] == (PageStateSpec::Pending { frame_id: frame_id@ }),
        ensures
            final(self).well_formed(),
            final(self).expected_resources == old(self).expected_resources,
            final(self).request_paths == old(self).request_paths,
            final(self)@ == controlled(old(self)@, session_id@, frame_id@, loader_id@),
    {
        let page = PageVerification::new(frame_id, loader_id);
        let _ = self.put_page(session_id, PageState::Intercepting(page));
        self.page_replacement_deadline = None;
    }

    /// A document committed in a page whose requests are intercepted. During the first load
    /// that is a breach; afterwards the page must prove again that it received the scripts.
    fn commit_navigation(
        &mut self,
        session_id: &str,
        frame_id: &str,
        frame: &Json,
        now: u64,
    ) -> (result: Result<(), SessionError>)
        requires
            old(self).well_formed(),
            old(self)@.pages.contains_key(session_id@),
            old(self)@.pages[session_id@] is Intercepting,
        ensures
            final(self).well_formed(),
            final(self).expected_resources == old(self).expected_resources,
            final(self).request_paths == old(self).request_paths,
            match (
                result,
                after_commit(
                    old(self)@.pages[session_id@]->Intercepting_0,
                    frame_id@,
                    frame@,
                    now,
                ),
            ) {
                (Ok(_), Ok(page)) => final(self)@ == with_page(
                    old(self)@,
                    session_id@,
                    PageStateSpec::Intercepting(page),
                ),
                (Err(error), Err(problem)) => final(self)@ == old(self)@ && error@ == problem,
                _ => false,
            },
    {
        let loader_id = str_field(frame, "loaderId");
        let url = str_field(frame, "url");
        let ghost before = self@;
        if let Some(PageState::Intercepting(page)) = self.pages.get(session_id) {
            if is_empty(loader_id) || !str_eq(frame_id, page.frame_id.as_str()) || str_eq(
                loader_id,
                page.loader_id.as_str(),
            ) {
                assert(before.pages.insert(session_id@, before.pages[session_id@])
                    =~= before.pages);
                return Ok(());
            }
            if !page.first_load_completed {
                assert(before.pages.insert(session_id@, before.pages[session_id@])
                    =~= before.pages);
                return page.observe_document(frame_id, loader_id, url);
            }
            if is_non_app_page_url(url) {
                let parts: [&str; 2] = ["app page navigated to a non-app document: ", url];
                assert(texts(parts@) =~= seq![
                    "app page navigated to a non-app document: "@,
                    url@,
                ]);
                return Err(SessionError::from_parts(&parts));
            }
        }
        if let Some(PageState::Intercepting(page)) = self.take_page(session_id) {
            let mut page = page;
            page.rebind_to_navigation(
                loader_id.to_owned(),
                later_than(now, INITIAL_RELOAD_TIMEOUT),
            );
            let _ = self.put_page(session_id, PageState::Intercepting(page));
            assert(self@.pages =~= before.pages.insert(
                session_id@,
                PageStateSpec::Intercepting(page@),
            ));
        }
        Ok(())
    }

    /// A page asks for something.
    pub fn handle_network_request(&mut self, value: &Json) -> (result: Result<(), SessionError>)
        requires
            old(self).well_formed(),
        ensures
            final(self).well_formed(),
            final(self).expected_resources == old(self).expected_resources,
            final(self).request_paths == old(self).request_paths,
            match (result, after_network(old(self)@, value@)) {
                (Ok(_), Ok(after)) => final(self)@ == after,
                (Err(error), Err(problem)) => final(self)@ == old(self)@ && error@ == problem,
                _ => false,
            },
    {
        let method = "Network.requestWillBeSent";
        let session_id = match value.text_at("sessionId") {
            Some(session_id) => session_id,
            None => {
                return Ok(());
            },
        };
        let params = match require_field(value, method, "params") {
            Ok(params) => params,
            Err(error) => {
                return Err(error);
            },
        };
        let frame_id = str_field(params, "frameId");
        let loader_id = str_field(params, "loaderId");
        let url = match request_url(params, method) {
            Ok(url) => url,
            Err(error) => {
                return Err(error);
            },
        };
        let kind = match params.text_at("type") {
            Some(kind) => kind,
            None => {
                return Ok(());
            },
        };
        if str_eq(kind, "Document") {
            self.observe_document_request(session_id, frame_id, loader_id, url)
        } else if str_eq(kind, "Script") {
            let resource_path = match normalize_app_resource(url, &self.request_paths) {
                Some(resource_path) => resource_path,
                None => {
                    return Ok(());
                },
            };
            let request_id = match required_str(params, method, "requestId") {
                Ok(request_id) => request_id,
                Err(error) => {
                    return Err(error);
                },
            };
            self.observe_page_script(
                session_id,
                request_id,
                frame_id,
                loader_id,
                resource_path.as_str(),
            );
            Ok(())
        } else {
            Ok(())
        }
    }

    fn observe_document_request(
        &self,
        session_id: &str,
        frame_id: &str,
        loader_id: &str,
        url: &str,
    ) -> (result: Result<(), SessionError>)
        requires
            self.well_formed(),
        ensures
            match (
                result,
                after_document(self@, session_id@, frame_id@, loader_id@, url@),
            ) {
                (Ok(_), Ok(after)) => after == self@,
                (Err(error), Err(problem)) => error@ == problem,
                _ => false,
            },
    {
        match self.pages.get(session_id) {
            Some(PageState::Intercepting(page)) => {
                if is_empty(loader_id) {
                    return Err(SessionError::new("main document request missing loaderId"));
                }
                if page.supersedes_completed_load(frame_id, loader_id) {
                    return Ok(());
                }
                page.observe_document(frame_id, loader_id, url)
            },
            _ => Ok(()),
        }
    }

    fn observe_page_script(
        &mut self,
        session_id: &str,
        request_id: &str,
        frame_id: &str,
        loader_id: &str,
        resource_path: &str,
    )
        requires
            old(self).well_formed(),
        ensures
            final(self).well_formed(),
            final(self).expected_resources == old(self).expected_resources,
            final(self).request_paths == old(self).request_paths,
            final(self)@ == (if old(self)@.pages.contains_key(session_id@) {
                match old(self)@.pages[session_id@] {
                    PageStateSpec::Intercepting(page) => with_page(
                        old(self)@,
                        session_id@,
                        PageStateSpec::Intercepting(
                            after_request(
                                page,
                                request_id@,
                                frame_id@,
                                loader_id@,
                                resource_path@,
                            ).0,
                        ),
                    ),
                    _ => old(self)@,
                }
            } else {
                old(self)@
            }),
    {
        let ghost before = self@;
        match self.take_page(session_id) {
            Some(PageState::Intercepting(page)) => {
                let mut page = page;
                let _ = page.observe_script_request(
                    request_id,
                    frame_id,
                    loader_id,
                    resource_path,
                );
                let _ = self.put_page(session_id, PageState::Intercepting(page));
                assert(self@.pages =~= before.pages.insert(
                    session_id@,
                    PageStateSpec::Intercepting(page@),
                ));
            },
            Some(state) => {
                let _ = self.put_page(session_id, state);
                assert(self@.pages =~= before.pages);
            },
            None => {
                assert(self@.pages =~= before.pages);
            },
        }
    }

    /// A page reports how far it has come.
    pub fn handle_page_lifecycle(&mut self, value: &Json)
        requires
            old(self).well_formed(),
        ensures
            final(self).well_formed(),
            final(self).expected_resources == old(self).expected_resources,
            final(self).request_paths == old(self).request_paths,
            final(self)@ == after_lifecycle(old(self)@, value@),
    {
        let ghost before = self@;
        let session_id = match value.text_at("sessionId") {
            Some(session_id) => session_id,
            None => {
                return ;
            },
        };
        let params = match value.get("params") {
            Some(params) => params,
            None => {
                return ;
            },
        };
        let is_load = match params.text_at("name") {
            Some(name) => str_eq(name, "load"),
            None => false,
        };
        if !is_load {
            return ;
        }
        match self.take_page(session_id) {
            Some(PageState::Intercepting(page)) => {
                let mut page = page;
                if !page.is_loaded() {
                    page.observe_load(str_field(params, "frameId"), params.text_at("loaderId"));
                }
                let _ = self.put_page(session_id, PageState::Intercepting(page));
                assert(self@.pages =~= before.pages.insert(
                    session_id@,
                    PageStateSpec::Intercepting(page@),
                ));
                assert(before.pages.insert(session_id@, before.pages[session_id@])
                    =~= before.pages);
            },
            Some(state) => {
                let _ = self.put_page(session_id, state);
                assert(self@.pages =~= before.pages);
            },
            None => {
                assert(self@.pages =~= before.pages);
            },
        }
    }

    /// A page is gone.
    pub fn detach_page_session(&mut self, session_id: &str, now: u64)
        requires
            old(self).well_formed(),
        ensures
            final(self).well_formed(),
            final(self).expected_resources == old(self).expected_resources,
            final(self).request_paths == old(self).request_paths,
            final(self)@ == without_session(old(self)@, session_id@, now),
    {
        let gone = self.take_page(session_id).is_some();
        let none_left = self.pages.len() == 0;
        proof {
            if none_left {
                assert(self.pages.keys() =~= Seq::empty());
                assert(self@.pages =~= Map::empty());
            } else {
                self.pages.lemma_entry(0);
                assert(self@.pages.contains_key(self.pages.keys()[0]));
            }
        }
        if gone && none_left {
            self.page_replacement_deadline = Some(later_than(now, PAGE_REPLACEMENT_TIMEOUT));
        }
    }

    /// Whether a page is gone, or will be once the events that have arrived are handled.
    pub fn session_detached_or_pending(&self, wire: &Wire, session_id: &str) -> (gone: bool)
        requires
            self.well_formed(),
        ensures
            gone == is_gone(self@, wire@.events, session_id@),
    {
        if !self.pages.contains_key(session_id) {
            return true;
        }
        let mut i: usize = 0;
        while i < wire.queued_events()
            invariant
                i <= wire@.events.len(),
                self@.pages.contains_key(session_id@),
                forall|k: int|
                    0 <= k < i ==> detached_session(#[trigger] wire@.events[k]) != Some(
                        session_id@,
                    ),
            decreases wire@.events.len() - i,
        {
            if let Some(detached) = event_detaches_session(wire.queued_event(i)) {
                if str_eq(detached, session_id) {
                    assert(detached_session(wire@.events[i as int]) == Some(session_id@));
                    return true;
                }
            }
            i += 1;
        }
        false
    }
}

/// A page is gone, or an event that has arrived takes it away.
pub open spec fn is_gone(
    session: SessionSpec,
    events: Seq<JsonSpec>,
    session_id: Seq<char>,
) -> bool {
    ||| !session.pages.contains_key(session_id)
    ||| exists|k: int|
        0 <= k < events.len() && detached_session(#[trigger] events[k]) == Some(session_id)
}

} // verus!
