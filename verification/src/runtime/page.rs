//! What is known of a page whose scripts are being replaced.

use vstd::prelude::*;

use crate::runtime::error::SessionError;
use crate::text::{joined, starts_with, str_eq, texts};
use crate::text_map::{TextMap, TextSet};

verus! {

/// The side from which a script delivery was seen.
#[derive(Clone, Copy, Debug, PartialEq, Eq, Structural)]
pub enum ScriptDeliveryHalf {
    Network,
    Fulfilled,
}

/// A script delivery seen from one side, for specifications.
pub struct HalfSpec {
    pub half: ScriptDeliveryHalf,
    pub resource_path: Seq<char>,
}

/// A script delivery seen from one side.
#[derive(Debug)]
pub struct PendingHalf {
    pub half: ScriptDeliveryHalf,
    pub resource_path: String,
}

impl View for PendingHalf {
    type V = HalfSpec;

    open spec fn view(&self) -> HalfSpec {
        HalfSpec { half: self.half, resource_path: self.resource_path@ }
    }
}

/// What is known of a page, for specifications.
#[verifier::ext_equal]
pub struct PageSpec {
    pub frame_id: Seq<char>,
    pub loader_id: Seq<char>,
    pub loaded: bool,
    pub first_load_completed: bool,
    pub reverify_deadline: Option<u64>,
    pub verified: Set<Seq<char>>,
    pub pending: Map<Seq<char>, HalfSpec>,
}

/// What is known of a page whose requests are intercepted.
pub struct PageVerification {
    pub frame_id: String,
    pub loader_id: String,
    pub loaded: bool,
    /// Whether a load of this page ever finished. It stays so when the page goes elsewhere.
    pub first_load_completed: bool,
    /// Until when a page that went elsewhere after a load must receive the scripts again, in
    /// milliseconds.
    pub reverify_deadline: Option<u64>,
    pub verified_resources: TextSet,
    pub pending_script_deliveries: TextMap<PendingHalf>,
}

impl View for PageVerification {
    type V = PageSpec;

    open spec fn view(&self) -> PageSpec {
        PageSpec {
            frame_id: self.frame_id@,
            loader_id: self.loader_id@,
            loaded: self.loaded,
            first_load_completed: self.first_load_completed,
            reverify_deadline: self.reverify_deadline,
            verified: self.verified_resources@,
            pending: self.pending_script_deliveries@.map_values(|half: PendingHalf| half@),
        }
    }
}

// ---------------------------------------------------------------------------
// How a page changes

pub open spec fn new_page(frame_id: Seq<char>, loader_id: Seq<char>) -> PageSpec {
    PageSpec {
        frame_id,
        loader_id,
        loaded: false,
        first_load_completed: false,
        reverify_deadline: None,
        verified: Set::empty(),
        pending: Map::empty(),
    }
}

/// Why a document may not take the place of the one being verified.
pub open spec fn document_problem(
    page: PageSpec,
    frame_id: Seq<char>,
    loader_id: Seq<char>,
    url: Seq<char>,
) -> Option<Seq<char>> {
    if frame_id != page.frame_id {
        None
    } else if !"app://"@.is_prefix_of(url) {
        Some(joined(seq!["controlled reload navigated to non-app document: "@, url]))
    } else if loader_id != page.loader_id {
        Some("main frame navigated again during Fast verification"@)
    } else {
        None
    }
}

/// The page after a navigation that committed: nothing seen so far counts.
pub open spec fn rebound(page: PageSpec, loader_id: Seq<char>, deadline: u64) -> PageSpec {
    PageSpec {
        loader_id,
        loaded: false,
        reverify_deadline: Some(deadline),
        verified: Set::empty(),
        pending: Map::empty(),
        ..page
    }
}

/// A navigation that goes on from a load that finished.
pub open spec fn supersedes(page: PageSpec, frame_id: Seq<char>, loader_id: Seq<char>) -> bool {
    page.first_load_completed && frame_id == page.frame_id && loader_id != page.loader_id
}

pub open spec fn after_load(
    page: PageSpec,
    frame_id: Seq<char>,
    loader_id: Option<Seq<char>>,
) -> PageSpec {
    let ours = match loader_id {
        Some(loader_id) => loader_id.len() == 0 || loader_id == page.loader_id,
        None => true,
    };
    if frame_id == page.frame_id && ours {
        PageSpec { loaded: true, first_load_completed: true, ..page }
    } else {
        page
    }
}

/// The page after one side of a delivery was seen, and whether that verifies a resource that
/// was not verified before. Both sides must name the same request and resource; otherwise the
/// side seen last is kept.
pub open spec fn after_half(
    page: PageSpec,
    request_id: Seq<char>,
    half: ScriptDeliveryHalf,
    resource_path: Seq<char>,
) -> (PageSpec, bool) {
    if page.pending.contains_key(request_id) && page.pending[request_id].half != half
        && page.pending[request_id].resource_path == resource_path {
        (
            PageSpec {
                pending: page.pending.remove(request_id),
                verified: page.verified.insert(resource_path),
                ..page
            },
            !page.verified.contains(resource_path),
        )
    } else {
        (
            PageSpec {
                pending: page.pending.insert(request_id, HalfSpec { half, resource_path }),
                ..page
            },
            false,
        )
    }
}

/// The page after a script was requested. Only requests of the navigation that is being
/// verified count.
pub open spec fn after_request(
    page: PageSpec,
    request_id: Seq<char>,
    frame_id: Seq<char>,
    loader_id: Seq<char>,
    resource_path: Seq<char>,
) -> (PageSpec, bool) {
    if request_id.len() > 0 && frame_id.len() > 0 && loader_id.len() > 0 && frame_id
        == page.frame_id && loader_id == page.loader_id {
        after_half(page, request_id, ScriptDeliveryHalf::Network, resource_path)
    } else {
        (page, false)
    }
}

/// The page after a script was answered with its patched content.
pub open spec fn after_fulfilled(
    page: PageSpec,
    network_id: Seq<char>,
    frame_id: Seq<char>,
    resource_path: Seq<char>,
) -> (PageSpec, bool) {
    if network_id.len() > 0 && frame_id.len() > 0 && frame_id == page.frame_id {
        after_half(page, network_id, ScriptDeliveryHalf::Fulfilled, resource_path)
    } else {
        (page, false)
    }
}

pub(crate) fn is_empty(text: &str) -> (yes: bool)
    ensures
        yes == (text@.len() == 0),
{
    proof {
        reveal_strlit("");
        if text@.len() == 0 {
            assert(text@ =~= ""@);
        }
    }
    str_eq(text, "")
}

impl PageVerification {
    pub open spec fn well_formed(&self) -> bool {
        self.verified_resources.well_formed() && self.pending_script_deliveries.well_formed()
    }

    pub fn new(frame_id: String, loader_id: String) -> (page: PageVerification)
        ensures
            page.well_formed(),
            page@ == new_page(frame_id@, loader_id@),
    {
        let page = PageVerification {
            frame_id,
            loader_id,
            loaded: false,
            first_load_completed: false,
            reverify_deadline: None,
            verified_resources: TextSet::new(),
            pending_script_deliveries: TextMap::new(),
        };
        assert(page@.pending =~= Map::empty());
        page
    }

    /// Refuses a document that takes the place of the one being verified.
    pub fn observe_document(&self, frame_id: &str, loader_id: &str, url: &str) -> (result: Result<
        (),
        SessionError,
    >)
        ensures
            match result {
                Ok(_) => document_problem(self@, frame_id@, loader_id@, url@) is None,
                Err(error) => document_problem(self@, frame_id@, loader_id@, url@) == Some(
                    error@,
                ),
            },
    {
        if !str_eq(frame_id, self.frame_id.as_str()) {
            return Ok(());
        }
        if !starts_with(url, "app://") {
            let parts: [&str; 2] = ["controlled reload navigated to non-app document: ", url];
            assert(texts(parts@) =~= seq![
                "controlled reload navigated to non-app document: "@,
                url@,
            ]);
            return Err(SessionError::from_parts(&parts));
        }
        if !str_eq(loader_id, self.loader_id.as_str()) {
            return Err(SessionError::new("main frame navigated again during Fast verification"));
        }
        Ok(())
    }

    /// Starts over for a navigation that committed after a load had finished.
    pub fn rebind_to_navigation(&mut self, loader_id: String, deadline: u64)
        ensures
            final(self).well_formed(),
            final(self)@ == rebound(old(self)@, loader_id@, deadline),
    {
        self.loader_id = loader_id;
        self.loaded = false;
        self.reverify_deadline = Some(deadline);
        self.verified_resources = TextSet::new();
        self.pending_script_deliveries = TextMap::new();
        assert(self@.pending =~= Map::empty());
    }

    /// Whether a loader starts a navigation that goes on from a load that finished.
    pub fn supersedes_completed_load(&self, frame_id: &str, loader_id: &str) -> (yes: bool)
        ensures
            yes == supersedes(self@, frame_id@, loader_id@),
    {
        self.first_load_completed && str_eq(frame_id, self.frame_id.as_str()) && !str_eq(
            loader_id,
            self.loader_id.as_str(),
        )
    }

    pub fn observe_load(&mut self, frame_id: &str, loader_id: Option<&str>)
        requires
            old(self).well_formed(),
        ensures
            final(self).well_formed(),
            final(self)@ == after_load(
                old(self)@,
                frame_id@,
                crate::json::optional_text(loader_id),
            ),
    {
        if !str_eq(frame_id, self.frame_id.as_str()) {
            return;
        }
        let ours = match loader_id {
            Some(loader_id) => is_empty(loader_id) || str_eq(loader_id, self.loader_id.as_str()),
            None => true,
        };
        if ours {
            self.loaded = true;
            self.first_load_completed = true;
        }
    }

    pub fn is_loaded(&self) -> (yes: bool)
        ensures
            yes == self@.loaded,
    {
        self.loaded
    }

    /// A script was requested. Says whether that verifies a resource that was not verified.
    pub fn observe_script_request(
        &mut self,
        request_id: &str,
        frame_id: &str,
        loader_id: &str,
        resource_path: &str,
    ) -> (verified: bool)
        requires
            old(self).well_formed(),
        ensures
            final(self).well_formed(),
            (final(self)@, verified) == after_request(
                old(self)@,
                request_id@,
                frame_id@,
                loader_id@,
                resource_path@,
            ),
    {
        !is_empty(request_id) && !is_empty(frame_id) && !is_empty(loader_id) && str_eq(
            frame_id,
            self.frame_id.as_str(),
        ) && str_eq(loader_id, self.loader_id.as_str()) && self.pair_script_delivery(
            request_id,
            ScriptDeliveryHalf::Network,
            resource_path,
        )
    }

    /// A script was answered. Says whether that verifies a resource that was not verified.
    pub fn record_fulfilled_script(
        &mut self,
        network_id: &str,
        frame_id: &str,
        resource_path: &str,
    ) -> (verified: bool)
        requires
            old(self).well_formed(),
        ensures
            final(self).well_formed(),
            (final(self)@, verified) == after_fulfilled(
                old(self)@,
                network_id@,
                frame_id@,
                resource_path@,
            ),
    {
        !is_empty(network_id) && !is_empty(frame_id) && str_eq(frame_id, self.frame_id.as_str())
            && self.pair_script_delivery(network_id, ScriptDeliveryHalf::Fulfilled, resource_path)
    }

    fn pair_script_delivery(
        &mut self,
        request_id: &str,
        half: ScriptDeliveryHalf,
        resource_path: &str,
    ) -> (verified: bool)
        requires
            old(self).well_formed(),
        ensures
            final(self).well_formed(),
            (final(self)@, verified) == after_half(old(self)@, request_id@, half, resource_path@),
    {
        let ghost before = self@;
        let pairs = match self.pending_script_deliveries.get(request_id) {
            Some(pending) => pending.half != half && str_eq(
                pending.resource_path.as_str(),
                resource_path,
            ),
            None => false,
        };
        if pairs {
            let _ = self.pending_script_deliveries.remove(request_id);
            assert(self@.pending =~= before.pending.remove(request_id@));
            return self.verified_resources.insert(resource_path);
        }
        let pending = PendingHalf { half, resource_path: resource_path.to_owned() };
        let _ = self.pending_script_deliveries.insert(request_id.to_owned(), pending);
        assert(self@.pending =~= before.pending.insert(request_id@, pending@));
        false
    }
}

// ---------------------------------------------------------------------------
// Page states

/// How far a page has come, for specifications.
#[verifier::ext_equal]
pub enum PageStateSpec {
    Configuring,
    Pending { frame_id: Seq<char> },
    Intercepting(PageSpec),
}

/// How far a page has come.
pub enum PageState {
    /// Its interception is being set up.
    Configuring,
    /// It waits for a document of the application.
    Pending { frame_id: String },
    Intercepting(PageVerification),
}

impl View for PageState {
    type V = PageStateSpec;

    open spec fn view(&self) -> PageStateSpec {
        match *self {
            PageState::Configuring => PageStateSpec::Configuring,
            PageState::Pending { frame_id } => PageStateSpec::Pending { frame_id: frame_id@ },
            PageState::Intercepting(page) => PageStateSpec::Intercepting(page@),
        }
    }
}

pub open spec fn state_is_loaded(state: PageStateSpec) -> bool {
    match state {
        PageStateSpec::Intercepting(page) => page.loaded,
        _ => false,
    }
}

impl PageState {
    pub open spec fn well_formed(&self) -> bool {
        match *self {
            PageState::Intercepting(page) => page.well_formed(),
            _ => true,
        }
    }

    pub fn is_loaded(&self) -> (yes: bool)
        ensures
            yes == state_is_loaded(self@),
    {
        match self {
            PageState::Intercepting(page) => page.is_loaded(),
            _ => false,
        }
    }
}

// ---------------------------------------------------------------------------
// Laws

/// A resource is verified only where the other side of the same delivery was seen before.
pub proof fn lemma_verified_by_both_halves(
    page: PageSpec,
    request_id: Seq<char>,
    half: ScriptDeliveryHalf,
    resource_path: Seq<char>,
    other: Seq<char>,
)
    requires
        !page.verified.contains(other),
        after_half(page, request_id, half, resource_path).0.verified.contains(other),
    ensures
        other == resource_path,
        page.pending.contains_key(request_id),
        page.pending[request_id] == (HalfSpec {
            half: match half {
                ScriptDeliveryHalf::Network => ScriptDeliveryHalf::Fulfilled,
                ScriptDeliveryHalf::Fulfilled => ScriptDeliveryHalf::Network,
            },
            resource_path,
        }),
{
}

/// The two sides of a delivery verify a resource in either order.
pub proof fn lemma_halves_in_either_order(
    page: PageSpec,
    request_id: Seq<char>,
    resource_path: Seq<char>,
)
    requires
        request_id.len() > 0,
        page.frame_id.len() > 0,
        page.loader_id.len() > 0,
        !page.pending.contains_key(request_id),
        !page.verified.contains(resource_path),
    ensures
        ({
            let asked = after_request(
                page,
                request_id,
                page.frame_id,
                page.loader_id,
                resource_path,
            );
            let answered = after_fulfilled(page, request_id, page.frame_id, resource_path);
            let asked_first = after_fulfilled(asked.0, request_id, page.frame_id, resource_path);
            let answered_first = after_request(
                answered.0,
                request_id,
                page.frame_id,
                page.loader_id,
                resource_path,
            );
            &&& !asked.1 && !answered.1
            &&& asked_first.1 && answered_first.1
            &&& asked_first.0 == answered_first.0
            &&& asked_first.0 == (PageSpec {
                verified: page.verified.insert(resource_path),
                ..page
            })
        }),
{
    let asked = after_request(page, request_id, page.frame_id, page.loader_id, resource_path);
    let answered = after_fulfilled(page, request_id, page.frame_id, resource_path);
    let asked_first = after_fulfilled(asked.0, request_id, page.frame_id, resource_path);
    let answered_first = after_request(
        answered.0,
        request_id,
        page.frame_id,
        page.loader_id,
        resource_path,
    );
    assert(asked_first.0.pending =~= page.pending);
    assert(answered_first.0.pending =~= page.pending);
}

/// The page after some scripts were answered, each by its request and resource.
pub open spec fn after_all_fulfilled(
    page: PageSpec,
    frame_id: Seq<char>,
    answers: Seq<(Seq<char>, Seq<char>)>,
) -> PageSpec
    decreases answers.len(),
{
    if answers.len() == 0 {
        page
    } else {
        let (network_id, resource_path) = answers.last();
        after_fulfilled(
            after_all_fulfilled(page, frame_id, answers.drop_last()),
            network_id,
            frame_id,
            resource_path,
        ).0
    }
}

proof fn lemma_only_fulfilled_pending(
    page: PageSpec,
    frame_id: Seq<char>,
    answers: Seq<(Seq<char>, Seq<char>)>,
)
    requires
        page.verified == Set::<Seq<char>>::empty(),
        page.pending == Map::<Seq<char>, HalfSpec>::empty(),
    ensures
        ({
            let after = after_all_fulfilled(page, frame_id, answers);
            &&& after.verified == Set::<Seq<char>>::empty()
            &&& forall|id: Seq<char>| #[trigger]
                after.pending.contains_key(id) ==> after.pending[id].half
                    == ScriptDeliveryHalf::Fulfilled
        }),
    decreases answers.len(),
{
    if answers.len() > 0 {
        lemma_only_fulfilled_pending(page, frame_id, answers.drop_last());
    }
}

/// After a navigation took over, answers alone verify nothing, whatever was seen before it.
pub proof fn lemma_answers_do_not_outlive_a_navigation(
    page: PageSpec,
    loader_id: Seq<char>,
    deadline: u64,
    frame_id: Seq<char>,
    answers: Seq<(Seq<char>, Seq<char>)>,
)
    ensures
        after_all_fulfilled(rebound(page, loader_id, deadline), frame_id, answers).verified
            == Set::<Seq<char>>::empty(),
{
    lemma_only_fulfilled_pending(rebound(page, loader_id, deadline), frame_id, answers);
}

} // verus!
