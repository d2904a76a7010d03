//! When a session is ready, and when it has waited too long.

use vstd::prelude::*;

use crate::runtime::error::SessionError;
use crate::runtime::page::{state_is_loaded, PageSpec, PageState, PageStateSpec};
use crate::runtime::plan::ExpectedResource;
use crate::runtime::session::{later, later_than, FastSession, SessionSpec};
use crate::text::{join, joined, separated, text_less, texts};
use crate::text_map::{rank, TextMap, TextSet};

verus! {

/// How often the connection is tried while nothing happens, in milliseconds.
pub const HEARTBEAT_INTERVAL: u64 = 30_000;

// ---------------------------------------------------------------------------
// Resources that are missing

/// A resource that must arrive before the session is ready, and has not.
pub open spec fn is_missing(resource: ExpectedResource, path: Seq<char>, verified: Option<
    Set<Seq<char>>,
>) -> bool {
    resource.required_for_ready && match verified {
        Some(verified) => !verified.contains(path),
        None => true,
    }
}

/// The paths of the first `n` resources that are missing, in order.
pub open spec fn missing_among(
    expected: TextMap<ExpectedResource>,
    n: int,
    verified: Option<Set<Seq<char>>>,
) -> Seq<Seq<char>>
    decreases n,
{
    if n <= 0 {
        Seq::empty()
    } else if is_missing(expected.values()[n - 1], expected.keys()[n - 1], verified) {
        missing_among(expected, n - 1, verified).push(expected.keys()[n - 1])
    } else {
        missing_among(expected, n - 1, verified)
    }
}

/// The paths of the resources that are missing, in order.
pub open spec fn missing_paths(
    expected: TextMap<ExpectedResource>,
    verified: Option<Set<Seq<char>>>,
) -> Seq<Seq<char>> {
    missing_among(expected, expected.keys().len() as int, verified)
}

proof fn lemma_missing_among(
    expected: TextMap<ExpectedResource>,
    n: int,
    verified: Option<Set<Seq<char>>>,
    path: Seq<char>,
)
    requires
        expected.well_formed(),
        0 <= n <= expected.keys().len(),
    ensures
        missing_among(expected, n, verified).contains(path) <==> exists|i: int|
            0 <= i < n && #[trigger] expected.keys()[i] == path && is_missing(
                expected.values()[i],
                path,
                verified,
            ),
    decreases n,
{
    if n > 0 {
        lemma_missing_among(expected, n - 1, verified, path);
        let shorter = missing_among(expected, n - 1, verified);
        let all = missing_among(expected, n, verified);
        let last = expected.keys()[n - 1];
        if all.contains(path) && !shorter.contains(path) {
            assert(last == path);
        }
        if shorter.contains(path) {
            let k = choose|k: int| 0 <= k < shorter.len() && shorter[k] == path;
            assert(all[k] == path);
        }
        if is_missing(expected.values()[n - 1], last, verified) {
            assert(all[shorter.len() as int] == last);
        }
    }
}

/// A resource is missing exactly when it is required and not verified.
pub proof fn lemma_missing_paths(
    expected: TextMap<ExpectedResource>,
    verified: Option<Set<Seq<char>>>,
    path: Seq<char>,
)
    requires
        expected.well_formed(),
    ensures
        missing_paths(expected, verified).contains(path) <==> expected@.contains_key(path)
            && is_missing(expected@[path], path, verified),
{
    lemma_missing_among(expected, expected.keys().len() as int, verified, path);
    if missing_paths(expected, verified).contains(path) {
        let i = choose|i: int|
            0 <= i < expected.keys().len() && #[trigger] expected.keys()[i] == path && is_missing(
                expected.values()[i],
                path,
                verified,
            );
        expected.lemma_entry(i);
    }
    if expected@.contains_key(path) {
        expected.lemma_place(path);
        assert(expected.keys()[rank(expected.keys(), path)] == path);
    }
}

pub open spec fn optional_set(set: Option<&TextSet>) -> Option<Set<Seq<char>>> {
    match set {
        Some(set) => Some(set@),
        None => None,
    }
}

/// The paths of the resources that must arrive before the session is ready, and have not.
pub fn missing_required_resources<'e>(
    expected_resources: &'e TextMap<ExpectedResource>,
    verified: Option<&TextSet>,
) -> (missing: Vec<&'e str>)
    requires
        expected_resources.well_formed(),
        verified matches Some(verified) ==> verified.well_formed(),
    ensures
        texts(missing@) == missing_paths(*expected_resources, optional_set(verified)),
{
    let ghost seen = optional_set(verified);
    let mut missing: Vec<&'e str> = Vec::new();
    let mut i: usize = 0;
    assert(texts(missing@) =~= Seq::empty());
    while i < expected_resources.len()
        invariant
            expected_resources.well_formed(),
            verified matches Some(verified) ==> verified.well_formed(),
            seen == optional_set(verified),
            i <= expected_resources.keys().len(),
            texts(missing@) == missing_among(*expected_resources, i as int, seen),
        decreases expected_resources.keys().len() - i,
    {
        let ghost before = missing@;
        let path = expected_resources.key_at(i);
        let arrived = match verified {
            Some(verified) => verified.contains(path),
            None => false,
        };
        if expected_resources.value_at(i).required_for_ready && !arrived {
            missing.push(path);
            assert(texts(missing@) =~= texts(before).push(path@));
        }
        i += 1;
    }
    missing
}

// ---------------------------------------------------------------------------
// Gates

/// A page that went elsewhere after a load and has not received every required script since,
/// past its deadline.
pub open spec fn is_expired(
    expected: TextMap<ExpectedResource>,
    state: PageStateSpec,
    now: u64,
) -> bool {
    match state {
        PageStateSpec::Intercepting(page) => match page.reverify_deadline {
            Some(deadline) => missing_paths(expected, Some(page.verified)).len() > 0 && deadline
                <= now,
            None => false,
        },
        _ => false,
    }
}

/// The page without its deadline, if it has received every required script.
pub open spec fn lifted(
    expected: TextMap<ExpectedResource>,
    state: PageStateSpec,
) -> PageStateSpec {
    match state {
        PageStateSpec::Intercepting(page) => if missing_paths(
            expected,
            Some(page.verified),
        ).len() == 0 {
            PageStateSpec::Intercepting(PageSpec { reverify_deadline: None, ..page })
        } else {
            state
        },
        _ => state,
    }
}

pub open spec fn states_in_order(states: Seq<PageState>) -> Seq<PageStateSpec> {
    states.map_values(|state: PageState| state@)
}

/// First page from `i` on that is expired, their number without one.
pub open spec fn first_expired(
    expected: TextMap<ExpectedResource>,
    states: Seq<PageStateSpec>,
    now: u64,
    i: int,
) -> int
    decreases states.len() - i,
{
    if !(0 <= i < states.len()) || is_expired(expected, states[i], now) {
        i
    } else {
        first_expired(expected, states, now, i + 1)
    }
}

proof fn lemma_first_expired(
    expected: TextMap<ExpectedResource>,
    states: Seq<PageStateSpec>,
    now: u64,
    i: int,
)
    requires
        0 <= i <= states.len(),
    ensures
        ({
            let first = first_expired(expected, states, now, i);
            &&& i <= first <= states.len()
            &&& first < states.len() ==> is_expired(expected, states[first], now)
            &&& forall|j: int|
                i <= j < first ==> !is_expired(expected, #[trigger] states[j], now)
        }),
    decreases states.len() - i,
{
    if i < states.len() && !is_expired(expected, states[i], now) {
        lemma_first_expired(expected, states, now, i + 1);
    }
}

/// The pages after their gates were looked at.
pub open spec fn settled(
    expected: TextMap<ExpectedResource>,
    states: Seq<PageStateSpec>,
) -> Seq<PageStateSpec> {
    states.map_values(|state: PageStateSpec| lifted(expected, state))
}

/// The paths that the first expired page has not received.
pub open spec fn expired_paths(
    expected: TextMap<ExpectedResource>,
    states: Seq<PageStateSpec>,
    now: u64,
) -> Option<Seq<char>> {
    let first = first_expired(expected, states, now, 0);
    if first < states.len() {
        Some(
            separated(
                missing_paths(expected, Some(states[first]->Intercepting_0.verified)),
                ", "@,
            ),
        )
    } else {
        None
    }
}

/// Why the pages are no longer intercepted.
pub open spec fn interception_problem(
    expected: TextMap<ExpectedResource>,
    states: Seq<PageStateSpec>,
    replacement: Option<u64>,
    now: u64,
) -> Option<Seq<char>> {
    match expired_paths(expected, states, now) {
        Some(missing) => Some(
            joined(
                seq![
                    "page navigated after its completed load and did not receive the Fast scripts again: "@,
                    missing,
                ],
            ),
        ),
        None => match replacement {
            Some(deadline) => if deadline <= now {
                Some("active page target was not replaced; Fast interception is no longer active"@)
            } else {
                None
            },
            None => None,
        },
    }
}

// ---------------------------------------------------------------------------
// Readiness

/// A page is the first that has loaded.
pub open spec fn is_first_loaded(session: SessionSpec, session_id: Seq<char>) -> bool {
    &&& session.pages.contains_key(session_id)
    &&& state_is_loaded(session.pages[session_id])
    &&& forall|other: Seq<char>|
        #![trigger session.pages[other]]
        session.pages.contains_key(other) && state_is_loaded(session.pages[other]) && other
            != session_id ==> text_less(session_id, other)
}

/// No page has loaded.
pub open spec fn none_loaded(session: SessionSpec) -> bool {
    forall|other: Seq<char>|
        #![trigger session.pages[other]]
        session.pages.contains_key(other) ==> !state_is_loaded(session.pages[other])
}

/// What a page has received.
pub open spec fn received_by(session: SessionSpec, session_id: Seq<char>) -> Option<
    Set<Seq<char>>,
> {
    if session.pages.contains_key(session_id) {
        match session.pages[session_id] {
            PageStateSpec::Intercepting(page) => Some(page.verified),
            _ => None,
        }
    } else {
        None
    }
}

/// A deadline that the session holds.
pub open spec fn is_deadline(session: SessionSpec, time: u64) -> bool {
    ||| session.replacement == Some(time)
    ||| exists|id: Seq<char>|
        #![trigger session.pages[id]]
        session.pages.contains_key(id) && state_deadline(session.pages[id]) == Some(time)
}

pub open spec fn state_deadline(state: PageStateSpec) -> Option<u64> {
    match state {
        PageStateSpec::Intercepting(page) => page.reverify_deadline,
        _ => None,
    }
}

/// The soonest of a deadline and those that the session holds.
pub open spec fn is_soonest(session: SessionSpec, deadline: u64, soonest: u64) -> bool {
    &&& soonest <= deadline
    &&& forall|time: u64| #[trigger] is_deadline(session, time) ==> soonest <= time
    &&& soonest == deadline || is_deadline(session, soonest)
}

/// What to do while the first load is waited for.
#[derive(Debug, PartialEq, Eq)]
pub enum ReadyStep {
    /// Every required script has arrived.
    Ready,
    /// The application is stopped, and the session ends.
    Abort(SessionError),
    /// An event is waited for, up to a time.
    Wait(u64),
}

impl FastSession {
    /// The first page that has loaded.
    pub fn loaded_page_session(&self) -> (session_id: Option<&str>)
        requires
            self.well_formed(),
        ensures
            match session_id {
                Some(session_id) => is_first_loaded(self@, session_id@),
                None => none_loaded(self@),
            },
    {
        let ghost keys = self.pages.keys();
        let mut i: usize = 0;
        while i < self.pages.len()
            invariant
                self.well_formed(),
                keys == self.pages.keys(),
                i <= keys.len(),
                forall|j: int|
                    0 <= j < i ==> !state_is_loaded(self@.pages[#[trigger] keys[j]]),
            decreases keys.len() - i,
        {
            proof {
                self.pages.lemma_entry(i as int);
            }
            if self.pages.value_at(i).is_loaded() {
                let session_id = self.pages.key_at(i);
                proof {
                    assert forall|other: Seq<char>|
                        #![trigger self@.pages[other]]
                        self@.pages.contains_key(other) && state_is_loaded(self@.pages[other])
                            && other != session_id@ implies text_less(session_id@, other) by {
                        self.pages.lemma_place(other);
                        let r = rank(keys, other);
                        assert(keys[r] == other);
                    }
                }
                return Some(session_id);
            }
            i += 1;
        }
        proof {
            assert forall|other: Seq<char>|
                #![trigger self@.pages[other]]
                self@.pages.contains_key(other) implies !state_is_loaded(self@.pages[other]) by {
                self.pages.lemma_place(other);
                let r = rank(keys, other);
                assert(keys[r] == other);
            }
        }
        None
    }

    /// The required scripts that a page has not received.
    pub fn missing_resources(&self, session_id: &str) -> (missing: Vec<&str>)
        requires
            self.well_formed(),
        ensures
            texts(missing@) == missing_paths(
                self.expected_resources,
                received_by(self@, session_id@),
            ),
    {
        let verified = match self.pages.get(session_id) {
            Some(PageState::Intercepting(page)) => Some(&page.verified_resources),
            _ => None,
        };
        missing_required_resources(&self.expected_resources, verified)
    }

    /// Frees every page of its deadline that has received every required script again. Hands back
    /// what the first page whose deadline has passed has not received.
    pub fn settle_reverification_gates(&mut self, now: u64) -> (missing: Option<String>)
        requires
            old(self).well_formed(),
        ensures
            final(self).well_formed(),
            final(self).expected_resources == old(self).expected_resources,
            final(self).request_paths == old(self).request_paths,
            final(self).page_replacement_deadline == old(self).page_replacement_deadline,
            final(self).pages.keys() == old(self).pages.keys(),
            states_in_order(final(self).pages.values()) == settled(
                old(self).expected_resources,
                states_in_order(old(self).pages.values()),
            ),
            match missing {
                Some(missing) => expired_paths(
                    old(self).expected_resources,
                    states_in_order(old(self).pages.values()),
                    now,
                ) == Some(missing@),
                None => expired_paths(
                    old(self).expected_resources,
                    states_in_order(old(self).pages.values()),
                    now,
                ) is None,
            },
    {
        let ghost expected = self.expected_resources;
        let ghost states = states_in_order(self.pages.values());
        let ghost first = first_expired(expected, states, now, 0);
        proof {
            lemma_first_expired(expected, states, now, 0);
        }
        let mut expired: Option<String> = None;
        let mut i: usize = 0;
        while i < self.pages.len()
            invariant
                old(self).well_formed(),
                self.well_formed(),
                self.expected_resources == expected,
                expected == old(self).expected_resources,
                states == states_in_order(old(self).pages.values()),
                first == first_expired(expected, states, now, 0),
                first <= states.len(),
                first < states.len() ==> is_expired(expected, states[first], now),
                forall|j: int| 0 <= j < first ==> !is_expired(expected, #[trigger] states[j], now),
                self.request_paths == old(self).request_paths,
                self.page_replacement_deadline == old(self).page_replacement_deadline,
                self.pages.keys() == old(self).pages.keys(),
                match expired {
                    Some(text) => first < i && expired_paths(expected, states, now) == Some(text@),
                    None => i <= first,
                },
                i <= states.len(),
                states.len() == self.pages.keys().len(),
                self.pages.values().len() == states.len(),
                forall|j: int|
                    0 <= j < states.len() ==> (#[trigger] self.pages.values()[j])@ == if j < i {
                        lifted(expected, states[j])
                    } else {
                        states[j]
                    },
            decreases states.len() - i,
        {
            let ghost pages = self.pages;
            proof {
                self.pages.lemma_entry(i as int);
                assert(pages.values()[i as int]@ == states[i as int]);
            }
            let mut complete = false;
            if let PageState::Intercepting(page) = self.pages.value_at(i) {
                let missing = missing_required_resources(
                    &self.expected_resources,
                    Some(&page.verified_resources),
                );
                assert(texts(missing@).len() == missing@.len());
                if missing.len() == 0 {
                    complete = true;
                } else if let Some(deadline) = page.reverify_deadline {
                    if now >= deadline && expired.is_none() {
                        expired = Some(join(&missing, ", "));
                    }
                }
            }
            if complete {
                if let PageState::Intercepting(page) = self.pages.replace_at(
                    i,
                    PageState::Configuring,
                ) {
                    let mut page = page;
                    page.reverify_deadline = None;
                    let _ = self.pages.replace_at(i, PageState::Intercepting(page));
                    proof {
                        assert(self.pages.values()[i as int]@ == lifted(
                            expected,
                            states[i as int],
                        ));
                    }
                }
            }
            proof {
                assert forall|id: Seq<char>| self.pages@.contains_key(id) implies (
                #[trigger] self.pages@[id]).well_formed() by {
                    self.pages.lemma_place(id);
                    let r = rank(self.pages.keys(), id);
                    pages.lemma_entry(r);
                    assert(pages@[id].well_formed());
                }
            }
            i += 1;
        }
        assert(states_in_order(self.pages.values()) =~= settled(expected, states));
        expired
    }

    /// Looks whether the pages are still intercepted.
    pub fn ensure_page_interception(&mut self, now: u64) -> (result: Result<(), SessionError>)
        requires
            old(self).well_formed(),
        ensures
            final(self).well_formed(),
            final(self).expected_resources == old(self).expected_resources,
            final(self).request_paths == old(self).request_paths,
            final(self).page_replacement_deadline == old(self).page_replacement_deadline,
            final(self).pages.keys() == old(self).pages.keys(),
            states_in_order(final(self).pages.values()) == settled(
                old(self).expected_resources,
                states_in_order(old(self).pages.values()),
            ),
            ({
                let problem = interception_problem(
                    old(self).expected_resources,
                    states_in_order(old(self).pages.values()),
                    old(self).page_replacement_deadline,
                    now,
                );
                match result {
                    Ok(_) => problem is None,
                    Err(error) => problem == Some(error@),
                }
            }),
    {
        if let Some(missing) = self.settle_reverification_gates(now) {
            let parts: [&str; 2] = [
                "page navigated after its completed load and did not receive the Fast scripts again: ",
                missing.as_str(),
            ];
            assert(texts(parts@) =~= seq![
                "page navigated after its completed load and did not receive the Fast scripts again: "@,
                missing@,
            ]);
            return Err(SessionError::from_parts(&parts));
        }
        if let Some(deadline) = self.page_replacement_deadline {
            if now >= deadline {
                return Err(
                    SessionError::new(
                        "active page target was not replaced; Fast interception is no longer active",
                    ),
                );
            }
        }
        Ok(())
    }

    /// The soonest time at which something must be looked at.
    pub fn effective_deadline(&self, deadline: u64) -> (soonest: u64)
        requires
            self.well_formed(),
        ensures
            is_soonest(self@, deadline, soonest),
    {
        let ghost keys = self.pages.keys();
        let mut soonest = deadline;
        if let Some(replacement) = self.page_replacement_deadline {
            if replacement < soonest {
                soonest = replacement;
                assert(is_deadline(self@, soonest));
            }
        }
        let mut i: usize = 0;
        while i < self.pages.len()
            invariant
                self.well_formed(),
                keys == self.pages.keys(),
                i <= keys.len(),
                soonest <= deadline,
                self.page_replacement_deadline matches Some(replacement) ==> soonest
                    <= replacement,
                soonest == deadline || is_deadline(self@, soonest),
                forall|j: int|
                    0 <= j < i ==> (state_deadline(self@.pages[#[trigger] keys[j]]) matches Some(
                        time,
                    ) ==> soonest <= time),
            decreases keys.len() - i,
        {
            proof {
                self.pages.lemma_entry(i as int);
            }
            if let PageState::Intercepting(page) = self.pages.value_at(i) {
                if let Some(time) = page.reverify_deadline {
                    if time < soonest {
                        soonest = time;
                        assert(state_deadline(self@.pages[keys[i as int]]) == Some(time));
                        assert(is_deadline(self@, time));
                    }
                }
            }
            i += 1;
        }
        proof {
            assert forall|time: u64| #[trigger] is_deadline(self@, time) implies soonest
                <= time by {
                if self@.replacement != Some(time) {
                    let pages = self@.pages;
                    let id = choose|id: Seq<char>|
                        #![trigger pages[id]]
                        pages.contains_key(id) && state_deadline(pages[id]) == Some(time);
                    self.pages.lemma_place(id);
                    assert(keys[rank(keys, id)] == id);
                }
            }
        }
        soonest
    }

    /// What to do while the first load is waited for, which must be done by a deadline.
    pub fn ready_step(&self, now: u64, deadline: u64) -> (step: ReadyStep)
        requires
            self.well_formed(),
        ensures
            match step {
                ReadyStep::Ready => is_ready(*self),
                ReadyStep::Abort(error) => deadline <= now && is_late(*self, error@),
                ReadyStep::Wait(until) => now < deadline && !is_ready(*self) && is_soonest(
                    self@,
                    deadline,
                    until,
                ),
            },
    {
        match self.loaded_page_session() {
            Some(session_id) => {
                let missing = self.missing_resources(session_id);
                assert(texts(missing@).len() == missing@.len());
                if missing.len() == 0 {
                    return ReadyStep::Ready;
                }
                proof {
                    lemma_first_loaded_is_one(self@, session_id@);
                }
                if now >= deadline {
                    let text = join(&missing, ", ");
                    let parts: [&str; 2] = [
                        "Fast scripts were not delivered during controlled reload: ",
                        text.as_str(),
                    ];
                    assert(texts(parts@) =~= seq![
                        "Fast scripts were not delivered during controlled reload: "@,
                        text@,
                    ]);
                    return ReadyStep::Abort(SessionError::from_parts(&parts));
                }
            },
            None => {
                if now >= deadline {
                    return ReadyStep::Abort(
                        SessionError::new(
                            "controlled Fast reload timed out before the main frame finished loading",
                        ),
                    );
                }
            },
        }
        ReadyStep::Wait(self.effective_deadline(deadline))
    }
}

/// What to do while the application runs.
#[derive(Debug, PartialEq, Eq)]
pub enum AliveStep {
    /// The application exited.
    Exited(u32),
    /// The application is stopped, and the session ends.
    Abort(SessionError),
    /// An event is waited for, up to a time.
    Wait(u64),
}

impl FastSession {
    /// What to do while the application runs, before the next heartbeat.
    pub fn alive_step(&mut self, exit_code: Option<u32>, now: u64, next_heartbeat: u64) -> (step:
        AliveStep)
        requires
            old(self).well_formed(),
        ensures
            final(self).well_formed(),
            final(self).expected_resources == old(self).expected_resources,
            final(self).request_paths == old(self).request_paths,
            final(self).page_replacement_deadline == old(self).page_replacement_deadline,
            final(self).pages.keys() == old(self).pages.keys(),
            ({
                let states = states_in_order(old(self).pages.values());
                let problem = interception_problem(
                    old(self).expected_resources,
                    states,
                    old(self).page_replacement_deadline,
                    now,
                );
                &&& match step {
                    AliveStep::Exited(code) => exit_code == Some(code) && *final(self) == *old(
                        self,
                    ),
                    AliveStep::Abort(error) => exit_code is None && problem == Some(error@),
                    AliveStep::Wait(until) => {
                        &&& exit_code is None
                        &&& problem is None
                        &&& is_soonest(final(self)@, next_heartbeat, until)
                    },
                }
                &&& exit_code is None ==> states_in_order(final(self).pages.values()) == settled(
                    old(self).expected_resources,
                    states,
                )
            }),
    {
        if let Some(code) = exit_code {
            return AliveStep::Exited(code);
        }
        match self.ensure_page_interception(now) {
            Ok(_) => AliveStep::Wait(self.effective_deadline(next_heartbeat)),
            Err(error) => AliveStep::Abort(error),
        }
    }
}

/// Some page has loaded, and the first that has received every required script.
pub open spec fn is_ready(session: FastSession) -> bool {
    exists|id: Seq<char>| #[trigger]
        is_first_loaded(session@, id) && missing_paths(
            session.expected_resources,
            received_by(session@, id),
        ).len() == 0
}

/// What the session ends with when it is not ready in time.
pub open spec fn is_late(session: FastSession, message: Seq<char>) -> bool {
    &&& !is_ready(session)
    &&& none_loaded(session@) ==> message
        == "controlled Fast reload timed out before the main frame finished loading"@
    &&& forall|id: Seq<char>| #[trigger]
        is_first_loaded(session@, id) ==> message == joined(
            seq![
                "Fast scripts were not delivered during controlled reload: "@,
                separated(
                    missing_paths(session.expected_resources, received_by(session@, id)),
                    ", "@,
                ),
            ],
        )
}

/// There is at most one first page that has loaded.
pub proof fn lemma_first_loaded_is_one(session: SessionSpec, id: Seq<char>)
    requires
        is_first_loaded(session, id),
    ensures
        forall|other: Seq<char>| #[trigger] is_first_loaded(session, other) ==> other == id,
{
    assert forall|other: Seq<char>| #[trigger] is_first_loaded(session, other) implies other
        == id by {
        if other != id {
            assert(session.pages.contains_key(other));
            assert(text_less(id, other));
            assert(text_less(other, id));
            crate::text::lemma_text_less_order(id, other, id);
        }
    }
}

// ---------------------------------------------------------------------------
// Heartbeats

/// When the next heartbeat is due after one at `now`.
pub fn next_heartbeat(now: u64) -> (time: u64)
    ensures
        time == later(now, HEARTBEAT_INTERVAL),
{
    later_than(now, HEARTBEAT_INTERVAL)
}

} // verus!
