//! When a session is ready or late, and how long it waits, told from its pages.

use vstd::prelude::*;

use crate::json::JsonSpec;
use crate::runtime::page::{PageSpec, PageStateSpec};
use crate::runtime::plan::ExpectedResource;
use crate::runtime::readiness::{
    first_expired, interception_problem, is_deadline, is_expired, is_first_loaded, is_late,
    is_ready, is_soonest, lemma_first_loaded_is_one, lemma_missing_paths, missing_paths,
    none_loaded, received_by, settled, state_deadline, HEARTBEAT_INTERVAL,
};
use crate::runtime::session::{later, FastSession, SessionSpec};
use crate::runtime::steps::{setup_of, SetupStepSpec};
use crate::text::{joined, separated, text_less};
use crate::text_map::TextMap;

verus! {

/// A page has loaded its document.
pub open spec fn has_loaded(session: SessionSpec, id: Seq<char>) -> bool {
    session.pages.contains_key(id) && (session.pages[id] matches PageStateSpec::Intercepting(page)
        && page.loaded)
}

/// The page that has loaded and whose id comes before that of every other that has.
pub open spec fn loaded_first(session: SessionSpec, id: Seq<char>) -> bool {
    &&& has_loaded(session, id)
    &&& forall|other: Seq<char>| #[trigger] has_loaded(session, other) && other != id ==> text_less(
        id,
        other,
    )
}

/// A page lacks a script that must arrive.
pub open spec fn lacks(session: FastSession, page: PageSpec, path: Seq<char>) -> bool {
    &&& session.expected_resources@.contains_key(path)
    &&& session.expected_resources@[path].required_for_ready
    &&& !page.verified.contains(path)
}

proof fn lemma_loaded_first(session: SessionSpec, id: Seq<char>)
    ensures
        loaded_first(session, id) <==> is_first_loaded(session, id),
{
    if loaded_first(session, id) {
        assert forall|other: Seq<char>|
            #![trigger session.pages[other]]
            session.pages.contains_key(other) && crate::runtime::page::state_is_loaded(
                session.pages[other],
            ) && other != id implies text_less(id, other) by {
            assert(has_loaded(session, other));
        }
    }
    if is_first_loaded(session, id) {
        assert forall|other: Seq<char>| #[trigger] has_loaded(session, other) && other
            != id implies text_less(id, other) by {
            assert(session.pages.contains_key(other));
            let state = session.pages[other];
        }
    }
}

/// A session is ready exactly when the first page that has loaded lacks no script that must
/// arrive.
pub proof fn lemma_ready_when_nothing_is_lacking(session: FastSession, id: Seq<char>)
    requires
        session.well_formed(),
        loaded_first(session@, id),
    ensures
        is_ready(session) <==> forall|path: Seq<char>|
            !#[trigger] lacks(session, session@.pages[id]->Intercepting_0, path),
{
    lemma_loaded_first(session@, id);
    lemma_first_loaded_is_one(session@, id);
    let page = session@.pages[id]->Intercepting_0;
    let missing = missing_paths(session.expected_resources, received_by(session@, id));
    assert forall|path: Seq<char>| #[trigger] lacks(session, page, path) == missing.contains(
        path,
    ) by {
        lemma_missing_paths(session.expected_resources, received_by(session@, id), path);
    }
    if missing.len() == 0 {
        assert(is_first_loaded(session@, id));
    } else {
        assert(missing.contains(missing[0]));
        assert(lacks(session, page, missing[0]));
    }
}

/// Without a page that has loaded a session is not ready.
pub proof fn lemma_not_ready_without_a_load(session: FastSession)
    requires
        forall|id: Seq<char>| !#[trigger] has_loaded(session@, id),
    ensures
        !is_ready(session),
        forall|message: Seq<char>| #[trigger]
            is_late(session, message) ==> message
                == "controlled Fast reload timed out before the main frame finished loading"@,
{
    assert forall|id: Seq<char>| !#[trigger] is_first_loaded(session@, id) by {
        assert(!has_loaded(session@, id));
    }
    assert forall|message: Seq<char>| #[trigger] is_late(session, message) implies message
        == "controlled Fast reload timed out before the main frame finished loading"@ by {
        assert(none_loaded(session@)) by {
            assert forall|other: Seq<char>|
                #![trigger session@.pages[other]]
                session@.pages.contains_key(
                    other,
                ) implies !crate::runtime::page::state_is_loaded(session@.pages[other]) by {
                assert(!has_loaded(session@, other));
            }
        }
    }
}

/// What ends a late session names every script that the first page that has loaded lacks, and no
/// other.
pub proof fn lemma_late_session_names_what_is_lacking(
    session: FastSession,
    id: Seq<char>,
    message: Seq<char>,
    path: Seq<char>,
)
    requires
        session.well_formed(),
        loaded_first(session@, id),
        is_late(session, message),
    ensures
        ({
            let missing = missing_paths(session.expected_resources, received_by(session@, id));
            &&& message == "Fast scripts were not delivered during controlled reload: "@
                + separated(missing, ", "@)
            &&& missing.contains(path) <==> lacks(
                session,
                session@.pages[id]->Intercepting_0,
                path,
            )
        }),
{
    lemma_loaded_first(session@, id);
    let missing = missing_paths(session.expected_resources, received_by(session@, id));
    lemma_missing_paths(session.expected_resources, received_by(session@, id), path);
    let prefix = "Fast scripts were not delivered during controlled reload: "@;
    let names = separated(missing, ", "@);
    assert(joined(seq![prefix, names]) =~= prefix + names) by {
        reveal_with_fuel(joined, 3);
    }
}

// ---------------------------------------------------------------------------
// Pages that are too late

/// A page that must receive scripts again is past its time and still lacks one.
pub open spec fn is_past(
    expected: TextMap<ExpectedResource>,
    state: PageStateSpec,
    now: u64,
) -> bool {
    &&& state matches PageStateSpec::Intercepting(page)
    &&& page.reverify_deadline matches Some(deadline)
    &&& now >= deadline
    &&& exists|path: Seq<char>| #[trigger]
        expected@.contains_key(path) && expected@[path].required_for_ready
            && !page.verified.contains(path)
}

proof fn lemma_past_is_expired(
    expected: TextMap<ExpectedResource>,
    state: PageStateSpec,
    now: u64,
)
    requires
        expected.well_formed(),
    ensures
        is_past(expected, state, now) <==> is_expired(expected, state, now),
{
    if let PageStateSpec::Intercepting(page) = state {
        let missing = missing_paths(expected, Some(page.verified));
        if missing.len() > 0 {
            lemma_missing_paths(expected, Some(page.verified), missing[0]);
            assert(missing.contains(missing[0]));
            assert(expected@.contains_key(missing[0]));
        }
        if is_past(expected, state, now) {
            let path = choose|path: Seq<char>| #[trigger]
                expected@.contains_key(path) && expected@[path].required_for_ready
                    && !page.verified.contains(path);
            lemma_missing_paths(expected, Some(page.verified), path);
            assert(missing.contains(path));
        }
    }
}

proof fn lemma_first_past(
    expected: TextMap<ExpectedResource>,
    states: Seq<PageStateSpec>,
    now: u64,
    from: int,
)
    requires
        0 <= from <= states.len(),
    ensures
        ({
            let first = first_expired(expected, states, now, from);
            &&& from <= first <= states.len()
            &&& first < states.len() ==> is_expired(expected, states[first], now)
            &&& forall|j: int|
                from <= j < first ==> !is_expired(expected, #[trigger] states[j], now)
        }),
    decreases states.len() - from,
{
    if from < states.len() && !is_expired(expected, states[from], now) {
        lemma_first_past(expected, states, now, from + 1);
    }
}

/// A page past its time ends the session, and what ends it names what that page lacks. Without
/// one, only the time for another page to take the place of the last does.
pub proof fn lemma_page_past_its_time_ends_the_session(
    expected: TextMap<ExpectedResource>,
    states: Seq<PageStateSpec>,
    replacement: Option<u64>,
    now: u64,
)
    requires
        expected.well_formed(),
    ensures
        ({
            let problem = interception_problem(expected, states, replacement, now);
            let some_past = exists|i: int|
                0 <= i < states.len() && #[trigger] is_past(expected, states[i], now);
            &&& some_past ==> exists|i: int|
                0 <= i < states.len() && #[trigger] is_past(expected, states[i], now) && problem
                    == Some(
                    "page navigated after its completed load and did not receive the Fast scripts again: "@
                        + separated(
                        missing_paths(expected, Some(states[i]->Intercepting_0.verified)),
                        ", "@,
                    ),
                )
            &&& !some_past && (replacement matches Some(time) && time <= now) ==> problem == Some(
                "active page target was not replaced; Fast interception is no longer active"@,
            )
            &&& !some_past && !(replacement matches Some(time) && time <= now) ==> problem is None
        }),
{
    let first = first_expired(expected, states, now, 0);
    lemma_first_past(expected, states, now, 0);
    assert forall|i: int| 0 <= i < states.len() implies #[trigger] is_past(
        expected,
        states[i],
        now,
    ) == is_expired(expected, states[i], now) by {
        lemma_past_is_expired(expected, states[i], now);
    }
    if first < states.len() {
        let names = separated(
            missing_paths(expected, Some(states[first]->Intercepting_0.verified)),
            ", "@,
        );
        let prefix = "page navigated after its completed load and did not receive the Fast scripts again: "@;
        assert(joined(seq![prefix, names]) =~= prefix + names) by {
            reveal_with_fuel(joined, 3);
        }
        assert(is_past(expected, states[first], now));
    } else {
        assert forall|i: int| 0 <= i < states.len() implies !#[trigger] is_past(
            expected,
            states[i],
            now,
        ) by {
            assert(!is_expired(expected, states[i], now));
        }
    }
}

/// Looking at the pages changes nothing of a page but its time, and that only where it lacks
/// nothing.
pub proof fn lemma_only_the_time_is_lifted(
    expected: TextMap<ExpectedResource>,
    states: Seq<PageStateSpec>,
    i: int,
)
    requires
        0 <= i < states.len(),
    ensures
        settled(expected, states).len() == states.len(),
        ({
            let after = settled(expected, states)[i];
            match states[i] {
                PageStateSpec::Intercepting(page) => {
                    &&& after matches PageStateSpec::Intercepting(kept)
                    &&& kept.frame_id == page.frame_id
                    &&& kept.loader_id == page.loader_id
                    &&& kept.loaded == page.loaded
                    &&& kept.first_load_completed == page.first_load_completed
                    &&& kept.verified == page.verified
                    &&& kept.pending == page.pending
                    &&& kept.reverify_deadline is None || kept.reverify_deadline
                        == page.reverify_deadline
                },
                _ => after == states[i],
            }
        }),
{
}

// ---------------------------------------------------------------------------
// How long to wait

/// Nothing that the session has a time for is slept through, and nothing wakes it sooner.
pub proof fn lemma_wait_ends_at_the_next_time(
    session: SessionSpec,
    deadline: u64,
    until: u64,
    id: Seq<char>,
)
    requires
        is_soonest(session, deadline, until),
    ensures
        until <= deadline,
        session.replacement matches Some(time) ==> until <= time,
        session.pages.contains_key(id) ==> (
        session.pages[id] matches PageStateSpec::Intercepting(page) ==> (
        page.reverify_deadline matches Some(time) ==> until <= time)),
        until == deadline || session.replacement == Some(until) || exists|other: Seq<char>|
            #![trigger session.pages[other]]
            session.pages.contains_key(other) && (
            session.pages[other] matches PageStateSpec::Intercepting(page)
                && page.reverify_deadline == Some(until)),
{
    if let Some(time) = session.replacement {
        assert(is_deadline(session, time));
    }
    if session.pages.contains_key(id) {
        if let PageStateSpec::Intercepting(page) = session.pages[id] {
            if let Some(time) = page.reverify_deadline {
                assert(state_deadline(session.pages[id]) == Some(time));
                assert(is_deadline(session, time));
            }
        }
    }
    if until != deadline && session.replacement != Some(until) {
        let other = choose|other: Seq<char>|
            #![trigger session.pages[other]]
            session.pages.contains_key(other) && state_deadline(session.pages[other]) == Some(
                until,
            );
        assert(session.pages.contains_key(other));
    }
}

/// Heartbeats are half a minute apart, and the times of a machine end where its clock does.
pub proof fn lemma_times_do_not_wrap(now: u64, delay: u64)
    ensures
        now <= u64::MAX - delay ==> later(now, delay) == now + delay,
        now > u64::MAX - delay ==> later(now, delay) == u64::MAX,
        now <= u64::MAX - 30_000 ==> later(now, HEARTBEAT_INTERVAL) == now + 30_000,
{
}

// ---------------------------------------------------------------------------
// The setup

/// Each report of a page is asked for before the page runs, and its answer waited for before the
/// page's document is looked at.
pub proof fn lemma_reports_are_asked_for_and_awaited(paths: Seq<Seq<char>>)
    ensures
        ({
            let steps = setup_of(paths);
            let run = SetupStepSpec::Send {
                method: "Runtime.runIfWaitingForDebugger"@,
                params: None,
            };
            let look = SetupStepSpec::Send { method: "Page.getFrameTree"@, params: None };
            let cache = JsonSpec::Object(seq![("cacheDisabled"@, JsonSpec::Bool(true))]);
            let lifecycle = JsonSpec::Object(seq![("enabled"@, JsonSpec::Bool(true))]);
            &&& is_asked_between(steps, "Page.enable"@, None, run, look)
            &&& is_asked_between(steps, "Network.enable"@, None, run, look)
            &&& is_asked_between(steps, "Network.setCacheDisabled"@, Some(cache), run, look)
            &&& is_asked_between(
                steps,
                "Page.setLifecycleEventsEnabled"@,
                Some(lifecycle),
                run,
                look,
            )
            &&& steps.last() == look
        }),
{
    let steps = setup_of(paths);
    let run = SetupStepSpec::Send { method: "Runtime.runIfWaitingForDebugger"@, params: None };
    let look = SetupStepSpec::Send { method: "Page.getFrameTree"@, params: None };
    let cache = JsonSpec::Object(seq![("cacheDisabled"@, JsonSpec::Bool(true))]);
    let lifecycle = JsonSpec::Object(seq![("enabled"@, JsonSpec::Bool(true))]);
    assert(is_asked_at(steps, "Page.enable"@, None, run, look, 1, 5, 6, 10));
    assert(is_asked_at(steps, "Network.enable"@, None, run, look, 2, 5, 7, 10));
    assert(is_asked_at(steps, "Network.setCacheDisabled"@, Some(cache), run, look, 3, 5, 8, 10));
    assert(is_asked_at(
        steps,
        "Page.setLifecycleEventsEnabled"@,
        Some(lifecycle),
        run,
        look,
        4,
        5,
        9,
        10,
    ));
}

/// A command is started before one step and awaited between it and another, at these places.
pub open spec fn is_asked_at(
    steps: Seq<SetupStepSpec>,
    method: Seq<char>,
    params: Option<JsonSpec>,
    first: SetupStepSpec,
    second: SetupStepSpec,
    started: int,
    ran: int,
    awaited: int,
    looked: int,
) -> bool {
    &&& 0 <= started < ran < awaited < looked < steps.len()
    &&& steps[started] == (SetupStepSpec::Start { method, params })
    &&& steps[ran] == first
    &&& steps[awaited] == (SetupStepSpec::Await { method })
    &&& steps[looked] == second
}

/// A command is started before one step and awaited between it and another.
pub open spec fn is_asked_between(
    steps: Seq<SetupStepSpec>,
    method: Seq<char>,
    params: Option<JsonSpec>,
    first: SetupStepSpec,
    second: SetupStepSpec,
) -> bool {
    exists|started: int, ran: int, awaited: int, looked: int| #[trigger]
        is_asked_at(steps, method, params, first, second, started, ran, awaited, looked)
}

} // verus!
