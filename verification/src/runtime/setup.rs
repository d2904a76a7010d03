//! Setting up a page, command by command.

use vstd::prelude::*;

use crate::cdp::{optional_json, CdpError, CdpErrorSpec};
use crate::json::{Json, JsonSpec};
use crate::runtime::requests::all_patterns;
use crate::runtime::session::{FastSession, SessionSpec};
use crate::runtime::steps::{
    configured_step, setup_of, setup_view, single, EventStep, EventStepSpec, SetupStep,
    SetupStepSpec,
};
use crate::text_map::TextMap;

verus! {

// ---------------------------------------------------------------------------
// Progress

/// How far the setup of a page has come, for specifications.
#[verifier::ext_equal]
pub struct ProgressSpec {
    pub session_id: Seq<char>,
    pub steps: Seq<SetupStepSpec>,
    /// The step that is being taken, their number when all are done.
    pub at: int,
    /// That step was handed out.
    pub waiting: bool,
    /// The ids of the commands that were started.
    pub started: Map<Seq<char>, u32>,
    /// The error that a command was answered with.
    pub failed: Option<CdpErrorSpec>,
}

/// How far the setup of a page has come.
pub struct SetupProgress {
    session_id: String,
    steps: Vec<SetupStep>,
    at: usize,
    waiting: bool,
    started: TextMap<u32>,
    failed: Option<CdpError>,
}

pub open spec fn optional_error(error: Option<CdpError>) -> Option<CdpErrorSpec> {
    match error {
        Some(error) => Some(error@),
        None => None,
    }
}

impl View for SetupProgress {
    type V = ProgressSpec;

    closed spec fn view(&self) -> ProgressSpec {
        ProgressSpec {
            session_id: self.session_id@,
            steps: setup_view(self.steps@),
            at: self.at as int,
            waiting: self.waiting,
            started: self.started@,
            failed: optional_error(self.failed),
        }
    }
}

/// A step that starts a command.
pub open spec fn starts(step: SetupStepSpec, method: Seq<char>) -> bool {
    step matches SetupStepSpec::Start { method: started, .. } && started == method
}

/// A response is waited for only after its command was started, and the commands that were
/// started have their ids.
pub open spec fn is_sound(progress: ProgressSpec) -> bool {
    &&& 0 <= progress.at <= progress.steps.len()
    &&& forall|j: int|
        0 <= j < progress.steps.len() ==> (
        #[trigger] progress.steps[j] matches SetupStepSpec::Await { method } ==> exists|i: int|
            0 <= i < j && #[trigger] starts(progress.steps[i], method))
    &&& forall|i: int, method: Seq<char>|
        0 <= i < progress.at && #[trigger] starts(progress.steps[i], method)
            ==> progress.started.contains_key(method)
}

impl SetupProgress {
    pub closed spec fn well_formed(&self) -> bool {
        &&& self.started.well_formed()
        &&& is_sound(self@)
    }
}

/// The setup of a page before its first command.
pub open spec fn begun(session_id: Seq<char>, paths: Seq<Seq<char>>) -> ProgressSpec {
    ProgressSpec {
        session_id,
        steps: setup_of(paths),
        at: 0,
        waiting: false,
        started: Map::empty(),
        failed: None,
    }
}

// ---------------------------------------------------------------------------
// Turns

/// What became of a step, for specifications.
pub enum ReplySpec {
    Started(u32),
    Answered(Result<JsonSpec, CdpErrorSpec>),
}

/// What became of a step.
#[derive(Debug, PartialEq, Eq)]
pub enum SetupReply {
    /// The command was sent, with this id.
    Started(u32),
    /// The command was answered.
    Answered(Result<Json, CdpError>),
}

impl View for SetupReply {
    type V = ReplySpec;

    open spec fn view(&self) -> ReplySpec {
        match *self {
            SetupReply::Started(id) => ReplySpec::Started(id),
            SetupReply::Answered(Ok(json)) => ReplySpec::Answered(Ok(json@)),
            SetupReply::Answered(Err(error)) => ReplySpec::Answered(Err(error@)),
        }
    }
}

pub open spec fn optional_reply(reply: Option<SetupReply>) -> Option<ReplySpec> {
    match reply {
        Some(reply) => Some(reply@),
        None => None,
    }
}

/// What to do next for the setup of a page, for specifications.
pub enum TurnSpec {
    Send { session_id: Seq<char>, method: Seq<char>, params: Option<JsonSpec> },
    Start { session_id: Seq<char>, method: Seq<char>, params: Option<JsonSpec> },
    Await { method: Seq<char>, id: u32 },
    Finish(EventStepSpec),
    Fail(CdpErrorSpec),
}

/// What to do next for the setup of a page.
#[derive(Debug, PartialEq, Eq)]
pub enum SetupTurn {
    /// A command is sent, and its response waited for.
    Send { session_id: String, method: &'static str, params: Option<Json> },
    /// A command is sent.
    Start { session_id: String, method: &'static str, params: Option<Json> },
    /// The response to the command with this id is waited for.
    Await { method: &'static str, id: u32 },
    /// The page is set up, and this is to be done about it.
    Finish(EventStep),
    /// The setup ends with the error that a command was answered with.
    Fail(CdpError),
}

impl View for SetupTurn {
    type V = TurnSpec;

    open spec fn view(&self) -> TurnSpec {
        match *self {
            SetupTurn::Send { session_id, method, params } => TurnSpec::Send {
                session_id: session_id@,
                method: method@,
                params: optional_json(params),
            },
            SetupTurn::Start { session_id, method, params } => TurnSpec::Start {
                session_id: session_id@,
                method: method@,
                params: optional_json(params),
            },
            SetupTurn::Await { method, id } => TurnSpec::Await { method: method@, id },
            SetupTurn::Finish(step) => TurnSpec::Finish(step@),
            SetupTurn::Fail(error) => TurnSpec::Fail(error@),
        }
    }
}

/// The progress after a reply. An answer with a result, or the id of a command that was to be
/// started, completes the step that was handed out; an answer with an error ends the setup.
pub open spec fn advanced(progress: ProgressSpec, reply: Option<ReplySpec>) -> ProgressSpec {
    if !progress.waiting || progress.failed is Some || progress.at >= progress.steps.len() {
        ProgressSpec { waiting: true, ..progress }
    } else {
        match (progress.steps[progress.at], reply) {
            (SetupStepSpec::Start { method, .. }, Some(ReplySpec::Started(id))) => ProgressSpec {
                at: progress.at + 1,
                started: progress.started.insert(method, id),
                ..progress
            },
            (SetupStepSpec::Start { .. }, _) => progress,
            (_, Some(ReplySpec::Answered(Ok(_)))) => ProgressSpec {
                at: progress.at + 1,
                ..progress
            },
            (_, Some(ReplySpec::Answered(Err(error)))) => ProgressSpec {
                failed: Some(error),
                ..progress
            },
            _ => progress,
        }
    }
}

/// The step that is being taken, as it is handed out.
pub open spec fn current_turn(progress: ProgressSpec) -> TurnSpec {
    match progress.steps[progress.at] {
        SetupStepSpec::Send { method, params } => TurnSpec::Send {
            session_id: progress.session_id,
            method,
            params,
        },
        SetupStepSpec::Start { method, params } => TurnSpec::Start {
            session_id: progress.session_id,
            method,
            params,
        },
        SetupStepSpec::Await { method } => TurnSpec::Await {
            method,
            id: progress.started[method],
        },
    }
}

/// What a reply brings about: the next step; with an error, that error, then and ever after;
/// with the last answer, what the main frame that it shows asks for.
pub open spec fn turn_of(
    session: SessionSpec,
    progress: ProgressSpec,
    reply: Option<ReplySpec>,
) -> (SessionSpec, ProgressSpec, TurnSpec) {
    let next = advanced(progress, reply);
    match next.failed {
        Some(error) => (session, next, TurnSpec::Fail(error)),
        None => if next.at < next.steps.len() {
            (session, next, current_turn(next))
        } else {
            match reply {
                Some(ReplySpec::Answered(Ok(answer))) if progress.at < next.at => {
                    let (after, step) = configured_step(session, progress.session_id, answer);
                    (after, next, TurnSpec::Finish(step))
                },
                _ => (session, next, TurnSpec::Finish(EventStepSpec::Done)),
            }
        },
    }
}

fn copy_params(params: &Option<Json>) -> (copy: Option<Json>)
    ensures
        optional_json(copy) == optional_json(*params),
{
    match params {
        Some(params) => Some(params.copy()),
        None => None,
    }
}

impl SetupProgress {
    /// Takes a reply, and hands back the answer that completed a step.
    fn advance(&mut self, reply: Option<SetupReply>) -> (answer: Option<Json>)
        requires
            old(self).well_formed(),
        ensures
            final(self).well_formed(),
            final(self)@ == advanced(old(self)@, optional_reply(reply)),
            optional_json(answer) == (match optional_reply(reply) {
                Some(ReplySpec::Answered(Ok(answer))) if old(self)@.at < final(self)@.at => Some(
                    answer,
                ),
                _ => None,
            }),
    {
        let ghost before = self@;
        if !self.waiting || self.failed.is_some() || self.at >= self.steps.len() {
            self.waiting = true;
            return None;
        }
        assert(before.steps[before.at] == self.steps@[self.at as int]@);
        match &self.steps[self.at] {
            SetupStep::Start { method, .. } => {
                if let Some(SetupReply::Started(id)) = reply {
                    let method = *method;
                    let _ = self.started.insert(method.to_owned(), id);
                    self.at += 1;
                    assert(self@ =~= advanced(before, optional_reply(reply)));
                }
                None
            },
            _ => match reply {
                Some(SetupReply::Answered(Ok(answer))) => {
                    self.at += 1;
                    assert(self@ =~= advanced(before, optional_reply(reply)));
                    Some(answer)
                },
                Some(SetupReply::Answered(Err(error))) => {
                    self.failed = Some(error);
                    assert(self@ =~= advanced(before, optional_reply(reply)));
                    None
                },
                _ => None,
            },
        }
    }

    /// Hands out the step that is being taken.
    fn current(&self) -> (turn: SetupTurn)
        requires
            self.well_formed(),
            self@.at < self@.steps.len(),
        ensures
            turn@ == current_turn(self@),
    {
        let ghost progress = self@;
        assert(progress.steps[progress.at] == self.steps@[self.at as int]@);
        match &self.steps[self.at] {
            SetupStep::Send { method, params } => SetupTurn::Send {
                session_id: self.session_id.as_str().to_owned(),
                method: *method,
                params: copy_params(params),
            },
            SetupStep::Start { method, params } => SetupTurn::Start {
                session_id: self.session_id.as_str().to_owned(),
                method: *method,
                params: copy_params(params),
            },
            SetupStep::Await { method } => {
                proof {
                    let i = choose|i: int|
                        0 <= i < progress.at && #[trigger] starts(progress.steps[i], method@);
                    assert(starts(progress.steps[i], method@));
                }
                let id: u32 = *self.started.get(*method).unwrap();
                SetupTurn::Await { method: *method, id }
            },
        }
    }
}

impl FastSession {
    /// The setup of a page, to be taken turn by turn.
    pub fn begin_setup(&self, session_id: &str) -> (progress: SetupProgress)
        requires
            self.well_formed(),
        ensures
            progress.well_formed(),
            progress@ == begun(session_id@, self.request_paths.keys()),
    {
        let progress = SetupProgress {
            session_id: session_id.to_owned(),
            steps: self.setup_steps(),
            at: 0,
            waiting: false,
            started: TextMap::new(),
            failed: None,
        };
        proof {
            lemma_begun_is_sound(session_id@, self.request_paths.keys());
            assert(progress@ =~= begun(session_id@, self.request_paths.keys()));
        }
        progress
    }

    /// Takes what became of the step that was handed out last, and hands out the next. The
    /// first turn is asked for without a reply. What does not answer a step leaves it where it
    /// was.
    pub fn setup_turn(&mut self, progress: &mut SetupProgress, reply: Option<SetupReply>) -> (turn:
        SetupTurn)
        requires
            old(self).well_formed(),
            old(progress).well_formed(),
        ensures
            final(self).well_formed(),
            final(self).expected_resources == old(self).expected_resources,
            final(self).request_paths == old(self).request_paths,
            final(progress).well_formed(),
            (final(self)@, final(progress)@, turn@) == turn_of(
                old(self)@,
                old(progress)@,
                optional_reply(reply),
            ),
    {
        let answer = progress.advance(reply);
        if let Some(error) = &progress.failed {
            return SetupTurn::Fail(error.copy());
        }
        if progress.at < progress.steps.len() {
            return progress.current();
        }
        match answer {
            Some(frame_tree) => SetupTurn::Finish(
                self.finish_configuration(progress.session_id.as_str(), &frame_tree),
            ),
            None => SetupTurn::Finish(EventStep::Done),
        }
    }
}

// ---------------------------------------------------------------------------
// Laws

/// The progress after some replies.
pub open spec fn progressed(
    start: ProgressSpec,
    replies: Seq<Option<ReplySpec>>,
) -> ProgressSpec
    decreases replies.len(),
{
    if replies.len() == 0 {
        start
    } else {
        advanced(progressed(start, replies.drop_last()), replies.last())
    }
}

/// What is handed out for the last of some replies, while the session is in this state.
pub open spec fn turn_after(
    session: SessionSpec,
    start: ProgressSpec,
    replies: Seq<Option<ReplySpec>>,
) -> TurnSpec {
    turn_of(session, progressed(start, replies.drop_last()), replies.last()).2
}

/// The command that arms the interception of all planned requests.
pub open spec fn arming(session_id: Seq<char>, paths: Seq<Seq<char>>) -> TurnSpec {
    TurnSpec::Send {
        session_id,
        method: "Fetch.enable"@,
        params: Some(single("patterns"@, JsonSpec::Array(all_patterns(paths)))),
    }
}

/// The command that lets a page run.
pub open spec fn running(session_id: Seq<char>) -> TurnSpec {
    TurnSpec::Send { session_id, method: "Runtime.runIfWaitingForDebugger"@, params: None }
}

/// A turn that ends with an answer.
pub open spec fn asks(turn: TurnSpec) -> bool {
    turn is Send || turn is Await
}

proof fn lemma_progressed(start: ProgressSpec, replies: Seq<Option<ReplySpec>>, n: int)
    requires
        0 <= n < replies.len(),
    ensures
        progressed(start, replies.take(n + 1)) == advanced(
            progressed(start, replies.take(n)),
            replies[n],
        ),
{
    assert(replies.take(n + 1).drop_last() =~= replies.take(n));
}

/// Steps and session stay what they are, and every turn hands something out.
proof fn lemma_kept(start: ProgressSpec, replies: Seq<Option<ReplySpec>>, n: int)
    requires
        0 <= n <= replies.len(),
    ensures
        progressed(start, replies.take(n)).steps == start.steps,
        progressed(start, replies.take(n)).session_id == start.session_id,
        n > 0 ==> progressed(start, replies.take(n)).waiting,
        start.at <= progressed(start, replies.take(n)).at,
    decreases n,
{
    if n > 0 {
        lemma_kept(start, replies, n - 1);
        lemma_progressed(start, replies, n - 1);
    }
}

proof fn lemma_failed_stays(start: ProgressSpec, replies: Seq<Option<ReplySpec>>, k: int, n: int)
    requires
        0 <= k <= n <= replies.len(),
        progressed(start, replies.take(k)).failed is Some,
    ensures
        progressed(start, replies.take(n)).failed == progressed(start, replies.take(k)).failed,
    decreases n - k,
{
    if k < n {
        lemma_failed_stays(start, replies, k, n - 1);
        lemma_progressed(start, replies, n - 1);
    }
}

/// A command that is answered with an error ends the setup: that error is all that is handed
/// out from then on, whatever else is replied and whatever the session went through.
pub proof fn lemma_error_ends_setup(
    before: SessionSpec,
    session: SessionSpec,
    start: ProgressSpec,
    replies: Seq<Option<ReplySpec>>,
    k: int,
    error: CdpErrorSpec,
)
    requires
        0 < k < replies.len(),
        asks(turn_after(before, start, replies.take(k))),
        replies[k] == Some(ReplySpec::Answered(Err(error))),
    ensures
        turn_after(session, start, replies) == TurnSpec::Fail(error),
        turn_of(session, progressed(start, replies.drop_last()), replies.last()).0 == session,
{
    let n = replies.len() as int;
    assert(replies.take(k).drop_last() =~= replies.take(k - 1));
    lemma_progressed(start, replies, k - 1);
    lemma_progressed(start, replies, k);
    lemma_kept(start, replies, k);
    assert(progressed(start, replies.take(k + 1)).failed == Some(error));
    lemma_failed_stays(start, replies, k + 1, n);
    assert(replies.take(n) =~= replies);
    assert(replies.drop_last() =~= replies.take(n - 1));
}

/// A reply is the result of a command that was handed out just before.
pub open spec fn is_result_of(
    session: SessionSpec,
    start: ProgressSpec,
    replies: Seq<Option<ReplySpec>>,
    k: int,
    turn: TurnSpec,
) -> bool {
    &&& 0 < k < replies.len()
    &&& turn_after(session, start, replies.take(k)) == turn
    &&& replies[k] matches Some(ReplySpec::Answered(Ok(_)))
}

proof fn lemma_armed(
    session: SessionSpec,
    session_id: Seq<char>,
    paths: Seq<Seq<char>>,
    replies: Seq<Option<ReplySpec>>,
    n: int,
) -> (k: int)
    requires
        0 <= n <= replies.len(),
        progressed(begun(session_id, paths), replies.take(n)).at > 0,
    ensures
        k < n,
        is_result_of(session, begun(session_id, paths), replies, k, arming(session_id, paths)),
    decreases n,
{
    let start = begun(session_id, paths);
    assert(n > 0);
    lemma_progressed(start, replies, n - 1);
    let last = progressed(start, replies.take(n - 1));
    lemma_kept(start, replies, n - 1);
    if last.at > 0 {
        lemma_armed(session, session_id, paths, replies, n - 1)
    } else {
        let k = n - 1;
        assert(last.at == 0 && last.waiting && last.failed is None);
        assert(k > 0);
        assert(replies.take(k).drop_last() =~= replies.take(k - 1));
        lemma_progressed(start, replies, k - 1);
        assert(replies.take(k).last() == replies[k - 1]);
        assert(turn_after(session, start, replies.take(k)) == arming(session_id, paths));
        k
    }
}

/// A page is told to run only after the interception of all planned requests was asked for and
/// answered with a result.
pub proof fn lemma_runs_only_armed(
    session: SessionSpec,
    session_id: Seq<char>,
    paths: Seq<Seq<char>>,
    replies: Seq<Option<ReplySpec>>,
)
    requires
        replies.len() > 0,
        turn_after(session, begun(session_id, paths), replies) == running(session_id),
    ensures
        exists|k: int| #[trigger]
            is_result_of(session, begun(session_id, paths), replies, k, arming(session_id, paths)),
{
    let start = begun(session_id, paths);
    let n = replies.len() as int;
    assert(replies.take(n) =~= replies);
    lemma_kept(start, replies, n);
    let now = progressed(start, replies);
    assert(now.at > 0) by {
        reveal_strlit("Fetch.enable");
        reveal_strlit("Runtime.runIfWaitingForDebugger");
        assert("Fetch.enable"@.len() != "Runtime.runIfWaitingForDebugger"@.len());
    }
    let k = lemma_armed(session, session_id, paths, replies, n);
}

/// A reply is the id of a command that was handed out just before.
pub open spec fn is_id_of(
    session: SessionSpec,
    start: ProgressSpec,
    replies: Seq<Option<ReplySpec>>,
    k: int,
    method: Seq<char>,
    id: u32,
) -> bool {
    &&& 0 < k < replies.len()
    &&& turn_after(session, start, replies.take(k)) matches TurnSpec::Start { method: started, .. }
        && started == method
    &&& replies[k] == Some(ReplySpec::Started(id))
}

proof fn lemma_started(
    session: SessionSpec,
    session_id: Seq<char>,
    paths: Seq<Seq<char>>,
    replies: Seq<Option<ReplySpec>>,
    n: int,
    method: Seq<char>,
) -> (k: int)
    requires
        0 <= n <= replies.len(),
        progressed(begun(session_id, paths), replies.take(n)).started.contains_key(method),
    ensures
        k < n,
        is_id_of(
            session,
            begun(session_id, paths),
            replies,
            k,
            method,
            progressed(begun(session_id, paths), replies.take(n)).started[method],
        ),
    decreases n,
{
    let start = begun(session_id, paths);
    assert(n > 0);
    lemma_progressed(start, replies, n - 1);
    let last = progressed(start, replies.take(n - 1));
    let now = progressed(start, replies.take(n));
    lemma_kept(start, replies, n - 1);
    if last.started.contains_key(method) && now.started[method] == last.started[method] {
        lemma_started(session, session_id, paths, replies, n - 1, method)
    } else {
        let k = n - 1;
        assert(k > 0);
        assert(replies.take(k).drop_last() =~= replies.take(k - 1));
        lemma_progressed(start, replies, k - 1);
        assert(replies.take(k).last() == replies[k - 1]);
        k
    }
}

/// A response is waited for under the id with which its command was started.
pub proof fn lemma_awaits_what_was_started(
    session: SessionSpec,
    session_id: Seq<char>,
    paths: Seq<Seq<char>>,
    replies: Seq<Option<ReplySpec>>,
    method: Seq<char>,
    id: u32,
)
    requires
        replies.len() > 0,
        turn_after(session, begun(session_id, paths), replies) == (TurnSpec::Await { method, id }),
    ensures
        exists|k: int| #[trigger]
            is_id_of(session, begun(session_id, paths), replies, k, method, id),
{
    let start = begun(session_id, paths);
    let n = replies.len() as int;
    assert(replies.take(n) =~= replies);
    lemma_begun_is_sound(session_id, paths);
    lemma_started_before(start, replies, n);
    lemma_kept(start, replies, n);
    let now = progressed(start, replies);
    assert(now.started.contains_key(method) && now.started[method] == id) by {
        assert(now.steps[now.at] == (SetupStepSpec::Await { method }));
        let i = choose|i: int| 0 <= i < now.at && #[trigger] starts(now.steps[i], method);
        assert(starts(now.steps[i], method));
    }
    let k = lemma_started(session, session_id, paths, replies, n, method);
}

proof fn lemma_begun_is_sound(session_id: Seq<char>, paths: Seq<Seq<char>>)
    ensures
        is_sound(begun(session_id, paths)),
{
    let steps = setup_of(paths);
    assert forall|j: int| 0 <= j < steps.len() implies (
    #[trigger] steps[j] matches SetupStepSpec::Await { method } ==> exists|i: int|
        0 <= i < j && #[trigger] starts(steps[i], method)) by {
        if let SetupStepSpec::Await { method } = steps[j] {
            assert(6 <= j < 10);
            assert(starts(steps[j - 5], method));
        }
    }
}

proof fn lemma_started_before(start: ProgressSpec, replies: Seq<Option<ReplySpec>>, n: int)
    requires
        0 <= n <= replies.len(),
        is_sound(start),
    ensures
        is_sound(progressed(start, replies.take(n))),
    decreases n,
{
    if n > 0 {
        lemma_started_before(start, replies, n - 1);
        lemma_progressed(start, replies, n - 1);
        lemma_kept(start, replies, n - 1);
        lemma_kept(start, replies, n);
    }
}

/// The setup ends with what the main frame asks for that the last answer shows, and that is
/// the answer to the command that asks for it.
pub proof fn lemma_setup_ends_with_the_main_frame(
    before: SessionSpec,
    session: SessionSpec,
    session_id: Seq<char>,
    paths: Seq<Seq<char>>,
    replies: Seq<Option<ReplySpec>>,
    answer: JsonSpec,
)
    requires
        replies.len() > 0,
        turn_after(before, begun(session_id, paths), replies) == (TurnSpec::Send {
            session_id,
            method: "Page.getFrameTree"@,
            params: None,
        }),
    ensures
        ({
            let (after, progress, turn) = turn_of(
                session,
                progressed(begun(session_id, paths), replies),
                Some(ReplySpec::Answered(Ok(answer))),
            );
            let (configured, step) = configured_step(session, session_id, answer);
            after == configured && turn == TurnSpec::Finish(step)
        }),
{
    let start = begun(session_id, paths);
    let n = replies.len() as int;
    assert(replies.take(n) =~= replies);
    lemma_kept(start, replies, n);
    let now = progressed(start, replies);
    assert(now.at == 10) by {
        reveal_strlit("Fetch.enable");
        reveal_strlit("Page.getFrameTree");
        reveal_strlit("Runtime.runIfWaitingForDebugger");
        assert("Fetch.enable"@.len() != "Page.getFrameTree"@.len());
        assert("Page.getFrameTree"@.len() != "Runtime.runIfWaitingForDebugger"@.len());
    }
}

} // verus!
