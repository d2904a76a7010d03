//! The wire protocol of the debugging pipe: frames, commands and their responses, and the
//! order in which events are delivered.

use std::collections::{BTreeMap, VecDeque};
use vstd::prelude::*;
use vstd::utf8::*;

use crate::json::{
    lemma_object_view, members_view, ordered, parse_json, parsed_text, rendered,
    without_nul, Json, JsonError, JsonSpec,
};
use crate::text::{concat, joined, texts};

verus! {

/// How long a command may take, in milliseconds.
pub const COMMAND_TIMEOUT: u64 = 20_000;

pub const STARTUP_AUTO_ATTACH_ID: u32 = 1;

// ---------------------------------------------------------------------------
// Frames

/// Bytes of a text that holds no NUL are not zero.
pub proof fn lemma_bytes_without_nul(text: Seq<char>)
    requires
        without_nul(text),
    ensures
        forall|i: int| 0 <= i < encode_utf8(text).len() ==> #[trigger] encode_utf8(text)[i] != 0,
    decreases text.len(),
{
    if text.len() > 0 {
        let rest = text.drop_first();
        assert forall|i: int| 0 <= i < rest.len() implies #[trigger] rest[i] != '\0' by {
            assert(rest[i] == text[i + 1]);
        }
        lemma_bytes_without_nul(rest);
        let code = text[0] as u32;
        assert(code != 0) by {
            assert(text[0] != '\0');
            char_u32_cast(text[0], code);
        }
        assert forall|i: int| 0 <= i < encode_utf8(text).len() implies #[trigger] encode_utf8(
            text,
        )[i] != 0 by {
            let head = encode_scalar(code);
            if i >= head.len() {
                assert(encode_utf8(text)[i] == encode_utf8(rest)[i - head.len()]);
            } else {
                assert(encode_utf8(text)[i] == head[i]);
                lemma_scalar_bytes(code, i);
            }
        }
    }
}

proof fn lemma_scalar_bytes(code: u32, i: int)
    requires
        code != 0,
        0 <= i < encode_scalar(code).len(),
    ensures
        encode_scalar(code)[i] != 0,
{
    assert(0 < code && code <= 0x7F ==> (code & 0x7F) as u8 != 0) by (bit_vector);
    assert((0xC0u8 | ((code >> 6) & 0x1F) as u8) != 0) by (bit_vector);
    assert((0xE0u8 | ((code >> 12) & 0x0F) as u8) != 0) by (bit_vector);
    assert((0xF0u8 | ((code >> 18) & 0x7) as u8) != 0) by (bit_vector);
    assert((0x80u8 | (code & 0x3F) as u8) != 0) by (bit_vector);
    assert((0x80u8 | ((code >> 6) & 0x3F) as u8) != 0) by (bit_vector);
    assert((0x80u8 | ((code >> 12) & 0x3F) as u8) != 0) by (bit_vector);
}

/// The bytes of a message and the NUL that ends it.
pub open spec fn frame_of(message: Seq<char>) -> Seq<u8> {
    encode_utf8(message).push(0)
}

/// The only zero in the frame of a message is its end.
pub open spec fn ends_at_nul(frame: Seq<u8>) -> bool {
    &&& frame.len() > 0
    &&& frame.last() == 0
    &&& forall|i: int| 0 <= i < frame.len() - 1 ==> #[trigger] frame[i] != 0
}

/// Puts a message into a frame.
pub fn message_frame(message: &str) -> (frame: Vec<u8>)
    ensures
        frame@ == frame_of(message@),
        without_nul(message@) ==> ends_at_nul(frame@),
{
    let mut frame = vstd::slice::slice_to_vec(message.as_bytes());
    frame.push(0);
    proof {
        if without_nul(message@) {
            lemma_bytes_without_nul(message@);
            assert forall|i: int| 0 <= i < frame@.len() - 1 implies #[trigger] frame@[i] != 0 by {
                assert(frame@[i] == encode_utf8(message@)[i]);
            }
        }
    }
    frame
}

// ---------------------------------------------------------------------------
// Commands

/// A command, for specifications.
pub open spec fn command_json(
    id: u32,
    method: Seq<char>,
    params: Option<JsonSpec>,
    session_id: Option<Seq<char>>,
) -> JsonSpec {
    let head = seq![
        ("id"@, JsonSpec::Unsigned(id as u64)),
        ("method"@, JsonSpec::Text(method)),
    ];
    let with_params = match params {
        Some(params) => head.push(("params"@, params)),
        None => head,
    };
    JsonSpec::Object(
        match session_id {
            Some(session_id) => with_params.push(("sessionId"@, JsonSpec::Text(session_id))),
            None => with_params,
        },
    )
}

pub open spec fn optional_json(json: Option<Json>) -> Option<JsonSpec> {
    match json {
        Some(json) => Some(json@),
        None => None,
    }
}

pub open spec fn optional_str(text: Option<&str>) -> Option<Seq<char>> {
    match text {
        Some(text) => Some(text@),
        None => None,
    }
}

/// A command with its id.
pub fn command_message(
    id: u32,
    method: &str,
    params: Option<Json>,
    session_id: Option<&str>,
) -> (message: Json)
    ensures
        message@ == command_json(id, method@, optional_json(params), optional_str(session_id)),
{
    let mut members: Vec<(String, Json)> = Vec::new();
    members.push(("id".to_owned(), Json::Unsigned(id as u64)));
    members.push(("method".to_owned(), Json::Text(method.to_owned())));
    let ghost head = members_view(members@);
    proof {
        assert(head =~= seq![
            ("id"@, JsonSpec::Unsigned(id as u64)),
            ("method"@, JsonSpec::Text(method@)),
        ]);
    }
    if let Some(params) = params {
        members.push(("params".to_owned(), params));
        assert(members_view(members@) =~= head.push(("params"@, params@)));
    }
    let ghost with_params = members_view(members@);
    if let Some(session_id) = session_id {
        members.push(("sessionId".to_owned(), Json::Text(session_id.to_owned())));
        assert(members_view(members@) =~= with_params.push(
            ("sessionId"@, JsonSpec::Text(session_id@)),
        ));
    }
    proof {
        lemma_object_view(members);
    }
    Json::Object(members)
}

/// The parameters that make the application hold every target until it is configured.
pub open spec fn auto_attach_params() -> JsonSpec {
    JsonSpec::Object(
        seq![
            ("autoAttach"@, JsonSpec::Bool(true)),
            ("waitForDebuggerOnStart"@, JsonSpec::Bool(true)),
            ("flatten"@, JsonSpec::Bool(true)),
        ],
    )
}

/// The first frame, written before the application starts.
pub open spec fn startup_message() -> JsonSpec {
    command_json(
        STARTUP_AUTO_ATTACH_ID,
        "Target.setAutoAttach"@,
        Some(auto_attach_params()),
        None,
    )
}

/// The first frame is written into the pipe before the application starts, so that targets
/// are held before any of them runs.
pub fn startup_auto_attach_frame() -> (frame: Vec<u8>)
    ensures
        frame@ == frame_of(rendered(ordered(startup_message()))),
        ends_at_nul(frame@),
{
    let params = vec![
        ("autoAttach".to_owned(), Json::Bool(true)),
        ("waitForDebuggerOnStart".to_owned(), Json::Bool(true)),
        ("flatten".to_owned(), Json::Bool(true)),
    ];
    proof {
        lemma_object_view(params);
        assert(members_view(params@) =~= auto_attach_params()->Object_0);
    }
    let message = command_message(
        STARTUP_AUTO_ATTACH_ID,
        "Target.setAutoAttach",
        Some(Json::Object(params)),
        None,
    );
    let text = message.render();
    message_frame(text.as_str())
}

// ---------------------------------------------------------------------------
// Responses

/// Why a command gave no result, for specifications.
pub enum CdpErrorSpec {
    Malformed { method: Seq<char> },
    Command { method: Seq<char>, details: JsonSpec },
}

/// Why a command gave no result.
#[derive(Debug, PartialEq, Eq)]
pub enum CdpError {
    /// The response has not exactly one of a result and an error.
    Malformed { method: String },
    /// The response is an error.
    Command { method: String, details: Json },
}

impl View for CdpError {
    type V = CdpErrorSpec;

    open spec fn view(&self) -> CdpErrorSpec {
        match *self {
            CdpError::Malformed { method } => CdpErrorSpec::Malformed { method: method@ },
            CdpError::Command { method, details } => CdpErrorSpec::Command {
                method: method@,
                details: details@,
            },
        }
    }
}

pub open spec fn cdp_error_message(error: CdpErrorSpec) -> Seq<char> {
    match error {
        CdpErrorSpec::Malformed { method } => joined(
            seq!["CDP "@, method, " returned a malformed response"@],
        ),
        CdpErrorSpec::Command { method, details } => joined(
            seq!["CDP "@, method, " failed: "@, rendered(ordered(details))],
        ),
    }
}

impl CdpError {
    /// The same error.
    pub fn copy(&self) -> (copy: CdpError)
        ensures
            copy@ == self@,
    {
        match self {
            CdpError::Malformed { method } => CdpError::Malformed {
                method: method.as_str().to_owned(),
            },
            CdpError::Command { method, details } => CdpError::Command {
                method: method.as_str().to_owned(),
                details: details.copy(),
            },
        }
    }

    /// What this error says.
    pub fn message(&self) -> (message: String)
        ensures
            message@ == cdp_error_message(self@),
    {
        match self {
            CdpError::Malformed { method } => {
                let parts: [&str; 3] = [
                    "CDP ",
                    method.as_str(),
                    " returned a malformed response",
                ];
                assert(texts(parts@) =~= seq![
                    "CDP "@,
                    method@,
                    " returned a malformed response"@,
                ]);
                concat(&parts)
            },
            CdpError::Command { method, details } => {
                let text = details.render();
                let parts: [&str; 4] = ["CDP ", method.as_str(), " failed: ", text.as_str()];
                assert(texts(parts@) =~= seq!["CDP "@, method@, " failed: "@, text@]);
                concat(&parts)
            },
        }
    }
}

/// What a response to a command comes to.
pub open spec fn result_of(response: JsonSpec, method: Seq<char>) -> Result<
    JsonSpec,
    CdpErrorSpec,
> {
    match (response.get("result"@), response.get("error"@)) {
        (Some(result), None) => Ok(result),
        (None, Some(details)) => Err(CdpErrorSpec::Command { method, details }),
        _ => Err(CdpErrorSpec::Malformed { method }),
    }
}

/// Unwraps a response, which must carry exactly one of `result` and `error`.
pub fn response_result(value: &Json, method: &str) -> (result: Result<Json, CdpError>)
    ensures
        match result {
            Ok(json) => result_of(value@, method@) == Ok::<JsonSpec, CdpErrorSpec>(json@),
            Err(error) => result_of(value@, method@) == Err::<JsonSpec, CdpErrorSpec>(error@),
        },
{
    match (value.get("result"), value.get("error")) {
        (Some(result), None) => Ok(result.copy()),
        (None, Some(details)) => Err(
            CdpError::Command { method: method.to_owned(), details: details.copy() },
        ),
        _ => Err(CdpError::Malformed { method: method.to_owned() }),
    }
}

// ---------------------------------------------------------------------------
// Waiting

/// Until when a read may block, in milliseconds.
#[derive(Clone, Copy, Debug, PartialEq, Eq, Structural)]
pub enum ResponseWait {
    /// A deadline of the session: without a message, the session is asked what to do.
    Handler(u64),
    /// The deadline of the command.
    Command(u64),
}

/// How to wait for a response, none where a deadline of the session has passed.
pub open spec fn wait_of(
    handler_deadline: u64,
    command_deadline: u64,
    now: u64,
) -> Option<ResponseWait> {
    if handler_deadline >= command_deadline {
        Some(ResponseWait::Command(command_deadline))
    } else if handler_deadline <= now {
        None
    } else {
        Some(ResponseWait::Handler(handler_deadline))
    }
}

pub fn response_wait(handler_deadline: u64, command_deadline: u64, now: u64) -> (wait: Option<
    ResponseWait,
>)
    ensures
        wait == wait_of(handler_deadline, command_deadline, now),
{
    if handler_deadline >= command_deadline {
        Some(ResponseWait::Command(command_deadline))
    } else if handler_deadline <= now {
        None
    } else {
        Some(ResponseWait::Handler(handler_deadline))
    }
}

/// Why waiting for a message failed.
#[derive(Debug, PartialEq, Eq)]
pub enum WaitError<E> {
    /// Reading or servicing failed.
    Failed(E),
    /// The wait for a command ended without a message.
    NoResponse,
}

/// Servicing a deadline comes to this.
pub open spec fn serviced<T, E, H: FnOnce() -> Result<(), E>>(
    handle_deadline: H,
    result: Result<Option<T>, WaitError<E>>,
) -> bool {
    exists|outcome: Result<(), E>| #[trigger]
        call_ensures(handle_deadline, (), outcome) && result == (match outcome {
            Ok(_) => Ok::<Option<T>, WaitError<E>>(None),
            Err(error) => Err(WaitError::Failed(error)),
        })
}

/// Reading for this long comes to this.
pub open spec fn read_gives<
    T,
    E,
    R: FnOnce(ResponseWait) -> Result<Option<T>, E>,
    H: FnOnce() -> Result<(), E>,
>(
    read: R,
    handle_deadline: H,
    wait: ResponseWait,
    outcome: Result<Option<T>, E>,
    result: Result<Option<T>, WaitError<E>>,
) -> bool {
    &&& call_ensures(read, (wait,), outcome)
    &&& match outcome {
        Err(error) => result == Err::<Option<T>, WaitError<E>>(WaitError::Failed(error)),
        Ok(Some(message)) => result == Ok::<Option<T>, WaitError<E>>(Some(message)),
        Ok(None) => match wait {
            ResponseWait::Handler(_) => serviced(handle_deadline, result),
            ResponseWait::Command(_) => result == Err::<Option<T>, WaitError<E>>(
                WaitError::NoResponse,
            ),
        },
    }
}

/// Waits once for a message, or lets the session service its deadline. Nothing is read where
/// that deadline has passed.
pub fn wait_for_response_message<
    T,
    E,
    R: FnOnce(ResponseWait) -> Result<Option<T>, E>,
    H: FnOnce() -> Result<(), E>,
>(
    handler_deadline: u64,
    command_deadline: u64,
    now: u64,
    read: R,
    handle_deadline: H,
) -> (result: Result<Option<T>, WaitError<E>>)
    requires
        forall|wait: ResponseWait| call_requires(read, (wait,)),
        call_requires(handle_deadline, ()),
    ensures
        match wait_of(handler_deadline, command_deadline, now) {
            None => serviced(handle_deadline, result),
            Some(wait) => exists|outcome: Result<Option<T>, E>| #[trigger]
                read_gives(read, handle_deadline, wait, outcome, result),
        },
{
    match response_wait(handler_deadline, command_deadline, now) {
        None => match handle_deadline() {
            Ok(_) => Ok(None),
            Err(error) => Err(WaitError::Failed(error)),
        },
        Some(wait) => {
            let outcome = read(wait);
            let ghost read_outcome = outcome;
            let result = match outcome {
                Err(error) => Err(WaitError::Failed(error)),
                Ok(Some(message)) => Ok(Some(message)),
                Ok(None) => match wait {
                    ResponseWait::Handler(_) => match handle_deadline() {
                        Ok(_) => Ok(None),
                        Err(error) => Err(WaitError::Failed(error)),
                    },
                    ResponseWait::Command(_) => Err(WaitError::NoResponse),
                },
            };
            assert(read_gives(read, handle_deadline, wait, read_outcome, result));
            result
        },
    }
}

// ---------------------------------------------------------------------------
// The wire

/// What is known of a connection, for specifications.
#[verifier::ext_equal]
pub struct WireSpec {
    /// Id of the next command.
    pub next_id: u32,
    /// Responses that arrived while another was waited for.
    pub responses: Map<u32, JsonSpec>,
    /// Events that arrived while another was handled.
    pub events: Seq<JsonSpec>,
    pub handling_event: bool,
}

/// What to do next while a response is waited for, for specifications.
pub enum StepSpec {
    Finished(Result<JsonSpec, CdpErrorSpec>),
    Deliver(JsonSpec),
    Read,
}

/// What to do next while a response is waited for.
#[derive(Debug)]
pub enum WaitStep {
    /// The response is there.
    Finished(Result<Json, CdpError>),
    /// An event is to be handled.
    Deliver(Json),
    /// Another message is to be read.
    Read,
}

impl View for WaitStep {
    type V = StepSpec;

    open spec fn view(&self) -> StepSpec {
        match *self {
            WaitStep::Finished(Ok(json)) => StepSpec::Finished(Ok(json@)),
            WaitStep::Finished(Err(error)) => StepSpec::Finished(Err(error@)),
            WaitStep::Deliver(event) => StepSpec::Deliver(event@),
            WaitStep::Read => StepSpec::Read,
        }
    }
}

/// The id of the command that a message answers.
pub open spec fn response_id(message: JsonSpec) -> Option<u64> {
    match message.get("id"@) {
        Some(id) => id.as_u64(),
        None => None,
    }
}

/// Before anything is read: a response that has arrived, then an event that has.
pub open spec fn next_step_of(wire: WireSpec, id: u32, method: Seq<char>) -> (WireSpec, StepSpec) {
    if wire.responses.contains_key(id) {
        (
            WireSpec { responses: wire.responses.remove(id), ..wire },
            StepSpec::Finished(result_of(wire.responses[id], method)),
        )
    } else if !wire.handling_event && wire.events.len() > 0 {
        (
            WireSpec { events: wire.events.drop_first(), ..wire },
            StepSpec::Deliver(wire.events[0]),
        )
    } else {
        (wire, StepSpec::Read)
    }
}

/// Keeps a response for whoever waits for it.
pub open spec fn with_response(wire: WireSpec, id: u64, message: JsonSpec) -> WireSpec {
    if id <= u32::MAX {
        WireSpec { responses: wire.responses.insert(id as u32, message), ..wire }
    } else {
        wire
    }
}

/// A message arrived while a response is waited for.
pub open spec fn received(wire: WireSpec, message: JsonSpec, id: u32, method: Seq<char>) -> (
    WireSpec,
    StepSpec,
) {
    match response_id(message) {
        Some(other) => if other == id {
            (wire, StepSpec::Finished(result_of(message, method)))
        } else {
            (with_response(wire, other, message), StepSpec::Read)
        },
        None => if wire.handling_event {
            (WireSpec { events: wire.events.push(message), ..wire }, StepSpec::Read)
        } else {
            (wire, StepSpec::Deliver(message))
        },
    }
}

/// A message arrived while an event is waited for.
pub open spec fn received_event(wire: WireSpec, message: JsonSpec) -> (
    WireSpec,
    Option<JsonSpec>,
) {
    match response_id(message) {
        Some(id) => (with_response(wire, id, message), None),
        None => (wire, Some(message)),
    }
}

/// Ids, responses and events of a connection.
pub struct Wire {
    next_id: u32,
    pending_responses: BTreeMap<u32, Json>,
    pending_events: VecDeque<Json>,
    handling_event: bool,
}

impl View for Wire {
    type V = WireSpec;

    closed spec fn view(&self) -> WireSpec {
        WireSpec {
            next_id: self.next_id,
            responses: self.pending_responses@.map_values(|json: Json| json@),
            events: self.pending_events@.map_values(|json: Json| json@),
            handling_event: self.handling_event,
        }
    }
}

impl Wire {
    pub fn new() -> (wire: Wire)
        ensures
            wire@ == (WireSpec {
                next_id: (STARTUP_AUTO_ATTACH_ID + 1) as u32,
                responses: Map::empty(),
                events: Seq::empty(),
                handling_event: false,
            }),
    {
        let wire = Wire {
            next_id: STARTUP_AUTO_ATTACH_ID + 1,
            pending_responses: BTreeMap::new(),
            pending_events: VecDeque::new(),
            handling_event: false,
        };
        assert(wire@.responses =~= Map::empty());
        assert(wire@.events =~= Seq::empty());
        wire
    }

    /// Gives a command the next id, and its text.
    pub fn start_command(
        &mut self,
        method: &str,
        params: Option<Json>,
        session_id: Option<&str>,
    ) -> (started: (u32, String))
        requires
            old(self)@.next_id < u32::MAX,
        ensures
            started.0 == old(self)@.next_id,
            final(self)@ == (WireSpec {
                next_id: (old(self)@.next_id + 1) as u32,
                ..old(self)@
            }),
            started.1@ == rendered(
                ordered(
                    command_json(
                        started.0,
                        method@,
                        optional_json(params),
                        optional_str(session_id),
                    ),
                ),
            ),
            without_nul(started.1@),
    {
        let id = self.next_id;
        self.next_id += 1;
        let message = command_message(id, method, params, session_id);
        let text = message.render();
        (id, text)
    }

    /// What to do before another message is read for the response `id`.
    pub fn next_step(&mut self, id: u32, method: &str) -> (step: WaitStep)
        ensures
            (final(self)@, step@) == next_step_of(old(self)@, id, method@),
    {
        let ghost before = self@;
        if let Some(response) = self.pending_responses.remove(&id) {
            assert(self@.responses =~= before.responses.remove(id));
            return WaitStep::Finished(response_result(&response, method));
        }
        assert(self@.responses =~= before.responses);
        if !self.handling_event {
            if let Some(event) = self.pending_events.pop_front() {
                assert(self@.events =~= before.events.drop_first());
                return WaitStep::Deliver(event);
            }
        }
        WaitStep::Read
    }

    fn keep_response(&mut self, id: u64, message: Json)
        ensures
            final(self)@ == with_response(old(self)@, id, message@),
    {
        let ghost before = self@;
        if id <= 0xffff_ffff {
            self.pending_responses.insert(id as u32, message);
            assert(self@.responses =~= before.responses.insert(id as u32, message@));
        }
    }

    /// Takes a message that arrived while the response `id` is waited for.
    pub fn receive(&mut self, message: Json, id: u32, method: &str) -> (step: WaitStep)
        ensures
            (final(self)@, step@) == received(old(self)@, message@, id, method@),
    {
        let ghost before = self@;
        let answered = match message.get("id") {
            Some(id) => id.as_u64(),
            None => None,
        };
        match answered {
            Some(other) => if other == id as u64 {
                WaitStep::Finished(response_result(&message, method))
            } else {
                self.keep_response(other, message);
                WaitStep::Read
            },
            None => if self.handling_event {
                self.pending_events.push_back(message);
                assert(self@.events =~= before.events.push(message@));
                WaitStep::Read
            } else {
                WaitStep::Deliver(message)
            },
        }
    }

    /// Reads and takes a message that arrived while the response `id` is waited for.
    pub fn receive_message(&mut self, message: &str, id: u32, method: &str) -> (step: Result<
        WaitStep,
        JsonError,
    >)
        ensures
            match step {
                Ok(step) => parsed_text(message@) matches Ok(json) && (final(self)@, step@)
                    == received(old(self)@, json, id, method@),
                Err(error) => parsed_text(message@) == Err::<JsonSpec, Seq<char>>(error@)
                    && final(self)@ == old(self)@,
            },
    {
        match parse_json(message) {
            Ok(json) => Ok(self.receive(json, id, method)),
            Err(error) => Err(error),
        }
    }

    /// Takes the first event that has arrived.
    pub fn next_event(&mut self) -> (event: Option<Json>)
        ensures
            optional_json(event) == (if old(self)@.events.len() > 0 {
                Some(old(self)@.events[0])
            } else {
                None
            }),
            final(self)@ == (if old(self)@.events.len() > 0 {
                WireSpec { events: old(self)@.events.drop_first(), ..old(self)@ }
            } else {
                old(self)@
            }),
    {
        let ghost before = self@;
        match self.pending_events.pop_front() {
            Some(event) => {
                assert(self@.events =~= before.events.drop_first());
                Some(event)
            },
            None => None,
        }
    }

    /// Takes a message that arrived while an event is waited for.
    pub fn receive_event(&mut self, message: Json) -> (event: Option<Json>)
        ensures
            (final(self)@, optional_json(event)) == received_event(old(self)@, message@),
    {
        let answered = match message.get("id") {
            Some(id) => id.as_u64(),
            None => None,
        };
        match answered {
            Some(id) => {
                self.keep_response(id, message);
                None
            },
            None => Some(message),
        }
    }

    /// Reads and takes a message that arrived while an event is waited for.
    pub fn receive_event_message(&mut self, message: &str) -> (event: Result<
        Option<Json>,
        JsonError,
    >)
        ensures
            match event {
                Ok(event) => parsed_text(message@) matches Ok(json) && (
                    final(self)@,
                    optional_json(event),
                ) == received_event(old(self)@, json),
                Err(error) => parsed_text(message@) == Err::<JsonSpec, Seq<char>>(error@)
                    && final(self)@ == old(self)@,
            },
    {
        match parse_json(message) {
            Ok(json) => Ok(self.receive_event(json)),
            Err(error) => Err(error),
        }
    }

    /// An event is handled from now on: others are kept until it is done.
    pub fn begin_event(&mut self)
        ensures
            final(self)@ == (WireSpec { handling_event: true, ..old(self)@ }),
    {
        self.handling_event = true;
    }

    /// The event is done.
    pub fn end_event(&mut self)
        ensures
            final(self)@ == (WireSpec { handling_event: false, ..old(self)@ }),
    {
        self.handling_event = false;
    }

    /// Number of events that have arrived and are not yet delivered.
    pub fn queued_events(&self) -> (n: usize)
        ensures
            n == self@.events.len(),
    {
        self.pending_events.len()
    }

    /// An event that has arrived and is not yet delivered.
    pub fn queued_event(&self, i: usize) -> (event: &Json)
        requires
            i < self@.events.len(),
        ensures
            event@ == self@.events[i as int],
    {
        &self.pending_events[i]
    }

    /// Id of the next command.
    pub fn next_id(&self) -> (id: u32)
        ensures
            id == self@.next_id,
    {
        self.next_id
    }
}

// ---------------------------------------------------------------------------
// Laws

/// A response that arrives while another is waited for goes to whoever waits for it, and
/// to nobody else.
pub proof fn lemma_response_is_kept(
    wire: WireSpec,
    message: JsonSpec,
    waiting: u32,
    id: u32,
    method: Seq<char>,
    other_method: Seq<char>,
)
    requires
        response_id(message) == Some(id as u64),
        id != waiting,
    ensures
        ({
            let (after, step) = received(wire, message, waiting, method);
            let (last, answer) = next_step_of(after, id, other_method);
            &&& step == StepSpec::Read
            &&& answer == StepSpec::Finished(result_of(message, other_method))
            &&& !last.responses.contains_key(id)
            &&& next_step_of(after, waiting, method).1 == next_step_of(wire, waiting, method).1
        }),
{
}

/// While an event is handled, no other is delivered: the ones that arrive are kept in their
/// order.
pub proof fn lemma_events_are_not_nested(
    wire: WireSpec,
    message: JsonSpec,
    id: u32,
    method: Seq<char>,
)
    requires
        wire.handling_event,
    ensures
        !(next_step_of(wire, id, method).1 is Deliver),
        !(received(wire, message, id, method).1 is Deliver),
        response_id(message) is None ==> received(wire, message, id, method).0.events
            == wire.events.push(message),
        response_id(message) is Some ==> received(wire, message, id, method).0.events
            == wire.events,
{
}

/// Events that were kept come first, in the order in which they arrived.
pub proof fn lemma_kept_events_come_first(wire: WireSpec, id: u32, method: Seq<char>)
    requires
        !wire.handling_event,
        !wire.responses.contains_key(id),
        wire.events.len() > 0,
    ensures
        next_step_of(wire, id, method).1 == StepSpec::Deliver(wire.events[0]),
        next_step_of(wire, id, method).0.events == wire.events.drop_first(),
{
}

} // verus!
