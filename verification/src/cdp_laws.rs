//! What is said on the debugging pipe, told from the messages.

use vstd::prelude::*;

use crate::cdp::{
    cdp_error_message, command_json, next_step_of, received, received_event, result_of,
    startup_message, wait_of, CdpErrorSpec, ResponseWait, StepSpec, WireSpec,
};
use crate::json::{member, ordered, rendered, JsonSpec};
use crate::platform::frames::poll_delay;
use crate::runtime::requests::{is_stale, without_dots};
use crate::text::joined;

verus! {

proof fn lemma_keys_differ()
    ensures
        "id"@ != "method"@,
        "id"@ != "params"@,
        "id"@ != "sessionId"@,
        "method"@ != "params"@,
        "method"@ != "sessionId"@,
        "params"@ != "sessionId"@,
{
    reveal_strlit("id");
    reveal_strlit("method");
    reveal_strlit("params");
    reveal_strlit("sessionId");
    assert("id"@.len() == 2 && "sessionId"@.len() == 9);
    assert("method"@[0] == 'm' && "params"@[0] == 'p');
    assert("method"@.len() == 6);
}

/// A command carries its id and method, its parameters and its session where it has them, and
/// nothing else.
pub proof fn lemma_command_carries_its_parts(
    id: u32,
    method: Seq<char>,
    params: Option<JsonSpec>,
    session_id: Option<Seq<char>>,
    key: Seq<char>,
)
    ensures
        ({
            let message = command_json(id, method, params, session_id);
            &&& message.get("id"@) == Some(JsonSpec::Unsigned(id as u64))
            &&& message.text_at("method"@) == Some(method)
            &&& message.get("params"@) == params
            &&& message.text_at("sessionId"@) == session_id
            &&& message.get("sessionId"@) is Some <==> session_id is Some
            &&& key != "id"@ && key != "method"@ && key != "params"@ && key != "sessionId"@
                ==> message.get(key) is None
        }),
{
    lemma_keys_differ();
    reveal_with_fuel(member, 5);
    let members = command_json(id, method, params, session_id)->Object_0;
    assert(members[0] == ("id"@, JsonSpec::Unsigned(id as u64)));
    assert(members.drop_first()[0] == ("method"@, JsonSpec::Text(method)));
    let rest = members.drop_first().drop_first();
    match (params, session_id) {
        (Some(params), Some(session_id)) => {
            assert(rest =~= seq![("params"@, params), ("sessionId"@, JsonSpec::Text(session_id))]);
        },
        (Some(params), None) => {
            assert(rest =~= seq![("params"@, params)]);
        },
        (None, Some(session_id)) => {
            assert(rest =~= seq![("sessionId"@, JsonSpec::Text(session_id))]);
        },
        (None, None) => {
            assert(rest =~= Seq::<(Seq<char>, JsonSpec)>::empty());
        },
    }
}

/// The first command holds every target before it runs, under an id that no later command has.
pub proof fn lemma_startup_holds_every_target()
    ensures
        ({
            let message = startup_message();
            &&& message.get("id"@) == Some(JsonSpec::Unsigned(1))
            &&& message.text_at("method"@) == Some("Target.setAutoAttach"@)
            &&& message.get("sessionId"@) is None
            &&& message.get("params"@) matches Some(params)
            &&& params.get("autoAttach"@) == Some(JsonSpec::Bool(true))
            &&& params.get("waitForDebuggerOnStart"@) == Some(JsonSpec::Bool(true))
            &&& params.get("flatten"@) == Some(JsonSpec::Bool(true))
        }),
{
    let params = crate::cdp::auto_attach_params();
    lemma_command_carries_its_parts(1, "Target.setAutoAttach"@, Some(params), None, Seq::empty());
    reveal_strlit("autoAttach");
    reveal_strlit("waitForDebuggerOnStart");
    reveal_strlit("flatten");
    assert("autoAttach"@.len() == 10 && "waitForDebuggerOnStart"@.len() == 22 && "flatten"@.len()
        == 7);
    reveal_with_fuel(member, 4);
    let members = params->Object_0;
    assert(members.drop_first()[0] == members[1]);
    assert(members.drop_first().drop_first()[0] == members[2]);
}

/// A response is a result, or an error of the command, and one with both or neither is
/// malformed.
pub proof fn lemma_response_is_result_or_error(response: JsonSpec, method: Seq<char>)
    ensures
        response.get("error"@) is None ==> (response.get("result"@) matches Some(result)
            ==> result_of(response, method) == Ok::<JsonSpec, CdpErrorSpec>(result)),
        response.get("result"@) is None ==> (response.get("error"@) matches Some(details)
            ==> result_of(response, method) == Err::<JsonSpec, CdpErrorSpec>(
            CdpErrorSpec::Command { method, details },
        )),
        (response.get("result"@) is Some) == (response.get("error"@) is Some) ==> result_of(
            response,
            method,
        ) == Err::<JsonSpec, CdpErrorSpec>(CdpErrorSpec::Malformed { method }),
{
}

/// What is said of an error names the method, and what the other side said of it.
pub proof fn lemma_error_names_the_method(method: Seq<char>, details: JsonSpec)
    ensures
        cdp_error_message(CdpErrorSpec::Malformed { method }) == "CDP "@ + method
            + " returned a malformed response"@,
        cdp_error_message(CdpErrorSpec::Command { method, details }) == "CDP "@ + method
            + " failed: "@ + rendered(ordered(details)),
{
    reveal_with_fuel(joined, 5);
    assert(cdp_error_message(CdpErrorSpec::Malformed { method }) =~= "CDP "@ + method
        + " returned a malformed response"@);
    assert(cdp_error_message(CdpErrorSpec::Command { method, details }) =~= "CDP "@ + method
        + " failed: "@ + rendered(ordered(details)));
}

/// A wait ends at the sooner of two times. Where that of the handler comes first and has passed,
/// nothing is waited for.
pub proof fn lemma_wait_ends_at_the_sooner_time(
    handler_deadline: u64,
    command_deadline: u64,
    now: u64,
)
    ensures
        command_deadline <= handler_deadline ==> wait_of(handler_deadline, command_deadline, now)
            == Some(ResponseWait::Command(command_deadline)),
        now < handler_deadline < command_deadline ==> wait_of(
            handler_deadline,
            command_deadline,
            now,
        ) == Some(ResponseWait::Handler(handler_deadline)),
        handler_deadline < command_deadline && handler_deadline <= now ==> wait_of(
            handler_deadline,
            command_deadline,
            now,
        ) is None,
{
}

/// A look never sleeps past its deadline, and otherwise 25 milliseconds.
pub proof fn lemma_look_does_not_oversleep(now: u64, deadline: u64)
    ensures
        deadline <= now ==> poll_delay(now, deadline) is None,
        now < deadline ==> (poll_delay(now, deadline) matches Some(delay) && 0 < delay <= 25 && now
            + delay <= deadline && (delay == 25 || now + delay == deadline)),
{
}

/// The response that is waited for ends the wait whenever it comes, before or after other
/// messages, and however it is read.
pub proof fn lemma_response_ends_the_wait(
    wire: WireSpec,
    message: JsonSpec,
    id: u32,
    method: Seq<char>,
)
    requires
        message.get("id"@) == Some(JsonSpec::Unsigned(id as u64)),
    ensures
        received(wire, message, id, method) == (wire, StepSpec::Finished(result_of(message, method))),
        received_event(wire, message).1 is None,
        next_step_of(received_event(wire, message).0, id, method).1 == StepSpec::Finished(
            result_of(message, method),
        ),
        received_event(wire, message).0.events == wire.events,
{
}

/// A message without an id is an event: it is handed out at once, unless another is being
/// handled, and then it is kept behind the others.
pub proof fn lemma_event_is_handed_out(
    wire: WireSpec,
    message: JsonSpec,
    id: u32,
    method: Seq<char>,
)
    requires
        message.get("id"@) is None,
    ensures
        received_event(wire, message) == (wire, Some(message)),
        !wire.handling_event ==> received(wire, message, id, method) == (
            wire,
            StepSpec::Deliver(message),
        ),
        wire.handling_event ==> received(wire, message, id, method) == (
            WireSpec { events: wire.events.push(message), ..wire },
            StepSpec::Read,
        ),
{
}

/// A response that nobody can wait for is dropped.
pub proof fn lemma_unknown_response_is_dropped(
    wire: WireSpec,
    message: JsonSpec,
    other: u64,
    id: u32,
    method: Seq<char>,
)
    requires
        message.get("id"@) == Some(JsonSpec::Unsigned(other)),
        other > u32::MAX,
    ensures
        received(wire, message, id, method) == (wire, StepSpec::Read),
        received_event(wire, message) == (wire, None::<JsonSpec>),
{
}

// ---------------------------------------------------------------------------
// Answers that come too late

/// Some points.
pub open spec fn points(n: nat) -> Seq<char> {
    Seq::new(n, |i: int| '.')
}

proof fn lemma_points_are_dropped(text: Seq<char>, n: nat)
    requires
        text.len() == 0 || text.last() != '.',
    ensures
        without_dots(text + points(n)) == text,
    decreases n,
{
    let longer = text + points(n);
    if n == 0 {
        assert(longer =~= text);
    } else {
        assert(longer.last() == '.');
        assert(longer.drop_last() =~= text + points((n - 1) as nat));
        lemma_points_are_dropped(text, (n - 1) as nat);
    }
}

/// An answer to a request that the page no longer waits for is stale, with any number of points
/// behind the message, as long as the page has not loaded.
pub proof fn lemma_gone_request_is_stale(
    method: Seq<char>,
    details: JsonSpec,
    n: nat,
    page_loaded: bool,
)
    requires
        details.get("code"@) == Some(JsonSpec::Negative(-32_602i64)),
        details.text_at("message"@) == Some("Invalid InterceptionId"@ + points(n)),
    ensures
        is_stale(CdpErrorSpec::Command { method, details }, page_loaded, false) <==> !page_loaded
            && (method == "Fetch.fulfillRequest"@ || method == "Fetch.continueRequest"@),
{
    reveal_strlit("Invalid InterceptionId");
    assert("Invalid InterceptionId"@.last() == 'd');
    lemma_points_are_dropped("Invalid InterceptionId"@, n);
}

/// An answer for a session that is gone is stale, as long as its leaving was seen.
pub proof fn lemma_gone_session_is_stale(
    method: Seq<char>,
    details: JsonSpec,
    page_loaded: bool,
    detached: bool,
)
    requires
        details.get("code"@) == Some(JsonSpec::Negative(-32_001i64)),
        details.text_at("message"@) == Some("Session with given id not found."@),
    ensures
        is_stale(CdpErrorSpec::Command { method, details }, page_loaded, detached) <==> detached
            && (method == "Fetch.fulfillRequest"@ || method == "Fetch.continueRequest"@),
{
}

/// Any other error is none of these.
pub proof fn lemma_other_error_is_not_stale(
    method: Seq<char>,
    details: JsonSpec,
    page_loaded: bool,
    detached: bool,
)
    requires
        details.get("code"@) != Some(JsonSpec::Negative(-32_602i64)),
        details.get("code"@) != Some(JsonSpec::Negative(-32_001i64)),
    ensures
        !is_stale(CdpErrorSpec::Command { method, details }, page_loaded, detached),
        !is_stale(CdpErrorSpec::Malformed { method }, page_loaded, detached),
{
}

} // verus!
