use codex_fast::cdp::{
    command_message, message_frame, response_result, response_wait, startup_auto_attach_frame,
    wait_for_response_message, CdpError, ResponseWait, WaitError, WaitStep, Wire,
};
use codex_fast::json::{parse_json, parse_json_bytes, Json};

fn json(text: &str) -> Json {
    parse_json(text).unwrap()
}

const SECOND: u64 = 1_000;

#[test]
fn distinguishes_handler_wakeups_from_command_timeouts() {
    let now = 7 * SECOND;
    let handler_deadline = now + 5 * SECOND;
    let command_deadline = now + 20 * SECOND;

    assert_eq!(
        response_wait(handler_deadline, command_deadline, now),
        Some(ResponseWait::Handler(handler_deadline))
    );
    assert_eq!(
        response_wait(handler_deadline, command_deadline, handler_deadline),
        None
    );
    assert_eq!(
        response_wait(command_deadline, command_deadline, now),
        Some(ResponseWait::Command(command_deadline))
    );
}

#[test]
fn services_a_handler_when_its_optional_wait_expires() {
    let now = 7 * SECOND;
    let handler_deadline = now + 5 * SECOND;
    let command_deadline = now + 20 * SECOND;
    let mut calls = 0;

    let message = wait_for_response_message(
        handler_deadline,
        command_deadline,
        now,
        |wait| {
            assert_eq!(wait, ResponseWait::Handler(handler_deadline));
            Ok::<_, ()>(None::<String>)
        },
        || {
            calls += 1;
            Ok(())
        },
    )
    .unwrap();

    assert!(message.is_none());
    assert_eq!(calls, 1);
}

#[test]
fn services_an_expired_handler_deadline_without_reading_the_wire() {
    let now = 7 * SECOND;
    let handler_deadline = now - SECOND;
    let command_deadline = now + 20 * SECOND;
    let mut reads = 0;
    let mut calls = 0;

    let message = wait_for_response_message(
        handler_deadline,
        command_deadline,
        now,
        |_| {
            reads += 1;
            Ok::<_, ()>(None::<String>)
        },
        || {
            calls += 1;
            Ok(())
        },
    )
    .unwrap();

    assert!(message.is_none());
    assert_eq!(reads, 0);
    assert_eq!(calls, 1);
}

#[test]
fn accepts_only_well_formed_cdp_responses() {
    assert_eq!(
        response_result(&json(r#"{ "result": {} }"#), "Test").unwrap(),
        json("{}")
    );
    assert!(response_result(&json(r#"{ "error": { "code": -1 } }"#), "Test").is_err());
    assert!(response_result(&json("{}"), "Test").is_err());
    assert!(response_result(&json("null"), "Test").is_err());
}

#[test]
fn a_command_wait_without_a_message_is_an_error() {
    let result = wait_for_response_message(
        20 * SECOND,
        20 * SECOND,
        0,
        |_| Ok::<_, ()>(None::<String>),
        || Ok(()),
    );
    assert_eq!(result, Err(WaitError::NoResponse));
    let result = wait_for_response_message(
        20 * SECOND,
        20 * SECOND,
        0,
        |_| Err::<Option<String>, _>("gone"),
        || Ok(()),
    );
    assert_eq!(result, Err(WaitError::Failed("gone")));
}

#[test]
fn errors_say_which_command_failed() {
    let error = response_result(&json(r#"{"error":{"code":-1,"message":"no"}}"#), "Page.enable")
        .unwrap_err();
    assert_eq!(
        error.message(),
        r#"CDP Page.enable failed: {"code":-1,"message":"no"}"#
    );
    let error = response_result(&json(r#"{"error":[0.1,-2.5]}"#), "Page.enable").unwrap_err();
    assert_eq!(
        error.message(),
        "CDP Page.enable failed: [0.1,-2.5]"
    );
    let error = response_result(&json(r#"{"result":1,"error":2}"#), "Page.enable").unwrap_err();
    assert!(matches!(error, CdpError::Malformed { .. }));
    assert_eq!(
        error.message(),
        "CDP Page.enable returned a malformed response"
    );
}

#[test]
fn the_first_frame_arms_auto_attach() {
    let frame = startup_auto_attach_frame();
    assert_eq!(frame.last(), Some(&0));
    let text = std::str::from_utf8(&frame[..frame.len() - 1]).unwrap();
    assert_eq!(
        text,
        r#"{"id":1,"method":"Target.setAutoAttach","params":{"autoAttach":true,"flatten":true,"waitForDebuggerOnStart":true}}"#
    );
}

#[test]
fn frames_end_with_a_zero() {
    assert_eq!(message_frame("ab"), vec![b'a', b'b', 0]);
}

#[test]
fn commands_name_their_session_and_parameters() {
    let message = command_message(7, "Page.enable", None, None);
    assert_eq!(message, json(r#"{"id":7,"method":"Page.enable"}"#));
    let mut wire = Wire::new();
    let (id, text) = wire.start_command("A", Some(json(r#"{"b":1}"#)), Some("s"));
    assert_eq!(id, 2);
    assert_eq!(wire.next_id(), 3);
    assert_eq!(
        text,
        r#"{"id":2,"method":"A","params":{"b":1},"sessionId":"s"}"#
    );
}

#[test]
fn responses_wait_for_whoever_asked() {
    let mut wire = Wire::new();
    let step = wire
        .receive_message(r#"{"id":5,"result":"five"}"#, 4, "Four")
        .unwrap();
    assert!(matches!(step, WaitStep::Read));
    assert!(matches!(wire.next_step(4, "Four"), WaitStep::Read));
    match wire.next_step(5, "Five") {
        WaitStep::Finished(Ok(result)) => assert_eq!(result, Json::Text("five".to_owned())),
        other => panic!("unexpected {other:?}"),
    }
    assert!(matches!(wire.next_step(5, "Five"), WaitStep::Read));
}

#[test]
fn events_are_not_nested_and_keep_their_order() {
    let mut wire = Wire::new();
    wire.begin_event();
    for method in ["first", "second"] {
        let event = format!(r#"{{"method":"{method}"}}"#);
        assert!(matches!(
            wire.receive_message(&event, 2, "Test").unwrap(),
            WaitStep::Read
        ));
    }
    assert_eq!(wire.queued_events(), 2);
    assert_eq!(wire.queued_event(1).text_at("method"), Some("second"));
    assert!(matches!(wire.next_step(2, "Test"), WaitStep::Read));
    wire.end_event();
    match wire.next_step(2, "Test") {
        WaitStep::Deliver(event) => assert_eq!(event.text_at("method"), Some("first")),
        other => panic!("unexpected {other:?}"),
    }
    let event = wire.next_event().unwrap();
    assert_eq!(event.text_at("method"), Some("second"));
    assert!(wire.next_event().is_none());
}

#[test]
fn a_pump_keeps_responses_and_hands_out_events() {
    let mut wire = Wire::new();
    assert_eq!(
        wire.receive_event_message(r#"{"id":3,"result":{}}"#).unwrap(),
        None
    );
    assert!(wire
        .receive_event_message(r#"{"method":"Page.loaded"}"#)
        .unwrap()
        .is_some());
    assert!(wire.receive_event_message("not json").is_err());
    assert!(matches!(
        wire.next_step(3, "Test"),
        WaitStep::Finished(Ok(_))
    ));
}

#[test]
fn a_response_id_beyond_a_command_id_is_dropped() {
    let mut wire = Wire::new();
    assert!(matches!(
        wire.receive_message(r#"{"id":4294967298,"result":{}}"#, 2, "Test")
            .unwrap(),
        WaitStep::Read
    ));
    assert!(matches!(wire.next_step(2, "Test"), WaitStep::Read));
}

#[test]
fn fractions_are_written_as_the_number_that_was_read() {
    let mut texts = vec![
        "0.1".to_owned(),
        "-0.0".to_owned(),
        "1.5e-7".to_owned(),
        "7.038531e-26".to_owned(),
        "2.2250738585072011e-308".to_owned(),
        "1.7976931348623157e308".to_owned(),
        "123456789012345678901234567890".to_owned(),
    ];
    for n in 1..2000u64 {
        texts.push(format!(
            "{}.{}e{}",
            n,
            n.wrapping_mul(6364136223846793005),
            n as i64 % 600 - 300
        ));
    }
    for text in texts {
        let number: serde_json::Value = serde_json::from_str(&text).unwrap();
        let value = json(&text);
        assert_eq!(value.render(), number.to_string());
        assert_eq!(value.copy().render(), number.to_string());
    }
}

#[test]
fn json_is_read_and_written() {
    let value = json(r#"{"b":[1,-2,1.5,true,null,"x\n"],"a":{}}"#);
    assert_eq!(value.render(), r#"{"a":{},"b":[1,-2,1.5,true,null,"x\n"]}"#);
    assert_eq!(value.copy(), value);
    assert_eq!(value.get("a"), Some(&Json::Object(Vec::new())));
    assert_eq!(value.get("c"), None);
    assert_eq!(json("7").as_u64(), Some(7));
    assert_eq!(json("-7").as_i64(), Some(-7));
    assert_eq!(json("true").as_bool(), Some(true));
    assert_eq!(json("\"t\"").as_str(), Some("t"));
    assert_eq!(
        parse_json("{").unwrap_err().cause,
        "EOF while parsing an object at line 1 column 1"
    );
    assert_eq!(parse_json_bytes(b"[]").unwrap(), Json::Array(Vec::new()));
    assert_eq!(
        parse_json_bytes(&[0xff]).unwrap_err().cause,
        "expected value at line 1 column 1"
    );
}
