use deepseek_api::response::streaming::{Choice, Chunk, Delta as WireDelta, Function, Object, ToolCall};
use deepseek_api::turn::{Round, Turn};
use deepseek_api::{Delta, FinishReason, Model, Role, SessionError, ToolCallType, Violation};

fn text(content: Option<&str>, reasoning: Option<&str>, role: Option<Role>) -> WireDelta {
    WireDelta::Assistant {
        content: content.map(|s| s.to_string()),
        reasoning_content: reasoning.map(|s| s.to_string()),
        role,
    }
}

fn start(index: usize, id: &str, name: &str, arguments: &str) -> ToolCall {
    ToolCall {
        kind: Some(ToolCallType::Function),
        id: Some(id.to_string()),
        index,
        function: Function { name: Some(name.to_string()), arguments: arguments.to_string() },
    }
}

fn more(index: usize, arguments: &str) -> ToolCall {
    ToolCall {
        kind: None,
        id: None,
        index,
        function: Function { name: None, arguments: arguments.to_string() },
    }
}

fn choice(delta: WireDelta, finish_reason: Option<FinishReason>) -> Choice {
    Choice { index: 0, finish_reason, delta, logprobs: serde_json::Value::Null }
}

fn chunk(choices: Vec<Choice>) -> Chunk {
    Chunk {
        id: "chunk".to_string(),
        choices,
        created: 0,
        model: Model::DeepSeekChat,
        system_fingerprint: "fp".to_string(),
        object: Object::ChatCompletionChunk,
    }
}

#[test]
fn new_turn_is_empty() {
    let turn = Turn::new();
    assert_eq!(turn.content, "");
    assert!(turn.reasoning_content.is_none());
    assert!(turn.tool_calls.is_empty());
}

#[test]
fn text_is_appended_and_reported_as_received() {
    let mut turn = Turn::new();
    let first = turn.absorb_text(&Some("Hel".to_string()), &None, Some(Role::Assistant));
    let second = turn.absorb_text(&Some("lo".to_string()), &None, None);
    assert_eq!(turn.content, "Hello");
    assert!(turn.reasoning_content.is_none());
    match first {
        Some(Delta::Assistant { content, reasoning_content, role }) => {
            assert_eq!(content.as_deref(), Some("Hel"));
            assert!(reasoning_content.is_none());
            assert_eq!(role, Some(Role::Assistant));
        }
        other => panic!("unexpected event {:?}", other),
    }
    match second {
        Some(Delta::Assistant { content, role, .. }) => {
            assert_eq!(content.as_deref(), Some("lo"));
            assert_eq!(role, None);
        }
        other => panic!("unexpected event {:?}", other),
    }
}

#[test]
fn reasoning_buffer_is_created_on_first_piece() {
    let mut turn = Turn::new();
    assert!(turn.absorb_text(&None, &Some("".to_string()), None).is_none());
    assert_eq!(turn.reasoning_content.as_deref(), Some(""));
    let event = turn.absorb_text(&None, &Some("think".to_string()), None);
    assert!(event.is_some());
    turn.absorb_text(&Some("".to_string()), &Some("ing".to_string()), None);
    assert_eq!(turn.reasoning_content.as_deref(), Some("thinking"));
    assert_eq!(turn.content, "");
}

#[test]
fn empty_text_gives_no_event() {
    let mut turn = Turn::new();
    assert!(turn.absorb_text(&Some("".to_string()), &None, Some(Role::Assistant)).is_none());
    assert!(turn.absorb_text(&None, &None, Some(Role::Assistant)).is_none());
    assert!(turn.absorb_text(&Some("".to_string()), &Some("".to_string()), None).is_none());
    assert_eq!(turn.content, "");
    let mut round = Round::new();
    let progress = round.absorb_chunk(&chunk(vec![
        choice(text(Some(""), None, Some(Role::Assistant)), None),
        choice(text(None, None, None), None),
    ]));
    assert!(progress.failure.is_none());
    assert!(progress.events.is_empty());
}

#[test]
fn fragments_are_concatenated() {
    let mut turn = Turn::new();
    let pieces = ["{\"a\":", "1,", "\"b\":2}"];
    let first = turn.absorb_fragment(&start(0, "c1", "add", pieces[0]));
    let second = turn.absorb_fragment(&more(0, pieces[1]));
    let third = turn.absorb_fragment(&more(0, pieces[2]));
    assert_eq!(turn.tool_calls.len(), 1);
    assert_eq!(turn.tool_calls[0].id, "c1");
    assert_eq!(turn.tool_calls[0].kind, ToolCallType::Function);
    assert_eq!(turn.tool_calls[0].function.name, "add");
    assert_eq!(turn.tool_calls[0].function.arguments, "{\"a\":1,\"b\":2}");
    match first {
        Ok(Delta::ToolCallInput { tool_call_id, function }) => {
            assert_eq!(tool_call_id.as_deref(), Some("c1"));
            assert_eq!(function.name.as_deref(), Some("add"));
            assert_eq!(function.arguments, pieces[0]);
        }
        other => panic!("unexpected {:?}", other),
    }
    for (event, piece) in [(second, pieces[1]), (third, pieces[2])] {
        match event {
            Ok(Delta::ToolCallInput { tool_call_id, function }) => {
                assert!(tool_call_id.is_none());
                assert!(function.name.is_none());
                assert_eq!(function.arguments, piece);
            }
            other => panic!("unexpected {:?}", other),
        }
    }
}

#[test]
fn split_inside_an_escape_sequence_is_joined_exactly() {
    let whole = "{\"text\":\"a\\u00e9\\n\\\"q\\\"\"}";
    for cut in 1..whole.len() {
        let mut turn = Turn::new();
        turn.absorb_fragment(&start(0, "c", "f", &whole[..cut])).unwrap();
        turn.absorb_fragment(&more(0, &whole[cut..])).unwrap();
        assert_eq!(turn.tool_calls[0].function.arguments, whole);
    }
}

#[test]
fn interleaved_calls_go_by_index() {
    let mut turn = Turn::new();
    turn.absorb_fragment(&start(0, "c0", "f", "a")).unwrap();
    turn.absorb_fragment(&start(1, "c1", "g", "x")).unwrap();
    turn.absorb_fragment(&more(0, "b")).unwrap();
    turn.absorb_fragment(&more(1, "y")).unwrap();
    turn.absorb_fragment(&more(0, "c")).unwrap();
    assert_eq!(turn.tool_calls.len(), 2);
    assert_eq!(turn.tool_calls[0].function.arguments, "abc");
    assert_eq!(turn.tool_calls[1].function.arguments, "xy");
    assert_eq!(turn.tool_calls[0].id, "c0");
    assert_eq!(turn.tool_calls[1].function.name, "g");
}

#[test]
fn continuation_ignores_identity_but_reports_it() {
    let mut turn = Turn::new();
    turn.absorb_fragment(&start(0, "c0", "f", "a")).unwrap();
    let event = turn.absorb_fragment(&start(0, "other", "g", "b")).unwrap();
    assert_eq!(turn.tool_calls.len(), 1);
    assert_eq!(turn.tool_calls[0].id, "c0");
    assert_eq!(turn.tool_calls[0].function.name, "f");
    assert_eq!(turn.tool_calls[0].function.arguments, "ab");
    match event {
        Delta::ToolCallInput { tool_call_id, function } => {
            assert_eq!(tool_call_id.as_deref(), Some("other"));
            assert_eq!(function.name.as_deref(), Some("g"));
        }
        other => panic!("unexpected {:?}", other),
    }
}

#[test]
fn fragment_without_text_is_still_reported() {
    let mut turn = Turn::new();
    let event = turn.absorb_fragment(&start(0, "c0", "f", ""));
    assert!(matches!(event, Ok(Delta::ToolCallInput { .. })));
    let event = turn.absorb_fragment(&more(0, ""));
    assert!(matches!(event, Ok(Delta::ToolCallInput { .. })));
    assert_eq!(turn.tool_calls[0].function.arguments, "");
}

#[test]
fn index_beyond_the_next_call_is_a_violation() {
    let mut turn = Turn::new();
    let res = turn.absorb_fragment(&start(1, "c1", "f", "a"));
    assert!(matches!(res, Err(SessionError::Protocol(Violation::IndexGap))));
    assert!(turn.tool_calls.is_empty());
    turn.absorb_fragment(&start(0, "c0", "f", "a")).unwrap();
    let res = turn.absorb_fragment(&more(2, "b"));
    assert!(matches!(res, Err(SessionError::Protocol(Violation::IndexGap))));
    assert_eq!(turn.tool_calls.len(), 1);
    assert_eq!(turn.tool_calls[0].function.arguments, "a");
}

#[test]
fn starting_fragment_needs_its_identity() {
    for broken in [
        ToolCall { id: None, ..start(0, "c", "f", "a") },
        ToolCall { kind: None, ..start(0, "c", "f", "a") },
        ToolCall {
            function: Function { name: None, arguments: "a".to_string() },
            ..start(0, "c", "f", "a")
        },
        more(0, "a"),
    ] {
        let mut turn = Turn::new();
        let res = turn.absorb_fragment(&broken);
        assert!(matches!(res, Err(SessionError::Protocol(Violation::MissingIdentity))));
        assert!(turn.tool_calls.is_empty());
    }
}

#[test]
fn delta_with_several_fragments_keeps_events_before_a_failure() {
    let mut turn = Turn::new();
    let delta = WireDelta::ToolCall {
        tool_calls: vec![start(0, "c0", "f", "a"), more(0, "b"), more(3, "c"), more(0, "d")],
    };
    let progress = turn.absorb_delta(&delta);
    assert_eq!(progress.failure, Some(SessionError::Protocol(Violation::IndexGap)));
    assert_eq!(progress.events.len(), 2);
    assert_eq!(turn.tool_calls[0].function.arguments, "ab");
}

#[test]
fn choice_with_a_finish_reason_gives_its_delta_too() {
    let mut round = Round::new();
    round.absorb_chunk(&chunk(vec![choice(text(Some("Hel"), None, None), None)]));
    let progress = round.absorb_chunk(&chunk(vec![choice(
        text(Some("lo"), Some("why"), None),
        Some(FinishReason::Stop),
    )]));
    assert!(progress.failure.is_none());
    assert_eq!(progress.events.len(), 1);
    assert!(matches!(&progress.events[0], Delta::Assistant { content: Some(c), reasoning_content: Some(r), .. }
        if c == "lo" && r == "why"));
    assert_eq!(round.finish_reason, Some(FinishReason::Stop));
    assert_eq!(round.turn.content, "Hello");
    assert_eq!(round.turn.reasoning_content.as_deref(), Some("why"));
}

#[test]
fn choice_with_a_finish_reason_gives_its_fragments_too() {
    let mut round = Round::new();
    round.absorb_chunk(&chunk(vec![choice(
        WireDelta::ToolCall { tool_calls: vec![start(0, "c0", "f", "{\"a\":")] },
        None,
    )]));
    let progress = round.absorb_chunk(&chunk(vec![choice(
        WireDelta::ToolCall { tool_calls: vec![more(0, "1}")] },
        Some(FinishReason::ToolCalls),
    )]));
    assert!(progress.failure.is_none());
    assert_eq!(progress.events.len(), 1);
    assert!(matches!(&progress.events[0], Delta::ToolCallInput { tool_call_id: None, function }
        if function.arguments == "1}"));
    assert_eq!(round.finish_reason, Some(FinishReason::ToolCalls));
    assert_eq!(round.turn.tool_calls[0].function.arguments, "{\"a\":1}");
}

#[test]
fn terminal_choice_with_an_empty_delta_gives_no_event() {
    let mut round = Round::new();
    round.absorb_chunk(&chunk(vec![choice(text(Some("done"), None, None), None)]));
    let progress = round.absorb_chunk(&chunk(vec![choice(
        text(Some(""), None, None),
        Some(FinishReason::Length),
    )]));
    assert!(progress.events.is_empty());
    assert!(progress.failure.is_none());
    assert_eq!(round.finish_reason, Some(FinishReason::Length));
    assert_eq!(round.turn.content, "done");
    assert!(round.turn.reasoning_content.is_none());
}

#[test]
fn failing_delta_on_the_terminal_choice_is_a_failure() {
    let mut round = Round::new();
    let progress = round.absorb_chunk(&chunk(vec![choice(
        WireDelta::ToolCall { tool_calls: vec![more(1, "x")] },
        Some(FinishReason::ToolCalls),
    )]));
    assert_eq!(progress.failure, Some(SessionError::Protocol(Violation::IndexGap)));
    assert!(progress.events.is_empty());
    assert!(round.turn.tool_calls.is_empty());
}

#[test]
fn later_finish_reason_replaces_earlier() {
    let mut round = Round::new();
    round.absorb_chunk(&chunk(vec![choice(text(None, None, None), Some(FinishReason::Length))]));
    round.absorb_chunk(&chunk(vec![choice(text(None, None, None), Some(FinishReason::ToolCalls))]));
    assert_eq!(round.finish_reason, Some(FinishReason::ToolCalls));
}

#[test]
fn chunk_with_several_choices_is_folded_in_order() {
    let mut round = Round::new();
    let progress = round.absorb_chunk(&chunk(vec![
        choice(text(Some("a"), None, None), None),
        choice(WireDelta::ToolCall { tool_calls: vec![start(0, "c0", "f", "{")] }, None),
        choice(text(Some("b"), Some("r"), None), None),
        choice(WireDelta::ToolCall { tool_calls: vec![more(0, "}")] }, None),
    ]));
    assert!(progress.failure.is_none());
    assert_eq!(progress.events.len(), 4);
    assert!(matches!(progress.events[0], Delta::Assistant { .. }));
    assert!(matches!(progress.events[1], Delta::ToolCallInput { .. }));
    assert!(matches!(progress.events[2], Delta::Assistant { .. }));
    assert!(matches!(progress.events[3], Delta::ToolCallInput { .. }));
    assert_eq!(round.turn.content, "ab");
    assert_eq!(round.turn.reasoning_content.as_deref(), Some("r"));
    assert_eq!(round.turn.tool_calls[0].function.arguments, "{}");
    assert_eq!(round.finish_reason, None);
}

#[test]
fn chunk_stops_at_the_first_failure() {
    let mut round = Round::new();
    let progress = round.absorb_chunk(&chunk(vec![
        choice(text(Some("a"), None, None), None),
        choice(WireDelta::ToolCall { tool_calls: vec![more(0, "x")] }, None),
        choice(text(Some("b"), None, None), Some(FinishReason::Stop)),
    ]));
    assert_eq!(progress.failure, Some(SessionError::Protocol(Violation::MissingIdentity)));
    assert_eq!(progress.events.len(), 1);
    assert_eq!(round.turn.content, "a");
    assert_eq!(round.finish_reason, None);
}

#[test]
fn sealing_leaves_tool_calls_absent_when_there_is_none() {
    let mut turn = Turn::new();
    turn.absorb_text(&Some("hi".to_string()), &None, None);
    let message = turn.seal();
    assert!(message.name.is_none());
    assert_eq!(message.content, "hi");
    assert!(message.reasoning_content.is_none());
    assert!(message.tool_calls.is_none());
}

#[test]
fn sealing_keeps_the_tool_calls_in_order() {
    let mut turn = Turn::new();
    turn.absorb_fragment(&start(0, "c0", "f", "a")).unwrap();
    turn.absorb_fragment(&start(1, "c1", "g", "b")).unwrap();
    let message = turn.seal();
    let calls = message.tool_calls.unwrap();
    assert_eq!(calls.len(), 2);
    assert_eq!(calls[0].id, "c0");
    assert_eq!(calls[1].id, "c1");
}

#[test]
fn copies_of_wire_values_hold_the_same() {
    let mut object = serde_json::Map::new();
    object.insert("p".to_string(), serde_json::Value::Bool(true));
    let first = Choice {
        index: 3,
        finish_reason: Some(FinishReason::Length),
        delta: WireDelta::ToolCall { tool_calls: vec![start(0, "c", "f", "{"), more(0, "}")] },
        logprobs: serde_json::Value::Object(object.clone()),
    };
    let copy = first.clone();
    assert_eq!(copy.index, 3);
    assert_eq!(copy.finish_reason, Some(FinishReason::Length));
    assert_eq!(copy.logprobs, serde_json::Value::Object(object));
    assert_ne!(copy.logprobs, serde_json::Value::Null);
    match &copy.delta {
        WireDelta::ToolCall { tool_calls } => {
            assert_eq!(tool_calls.len(), 2);
            assert_eq!(tool_calls[0].id.as_deref(), Some("c"));
            assert_eq!(tool_calls[0].function.name.as_deref(), Some("f"));
            assert_eq!(tool_calls[1].function.arguments, "}");
            assert_eq!(tool_calls[1].index, 0);
        }
        other => panic!("unexpected {:?}", other),
    }
    let text_copy = text(Some("a"), Some("b"), Some(Role::User)).clone();
    assert!(matches!(text_copy, WireDelta::Assistant { content: Some(c), reasoning_content: Some(r), role: Some(Role::User) }
        if c == "a" && r == "b"));
    let event = Delta::ToolCallOutput { tool_call_id: "c".to_string(), content: "out".to_string() };
    assert!(matches!(event.clone(), Delta::ToolCallOutput { tool_call_id, content }
        if tool_call_id == "c" && content == "out"));
}
