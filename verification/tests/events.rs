use completion_kit::anthropic::{
    ApiError, ContentDelta, Event, MessageDelta, Response, ResponseContent, Usage,
};
use completion_kit::event_mapper::{
    complete_tool_use, convert_usage, find_stop_reason, partial_tool_use, update_usage,
    AnthropicEventMapper, LanguageModelCompletionError, MapStep, MappedEvent, RawToolUse,
};
use completion_kit::language_model::{LanguageModelCompletionEvent, StopReason, TokenUsage};
use serde_json::Value;

/// Closes an object and a string that were left open.
fn close(text: &str) -> String {
    let mut fixed = text.to_string();
    if text.matches('"').count() % 2 == 1 {
        fixed.push('"');
    }
    if text.contains('{') && !text.contains('}') {
        fixed.push('}');
    }
    fixed
}

fn parse(text: &str) -> Result<Value, String> {
    if text.is_empty() {
        Ok(Value::Object(serde_json::Map::new()))
    } else {
        text.parse::<Value>().map_err(|error| error.to_string())
    }
}

fn map(mapper: &mut AnthropicEventMapper, event: Event) -> Vec<MappedEvent> {
    mapper.map_event(event, &close, &parse)
}

fn usage(input: Option<u64>, output: Option<u64>) -> Usage {
    Usage {
        input_tokens: input,
        output_tokens: output,
        cache_creation_input_tokens: None,
        cache_read_input_tokens: None,
    }
}

fn tokens(input_tokens: u64, output_tokens: u64) -> TokenUsage {
    TokenUsage {
        input_tokens,
        output_tokens,
        cache_creation_input_tokens: 0,
        cache_read_input_tokens: 0,
    }
}

fn tool_start(index: usize, id: &str, name: &str) -> Event {
    Event::ContentBlockStart {
        index,
        content_block: ResponseContent::ToolUse {
            id: id.to_string(),
            name: name.to_string(),
            input: Value::Null,
        },
    }
}

fn json_delta(index: usize, piece: &str) -> Event {
    Event::ContentBlockDelta {
        index,
        delta: ContentDelta::InputJsonDelta {
            partial_json: piece.to_string(),
        },
    }
}

fn message_delta(stop_reason: Option<&str>, usage: Usage) -> Event {
    Event::MessageDelta {
        delta: MessageDelta {
            stop_reason: stop_reason.map(|reason| reason.to_string()),
        },
        usage,
    }
}

#[test]
fn newer_counts_are_preferred() {
    let mut counts = Usage::default();
    assert_eq!(convert_usage(&counts), tokens(0, 0));
    update_usage(&mut counts, &usage(Some(5), None));
    assert_eq!(counts, usage(Some(5), None));
    update_usage(&mut counts, &usage(None, Some(7)));
    assert_eq!(counts, usage(Some(5), Some(7)));
    update_usage(&mut counts, &usage(Some(1), Some(0)));
    assert_eq!(counts, usage(Some(1), Some(0)));
    update_usage(&mut counts, &Usage::default());
    assert_eq!(counts, usage(Some(1), Some(0)));
    let full = Usage {
        input_tokens: Some(1),
        output_tokens: Some(2),
        cache_creation_input_tokens: Some(3),
        cache_read_input_tokens: Some(4),
    };
    update_usage(&mut counts, &full);
    assert_eq!(
        convert_usage(&counts),
        TokenUsage {
            input_tokens: 1,
            output_tokens: 2,
            cache_creation_input_tokens: 3,
            cache_read_input_tokens: 4,
        }
    );
}

#[test]
fn stop_reasons_are_known_by_name() {
    assert_eq!(find_stop_reason("end_turn"), Some(StopReason::EndTurn));
    assert_eq!(find_stop_reason("max_tokens"), Some(StopReason::MaxTokens));
    assert_eq!(find_stop_reason("tool_use"), Some(StopReason::ToolUse));
    assert_eq!(find_stop_reason("refusal"), Some(StopReason::Refusal));
    assert_eq!(find_stop_reason("pause_turn"), None);
}

#[test]
fn text_and_thinking_pass_through() {
    let mut mapper = AnthropicEventMapper::new();
    let events = map(
        &mut mapper,
        Event::ContentBlockStart {
            index: 0,
            content_block: ResponseContent::Text {
                text: "He".to_string(),
            },
        },
    );
    assert!(matches!(&events[..], [Ok(LanguageModelCompletionEvent::Text(t))] if t == "He"));
    let events = map(
        &mut mapper,
        Event::ContentBlockDelta {
            index: 0,
            delta: ContentDelta::TextDelta {
                text: "llo".to_string(),
            },
        },
    );
    assert!(matches!(&events[..], [Ok(LanguageModelCompletionEvent::Text(t))] if t == "llo"));
    let events = map(
        &mut mapper,
        Event::ContentBlockStart {
            index: 1,
            content_block: ResponseContent::Thinking {
                thinking: "hm".to_string(),
            },
        },
    );
    assert!(matches!(
        &events[..],
        [Ok(LanguageModelCompletionEvent::Thinking { text, signature: None })] if text == "hm"
    ));
    let events = map(
        &mut mapper,
        Event::ContentBlockDelta {
            index: 1,
            delta: ContentDelta::ThinkingDelta {
                thinking: "mm".to_string(),
            },
        },
    );
    assert!(matches!(
        &events[..],
        [Ok(LanguageModelCompletionEvent::Thinking { text, signature: None })] if text == "mm"
    ));
    let events = map(
        &mut mapper,
        Event::ContentBlockDelta {
            index: 1,
            delta: ContentDelta::SignatureDelta {
                signature: "sig".to_string(),
            },
        },
    );
    assert!(matches!(
        &events[..],
        [Ok(LanguageModelCompletionEvent::Thinking { text, signature: Some(signature) })]
            if text.is_empty() && signature == "sig"
    ));
    let events = map(
        &mut mapper,
        Event::ContentBlockStart {
            index: 2,
            content_block: ResponseContent::RedactedThinking {
                data: "xx".to_string(),
            },
        },
    );
    assert!(matches!(
        &events[..],
        [Ok(LanguageModelCompletionEvent::RedactedThinking { data })] if data == "xx"
    ));
    assert!(map(&mut mapper, Event::ContentBlockStop { index: 0 }).is_empty());
    assert!(map(&mut mapper, Event::Ping).is_empty());
}

#[test]
fn tool_call_comes_out_whole() {
    let mut mapper = AnthropicEventMapper::new();
    assert!(map(&mut mapper, tool_start(1, "call_1", "read")).is_empty());
    assert!(map(&mut mapper, tool_start(2, "call_2", "list")).is_empty());

    let events = map(&mut mapper, json_delta(1, "{\"path\": \"src"));
    match &events[..] {
        [Ok(LanguageModelCompletionEvent::ToolUse(tool_use))] => {
            assert_eq!(tool_use.id, "call_1");
            assert_eq!(tool_use.name, "read");
            assert_eq!(tool_use.raw_input, "{\"path\": \"src");
            assert_eq!(tool_use.input["path"], Value::String("src".to_string()));
            assert!(!tool_use.is_input_complete);
            assert_eq!(tool_use.thought_signature, None);
        }
        other => panic!("unexpected events {other:?}"),
    }
    // A piece that cannot be made into JSON shows nothing, and is kept all the same.
    assert!(map(&mut mapper, json_delta(2, "nul")).is_empty());
    let events = map(&mut mapper, json_delta(1, "/lib.rs\"} "));
    assert_eq!(events.len(), 1);

    let events = map(&mut mapper, Event::ContentBlockStop { index: 1 });
    match &events[..] {
        [Ok(LanguageModelCompletionEvent::ToolUse(tool_use))] => {
            assert_eq!(tool_use.id, "call_1");
            assert_eq!(tool_use.raw_input, "{\"path\": \"src/lib.rs\"} ");
            assert_eq!(tool_use.input["path"], Value::String("src/lib.rs".to_string()));
            assert!(tool_use.is_input_complete);
        }
        other => panic!("unexpected events {other:?}"),
    }
    assert!(map(&mut mapper, json_delta(2, "l")).len() == 1);
    let events = map(&mut mapper, Event::ContentBlockStop { index: 2 });
    assert!(matches!(
        &events[..],
        [Ok(LanguageModelCompletionEvent::ToolUse(tool_use))]
            if tool_use.name == "list" && tool_use.input == Value::Null
    ));
}

#[test]
fn arguments_that_cannot_be_read_are_reported() {
    let mut mapper = AnthropicEventMapper::new();
    map(&mut mapper, tool_start(0, "call", "read"));
    map(&mut mapper, json_delta(0, " {\"a\" "));
    let events = map(&mut mapper, Event::ContentBlockStop { index: 0 });
    match &events[..] {
        [Ok(LanguageModelCompletionEvent::ToolUseJsonParseError {
            id,
            tool_name,
            raw_input,
            json_parse_error,
        })] => {
            assert_eq!(id, "call");
            assert_eq!(tool_name, "read");
            assert_eq!(raw_input, "{\"a\"");
            assert_eq!(json_parse_error, &parse("{\"a\"").unwrap_err());
        }
        other => panic!("unexpected events {other:?}"),
    }
}

#[test]
fn call_without_arguments_is_read_from_nothing() {
    let mut mapper = AnthropicEventMapper::new();
    map(&mut mapper, tool_start(0, "call", "now"));
    map(&mut mapper, json_delta(0, "  "));
    let events = map(&mut mapper, Event::ContentBlockStop { index: 0 });
    assert!(matches!(
        &events[..],
        [Ok(LanguageModelCompletionEvent::ToolUse(tool_use))]
            if tool_use.input == Value::Object(serde_json::Map::new())
                && tool_use.raw_input == "  "
    ));
}

#[test]
fn pieces_and_ends_of_unknown_calls_are_ignored() {
    let mut mapper = AnthropicEventMapper::new();
    assert!(map(&mut mapper, json_delta(3, "{}")).is_empty());
    assert!(map(&mut mapper, Event::ContentBlockStop { index: 3 }).is_empty());
    map(&mut mapper, tool_start(3, "call", "read"));
    assert_eq!(map(&mut mapper, Event::ContentBlockStop { index: 3 }).len(), 1);
    assert!(map(&mut mapper, Event::ContentBlockStop { index: 3 }).is_empty());
}

#[test]
fn message_reports_usage_and_stop_reason() {
    let mut mapper = AnthropicEventMapper::new();
    let events = map(
        &mut mapper,
        Event::MessageStart {
            message: Response {
                id: "msg".to_string(),
                usage: usage(Some(10), Some(1)),
            },
        },
    );
    assert!(matches!(
        &events[..],
        [
            Ok(LanguageModelCompletionEvent::UsageUpdate(counts)),
            Ok(LanguageModelCompletionEvent::StartMessage { message_id }),
        ] if *counts == tokens(10, 1) && message_id == "msg"
    ));
    let events = map(&mut mapper, message_delta(Some("tool_use"), usage(None, Some(20))));
    assert!(matches!(
        &events[..],
        [Ok(LanguageModelCompletionEvent::UsageUpdate(counts))] if *counts == tokens(10, 20)
    ));
    map(&mut mapper, message_delta(None, Usage::default()));
    assert!(matches!(
        &map(&mut mapper, Event::MessageStop)[..],
        [Ok(LanguageModelCompletionEvent::Stop(StopReason::ToolUse))]
    ));
    map(&mut mapper, message_delta(Some("surprise"), Usage::default()));
    assert!(matches!(
        &map(&mut mapper, Event::MessageStop)[..],
        [Ok(LanguageModelCompletionEvent::Stop(StopReason::EndTurn))]
    ));
    assert!(matches!(
        &map(&mut AnthropicEventMapper::new(), Event::MessageStop)[..],
        [Ok(LanguageModelCompletionEvent::Stop(StopReason::EndTurn))]
    ));
}

#[test]
fn errors_of_the_api_and_of_the_stream_are_told_apart() {
    let overloaded = || Event::Error {
        error: ApiError {
            error_type: "overloaded_error".to_string(),
            message: "Overloaded".to_string(),
        },
    };
    let mut mapper = AnthropicEventMapper::new();
    let events = map(&mut mapper, overloaded());
    assert!(matches!(
        &events[..],
        [Err(error)] if error.error_type == "overloaded_error" && error.message == "Overloaded"
    ));
    let items = mapper.map_item(Ok::<Event, u8>(overloaded()), &close, &parse);
    assert!(matches!(
        &items[..],
        [Err(LanguageModelCompletionError::Api(error))] if error.message == "Overloaded"
    ));
    let items = mapper.map_item(Err::<Event, u8>(9), &close, &parse);
    assert!(matches!(&items[..], [Err(LanguageModelCompletionError::Stream(9))]));
    let items = mapper.map_item(Ok::<Event, u8>(Event::MessageStop), &close, &parse);
    assert!(matches!(
        &items[..],
        [Ok(LanguageModelCompletionEvent::Stop(StopReason::EndTurn))]
    ));
}

#[test]
fn steps_can_be_carried_out_one_by_one() {
    let raw = || RawToolUse {
        id: "id".to_string(),
        name: "name".to_string(),
        input_json: " [1".to_string(),
    };
    assert!(partial_tool_use(raw(), None).is_empty());
    assert!(matches!(
        &partial_tool_use(raw(), Some(Value::Bool(true)))[..],
        [Ok(LanguageModelCompletionEvent::ToolUse(tool_use))]
            if tool_use.input == Value::Bool(true) && tool_use.raw_input == " [1"
                && !tool_use.is_input_complete
    ));
    assert!(matches!(
        &complete_tool_use(raw(), Ok(Value::Null))[..],
        [Ok(LanguageModelCompletionEvent::ToolUse(tool_use))]
            if tool_use.input == Value::Null && tool_use.raw_input == " [1"
                && tool_use.is_input_complete
    ));
    assert!(matches!(
        &complete_tool_use(raw(), Err("why".to_string()))[..],
        [Ok(LanguageModelCompletionEvent::ToolUseJsonParseError { raw_input, json_parse_error, .. })]
            if raw_input == "[1" && json_parse_error == "why"
    ));

    let mut mapper = AnthropicEventMapper::new();
    assert!(matches!(
        mapper.apply_event(tool_start(0, "id", "name")),
        MapStep::Emit(events) if events.is_empty()
    ));
    assert!(matches!(
        mapper.apply_event(json_delta(0, "[")),
        MapStep::Partial(tool_use) if tool_use.input_json == "["
    ));
    assert!(matches!(
        mapper.apply_event(json_delta(0, "]")),
        MapStep::Partial(tool_use) if tool_use.input_json == "[]"
    ));
    assert!(matches!(
        mapper.apply_event(Event::ContentBlockStop { index: 0 }),
        MapStep::Complete(tool_use) if tool_use.input_json == "[]" && tool_use.id == "id"
    ));
}

fn conversation() -> Vec<Result<Event, u8>> {
    vec![
        Ok(tool_start(1, "call", "find")),
        Ok(json_delta(1, "{\"a\":")),
        Ok(json_delta(1, "1}")),
        Ok(Event::ContentBlockStop { index: 1 }),
        Ok(message_delta(Some("tool_use"), usage(None, Some(4)))),
        Ok(Event::MessageStop),
    ]
}

#[test]
fn stream_gives_what_its_items_give_in_order() {
    let whole = AnthropicEventMapper::new().map_stream(conversation(), &close, &parse);
    let mut mapper = AnthropicEventMapper::new();
    let mut one_by_one = vec![];
    for item in conversation() {
        one_by_one.extend(mapper.map_item(item, &close, &parse));
    }
    assert_eq!(format!("{whole:?}"), format!("{one_by_one:?}"));
    assert!(matches!(
        whole.last(),
        Some(Ok(LanguageModelCompletionEvent::Stop(StopReason::ToolUse)))
    ));
    assert!(whole.iter().any(|item| matches!(
        item,
        Ok(LanguageModelCompletionEvent::ToolUse(tool_use))
            if tool_use.is_input_complete && tool_use.raw_input == "{\"a\":1}"
    )));
    let nothing: Vec<Result<Event, u8>> = vec![];
    assert!(AnthropicEventMapper::new().map_stream(nothing, &close, &parse).is_empty());
}

#[test]
fn failure_adds_itself_and_nothing_else() {
    let whole = AnthropicEventMapper::new().map_stream(conversation(), &close, &parse);
    for at in 0..=conversation().len() {
        let mut before = conversation();
        before.truncate(at);
        let of_before = AnthropicEventMapper::new()
            .map_stream(before, &close, &parse)
            .len();
        let mut failing = conversation();
        failing.insert(at, Err(9));
        let mut items = AnthropicEventMapper::new().map_stream(failing, &close, &parse);
        assert!(matches!(
            items.remove(of_before),
            Err(LanguageModelCompletionError::Stream(9))
        ));
        assert_eq!(format!("{items:?}"), format!("{whole:?}"));
    }
}
