use completion_kit::anthropic::{
    AnthropicModelMode, CacheControl, CacheControlType, CacheTtl, ImageSource, Message, Request,
    RequestContent, Role as SentRole, StringOrContents, Thinking, ToolChoice, ToolResultContent,
    ToolResultPart,
};
use completion_kit::anthropic::{
    AdaptiveThinkingDisplay, Effort, OutputConfig, Speed as SentSpeed,
};
use completion_kit::cache::{
    mark_last_cacheable_content, place_conversation_breakpoints, set_cache_control,
};
use completion_kit::completion::{
    into_anthropic, to_anthropic_content, AnthropicPromptCacheMode,
};
use completion_kit::language_model::{
    LanguageModelImage, LanguageModelRequest, LanguageModelRequestMessage,
    LanguageModelRequestTool, LanguageModelToolChoice, LanguageModelToolResult,
    LanguageModelToolResultContent, LanguageModelToolUse, MessageContent, Role, Speed,
};
use serde_json::Value;

const SHORT: CacheControl = CacheControl {
    cache_type: CacheControlType::Ephemeral,
    ttl: None,
};

const LONG: CacheControl = CacheControl {
    cache_type: CacheControlType::Ephemeral,
    ttl: Some(CacheTtl::OneHour),
};

fn text(text: &str) -> RequestContent {
    RequestContent::Text {
        text: text.to_string(),
        cache_control: None,
    }
}

fn thinking() -> RequestContent {
    RequestContent::Thinking {
        thinking: "hm".to_string(),
        signature: "sig".to_string(),
        cache_control: None,
    }
}

fn redacted() -> RequestContent {
    RequestContent::RedactedThinking {
        data: "data".to_string(),
    }
}

fn result() -> RequestContent {
    RequestContent::ToolResult {
        tool_use_id: "t".to_string(),
        is_error: false,
        content: ToolResultContent::Plain("ok".to_string()),
        cache_control: None,
    }
}

fn mark_of(block: &RequestContent) -> Option<CacheControl> {
    match block {
        RequestContent::Text { cache_control, .. }
        | RequestContent::Thinking { cache_control, .. }
        | RequestContent::Image { cache_control, .. }
        | RequestContent::ToolUse { cache_control, .. }
        | RequestContent::ToolResult { cache_control, .. } => *cache_control,
        RequestContent::RedactedThinking { .. } => None,
    }
}

fn marks(messages: &[Message]) -> Vec<usize> {
    messages
        .iter()
        .flat_map(|message| &message.content)
        .enumerate()
        .filter_map(|(ix, block)| mark_of(block).map(|mark| (ix, mark)))
        .map(|(ix, mark)| {
            assert_eq!(mark, SHORT);
            ix
        })
        .collect()
}

fn user(content: Vec<RequestContent>) -> Message {
    Message {
        role: SentRole::User,
        content,
    }
}

fn assistant(content: Vec<RequestContent>) -> Message {
    Message {
        role: SentRole::Assistant,
        content,
    }
}

#[test]
fn only_blocks_that_can_hold_a_breakpoint_are_marked() {
    let mut block = text("a");
    assert!(set_cache_control(&mut block, Some(LONG)));
    assert_eq!(mark_of(&block), Some(LONG));
    assert!(set_cache_control(&mut block, Some(SHORT)));
    assert_eq!(mark_of(&block), Some(SHORT));
    assert!(set_cache_control(&mut block, None));
    assert_eq!(mark_of(&block), None);
    let mut block = result();
    assert!(set_cache_control(&mut block, Some(SHORT)));
    assert_eq!(mark_of(&block), Some(SHORT));
    let mut block = thinking();
    assert!(!set_cache_control(&mut block, Some(SHORT)));
    assert_eq!(mark_of(&block), None);
    let mut block = redacted();
    assert!(!set_cache_control(&mut block, Some(SHORT)));
}

#[test]
fn last_block_that_can_hold_a_breakpoint_is_marked() {
    let mut blocks = vec![text("a"), text("b"), thinking(), redacted()];
    mark_last_cacheable_content(&mut blocks, SHORT);
    assert_eq!(mark_of(&blocks[0]), None);
    assert_eq!(mark_of(&blocks[1]), Some(SHORT));
    assert_eq!(mark_of(&blocks[2]), None);

    let mut blocks = vec![thinking(), redacted()];
    mark_last_cacheable_content(&mut blocks, SHORT);
    assert_eq!(mark_of(&blocks[0]), None);

    let mut blocks: Vec<RequestContent> = vec![];
    mark_last_cacheable_content(&mut blocks, SHORT);
    assert!(blocks.is_empty());
}

#[test]
fn breakpoints_of_an_empty_conversation() {
    let mut messages: Vec<Message> = vec![];
    place_conversation_breakpoints(&mut messages);
    assert!(messages.is_empty());

    let mut messages = vec![user(vec![thinking()]), assistant(vec![redacted()])];
    place_conversation_breakpoints(&mut messages);
    assert_eq!(marks(&messages), Vec::<usize>::new());
}

#[test]
fn two_most_recent_boundaries_and_the_tail_are_marked() {
    let mut messages = vec![
        user(vec![text("0")]),
        assistant(vec![text("1")]),
        user(vec![text("2")]),
        assistant(vec![text("3")]),
        user(vec![text("4")]),
        assistant(vec![text("5"), text("6")]),
        user(vec![text("7")]),
        assistant(vec![text("8")]),
    ];
    place_conversation_breakpoints(&mut messages);
    assert_eq!(marks(&messages), vec![3, 6, 8]);
}

#[test]
fn tool_results_alone_are_no_boundary() {
    let mut messages = vec![
        user(vec![text("0")]),
        assistant(vec![text("1")]),
        user(vec![result()]),
        assistant(vec![text("3")]),
        user(vec![result(), text("5")]),
        assistant(vec![text("6")]),
    ];
    place_conversation_breakpoints(&mut messages);
    assert_eq!(marks(&messages), vec![3, 6]);
}

#[test]
fn boundaries_are_snapped_back_and_counted_once() {
    // Both prompts after the first snap onto block 0.
    let mut messages = vec![
        user(vec![text("0")]),
        assistant(vec![thinking()]),
        user(vec![text("2")]),
        assistant(vec![thinking(), redacted()]),
        user(vec![text("5")]),
        assistant(vec![thinking()]),
    ];
    place_conversation_breakpoints(&mut messages);
    assert_eq!(marks(&messages), vec![0, 2, 5]);

    let mut messages = vec![
        assistant(vec![text("0")]),
        user(vec![text("1")]),
        assistant(vec![]),
        user(vec![text("2")]),
    ];
    place_conversation_breakpoints(&mut messages);
    assert_eq!(marks(&messages), vec![0, 2]);
}

fn said(role: Role, words: &str, cache: bool) -> LanguageModelRequestMessage {
    LanguageModelRequestMessage {
        role,
        content: vec![MessageContent::Text(words.to_string())],
        cache,
        contents_empty: false,
        string_contents: words.to_string(),
    }
}

fn plain_request(
    messages: Vec<LanguageModelRequestMessage>,
    tools: usize,
) -> LanguageModelRequest<f32> {
    LanguageModelRequest {
        messages,
        tools: (0..tools)
            .map(|i| LanguageModelRequestTool {
                name: format!("tool_{i}"),
                description: format!("Tool {i}."),
                input_schema: Value::Null,
                use_input_streaming: i == 0,
            })
            .collect(),
        tool_choice: None,
        temperature: None,
        thinking_allowed: false,
        thinking_effort: None,
        speed: None,
    }
}

fn send(
    request: LanguageModelRequest<f32>,
    mode: AnthropicModelMode,
    cache_mode: AnthropicPromptCacheMode,
) -> Request<f32> {
    into_anthropic(request, "model".to_string(), 0.5, 64, mode, cache_mode)
}

#[test]
fn last_tool_is_anchored_without_a_system_prompt() {
    let sent = send(
        plain_request(vec![said(Role::User, "hi", true)], 2),
        AnthropicModelMode::Default,
        AnthropicPromptCacheMode::Automatic,
    );
    assert!(sent.system.is_none());
    assert_eq!(sent.tools[0].cache_control, None);
    assert_eq!(sent.tools[1].cache_control, Some(LONG));
    assert_eq!(sent.tools[0].name, "tool_0");
    assert_eq!(sent.tools[0].description, "Tool 0.");
    assert!(sent.tools[0].eager_input_streaming);
    assert!(!sent.tools[1].eager_input_streaming);
    assert_eq!(marks(&sent.messages), vec![0]);
}

#[test]
fn no_more_than_four_breakpoints_in_all() {
    let mut messages = vec![said(Role::System, "be brief", false)];
    for turn in 0..10 {
        messages.push(said(Role::User, &format!("q{turn}"), true));
        messages.push(said(Role::Assistant, &format!("a{turn}"), true));
    }
    let sent = send(
        plain_request(messages, 3),
        AnthropicModelMode::Default,
        AnthropicPromptCacheMode::Automatic,
    );
    let in_tools = sent
        .tools
        .iter()
        .filter(|tool| tool.cache_control.is_some())
        .count();
    let in_system = match &sent.system {
        Some(StringOrContents::Content(blocks)) => {
            assert_eq!(mark_of(&blocks[0]), Some(LONG));
            blocks.len()
        }
        _ => 0,
    };
    assert_eq!(in_tools + in_system + marks(&sent.messages).len(), 4);
    assert_eq!(marks(&sent.messages), vec![15, 17, 19]);
}

#[test]
fn disabled_mode_marks_nothing() {
    let sent = send(
        plain_request(
            vec![
                said(Role::System, "be brief", true),
                said(Role::User, "hi", true),
            ],
            1,
        ),
        AnthropicModelMode::Default,
        AnthropicPromptCacheMode::Disabled,
    );
    assert!(matches!(&sent.system, Some(StringOrContents::String(text)) if text == "be brief"));
    assert_eq!(sent.tools[0].cache_control, None);
    assert_eq!(marks(&sent.messages), Vec::<usize>::new());
}

#[test]
fn default_mode_is_automatic() {
    assert_eq!(
        AnthropicPromptCacheMode::default(),
        AnthropicPromptCacheMode::Automatic
    );
}

#[test]
fn legacy_mode_marks_each_message_that_wants_it() {
    let sent = send(
        plain_request(
            vec![
                said(Role::User, "a", true),
                said(Role::User, "b", false),
                said(Role::User, "c", true),
            ],
            1,
        ),
        AnthropicModelMode::Default,
        AnthropicPromptCacheMode::Legacy,
    );
    assert_eq!(sent.messages.len(), 1);
    assert_eq!(marks(&sent.messages), vec![0, 2]);
    assert_eq!(sent.tools[0].cache_control, None);
}

#[test]
fn boundary_stays_when_the_conversation_goes_on() {
    let earlier = || {
        vec![
            said(Role::User, "q0", false),
            said(Role::Assistant, "a0", false),
            said(Role::User, "q1", true),
        ]
    };
    let first = send(
        plain_request(earlier(), 0),
        AnthropicModelMode::Default,
        AnthropicPromptCacheMode::Automatic,
    );
    assert_eq!(marks(&first.messages), vec![1, 2]);
    let mut messages = earlier();
    messages.push(said(Role::Assistant, "a1", false));
    messages.push(said(Role::User, "q2", true));
    let second = send(
        plain_request(messages, 0),
        AnthropicModelMode::Default,
        AnthropicPromptCacheMode::Automatic,
    );
    assert_eq!(marks(&second.messages), vec![1, 3, 4]);
}

#[test]
fn messages_are_merged_skipped_and_kept_in_order() {
    let mut skipped = said(Role::User, "never", true);
    skipped.contents_empty = true;
    let sent = send(
        plain_request(
            vec![
                said(Role::User, "a", false),
                said(Role::System, "one", false),
                said(Role::User, "b  ", false),
                skipped,
                said(Role::Assistant, "  \n", false),
                said(Role::User, "c", false),
                said(Role::System, "two", false),
                said(Role::Assistant, "d", false),
            ],
            0,
        ),
        AnthropicModelMode::Default,
        AnthropicPromptCacheMode::Automatic,
    );
    assert!(
        matches!(&sent.system, Some(StringOrContents::String(text)) if text == "one\n\ntwo")
    );
    assert_eq!(sent.messages.len(), 2);
    assert_eq!(sent.messages[0].role, SentRole::User);
    assert_eq!(sent.messages[1].role, SentRole::Assistant);
    let words: Vec<&str> = sent
        .messages
        .iter()
        .flat_map(|message| &message.content)
        .map(|block| match block {
            RequestContent::Text { text, .. } => text.as_str(),
            other => panic!("unexpected block {other:?}"),
        })
        .collect();
    assert_eq!(words, vec!["a", "b", "c", "d"]);
    // The message that wanted caching was skipped.
    assert_eq!(marks(&sent.messages), Vec::<usize>::new());
}

#[test]
fn request_parameters_are_carried_over() {
    let mut request = plain_request(vec![], 0);
    request.temperature = Some(0.25);
    request.tool_choice = Some(LanguageModelToolChoice::Any);
    request.speed = Some(Speed::Fast);
    request.thinking_allowed = true;
    request.thinking_effort = Some("low".to_string());
    let sent = send(
        request,
        AnthropicModelMode::Thinking {
            budget_tokens: Some(7),
        },
        AnthropicPromptCacheMode::Automatic,
    );
    assert_eq!(sent.model, "model");
    assert_eq!(sent.max_tokens, 64);
    assert_eq!(sent.temperature, Some(0.25));
    assert_eq!(sent.tool_choice, Some(ToolChoice::Any));
    assert_eq!(sent.speed, Some(SentSpeed::Fast));
    assert_eq!(
        sent.thinking,
        Some(Thinking::Enabled {
            budget_tokens: Some(7)
        })
    );
    assert_eq!(sent.output_config, None);
    assert!(sent.system.is_none());
    assert!(sent.metadata.is_none());
    assert!(sent.stop_sequences.is_empty());
    assert_eq!(sent.top_k, None);
    assert_eq!(sent.top_p, None);

    let sent = send(
        plain_request(vec![], 0),
        AnthropicModelMode::AdaptiveThinking,
        AnthropicPromptCacheMode::Automatic,
    );
    assert_eq!(sent.temperature, Some(0.5));
    assert_eq!(sent.thinking, None);
    assert_eq!(sent.tool_choice, None);
    assert_eq!(sent.speed, None);
}

#[test]
fn tool_choices_and_speeds_are_converted() {
    for (choice, expected) in [
        (LanguageModelToolChoice::Auto, ToolChoice::Auto),
        (LanguageModelToolChoice::Any, ToolChoice::Any),
        (LanguageModelToolChoice::Never, ToolChoice::Never),
    ] {
        let mut request = plain_request(vec![], 0);
        request.tool_choice = Some(choice);
        request.speed = Some(Speed::Standard);
        let sent = send(
            request,
            AnthropicModelMode::Default,
            AnthropicPromptCacheMode::Disabled,
        );
        assert_eq!(sent.tool_choice, Some(expected));
        assert_eq!(sent.speed, Some(SentSpeed::Standard));
        assert_eq!(sent.thinking, None);
    }
}

#[test]
fn effort_is_sent_for_adaptive_thinking_only() {
    for (name, expected) in [
        ("low", Some(Effort::Low)),
        ("medium", Some(Effort::Medium)),
        ("high", Some(Effort::High)),
        ("xhigh", Some(Effort::XHigh)),
        ("max", Some(Effort::Max)),
        ("MAX", None),
        ("", None),
    ] {
        let mut request = plain_request(vec![], 0);
        request.thinking_allowed = true;
        request.thinking_effort = Some(name.to_string());
        let sent = send(
            request,
            AnthropicModelMode::AdaptiveThinking,
            AnthropicPromptCacheMode::Automatic,
        );
        assert_eq!(
            sent.output_config,
            expected.map(|effort| OutputConfig {
                effort: Some(effort)
            })
        );
        assert_eq!(
            sent.thinking,
            Some(Thinking::Adaptive {
                display: Some(AdaptiveThinkingDisplay::Summarized)
            })
        );
    }
    let mut request = plain_request(vec![], 0);
    request.thinking_effort = Some("low".to_string());
    let sent = send(
        request,
        AnthropicModelMode::AdaptiveThinking,
        AnthropicPromptCacheMode::Automatic,
    );
    assert_eq!(sent.output_config, None);
}

fn is_png(source: &ImageSource, data: &str) -> bool {
    source.source_type == "base64" && source.media_type == "image/png" && source.data == data
}

#[test]
fn content_blocks_are_converted() {
    assert!(matches!(
        to_anthropic_content(MessageContent::Text("hello \n".to_string())),
        Some(RequestContent::Text { text, cache_control: None }) if text == "hello"
    ));
    assert!(to_anthropic_content(MessageContent::Text(" \t".to_string())).is_none());
    assert!(to_anthropic_content(MessageContent::RedactedThinking(String::new())).is_none());
    assert!(matches!(
        to_anthropic_content(MessageContent::RedactedThinking("xyz".to_string())),
        Some(RequestContent::RedactedThinking { data }) if data == "xyz"
    ));
    assert!(to_anthropic_content(MessageContent::Thinking {
        text: String::new(),
        signature: Some("sig".to_string()),
    })
    .is_none());
    assert!(matches!(
        to_anthropic_content(MessageContent::Image(LanguageModelImage {
            source: "AAAA".to_string()
        })),
        Some(RequestContent::Image { source, cache_control: None }) if is_png(&source, "AAAA")
    ));
    assert!(matches!(
        to_anthropic_content(MessageContent::ToolUse(LanguageModelToolUse {
            id: "id".to_string(),
            name: "name".to_string(),
            raw_input: "true".to_string(),
            input: Value::Bool(true),
            is_input_complete: true,
            thought_signature: None,
        })),
        Some(RequestContent::ToolUse { id, name, input: Value::Bool(true), cache_control: None })
            if id == "id" && name == "name"
    ));
}

#[test]
fn tool_results_are_plain_or_in_parts() {
    let convert = |content: Vec<LanguageModelToolResultContent>| match to_anthropic_content(
        MessageContent::ToolResult(LanguageModelToolResult {
            tool_use_id: "call".to_string(),
            is_error: true,
            content,
        }),
    ) {
        Some(RequestContent::ToolResult {
            tool_use_id,
            is_error: true,
            content,
            cache_control: None,
        }) if tool_use_id == "call" => content,
        other => panic!("unexpected block {other:?}"),
    };
    let words = |text: &str| LanguageModelToolResultContent::Text(text.to_string());
    let image = || {
        LanguageModelToolResultContent::Image(LanguageModelImage {
            source: "BBBB".to_string(),
        })
    };
    assert!(matches!(convert(vec![words("one")]), ToolResultContent::Plain(text) if text == "one"));
    assert!(
        matches!(convert(vec![]), ToolResultContent::Multipart(parts) if parts.is_empty())
    );
    assert!(matches!(
        convert(vec![image()]),
        ToolResultContent::Multipart(parts)
            if matches!(&parts[..], [ToolResultPart::Image { source }] if is_png(source, "BBBB"))
    ));
    match convert(vec![words("one"), image()]) {
        ToolResultContent::Multipart(parts) => {
            assert_eq!(parts.len(), 2);
            assert!(matches!(&parts[0], ToolResultPart::Text { text } if text == "one"));
            assert!(
                matches!(&parts[1], ToolResultPart::Image { source } if is_png(source, "BBBB"))
            );
        }
        other => panic!("unexpected content {other:?}"),
    }
}
