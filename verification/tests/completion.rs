use completion_kit::anthropic::{
    AnthropicModelMode, CacheControl, CacheControlType, CacheTtl, Effort, Request, RequestContent,
    Role as SentRole, StringOrContents,
};
use completion_kit::cache::CONVERSATION_CACHE_BREAKPOINTS;
use completion_kit::completion::{into_anthropic, AnthropicPromptCacheMode};
use completion_kit::language_model::{
    LanguageModelImage, LanguageModelRequest, LanguageModelRequestMessage,
    LanguageModelRequestTool, LanguageModelToolResult, LanguageModelToolResultContent,
    LanguageModelToolUse, MessageContent, Role,
};
use serde_json::Value;

fn object(key: &str, value: &str) -> Value {
    let mut map = serde_json::Map::new();
    map.insert(key.to_string(), Value::String(value.to_string()));
    Value::Object(map)
}

fn empty_image() -> LanguageModelImage {
    LanguageModelImage {
        source: String::new(),
    }
}

fn message(role: Role, content: Vec<MessageContent>, cache: bool) -> LanguageModelRequestMessage {
    let mut string_contents = String::new();
    for part in &content {
        if let MessageContent::Text(text) = part {
            string_contents.push_str(text);
        }
    }
    LanguageModelRequestMessage {
        role,
        content,
        cache,
        contents_empty: false,
        string_contents,
    }
}

fn system(text: &str) -> LanguageModelRequestMessage {
    message(
        Role::System,
        vec![MessageContent::Text(text.to_string())],
        false,
    )
}

fn tool(name: &str, description: &str) -> LanguageModelRequestTool {
    LanguageModelRequestTool {
        name: name.to_string(),
        description: description.to_string(),
        input_schema: object("type", "object"),
        use_input_streaming: false,
    }
}

fn request(
    messages: Vec<LanguageModelRequestMessage>,
    tools: Vec<LanguageModelRequestTool>,
    thinking_effort: Option<&str>,
) -> LanguageModelRequest<f32> {
    LanguageModelRequest {
        messages,
        tools,
        tool_choice: None,
        temperature: None,
        thinking_allowed: true,
        thinking_effort: thinking_effort.map(|effort| effort.to_string()),
        speed: None,
    }
}

#[test]
fn test_caching_anchors_system_and_rolls_conversation_breakpoints() {
    let request = request(
        vec![
            system("You are helpful."),
            message(
                Role::User,
                vec![
                    MessageContent::Text("Some prompt".to_string()),
                    MessageContent::Image(empty_image()),
                    MessageContent::Image(empty_image()),
                ],
                true,
            ),
        ],
        vec![tool("do_thing", "Does a thing.")],
        None,
    );

    let anthropic_request = into_anthropic(
        request,
        "3-5-sonnet".to_string(),
        0.7,
        4096,
        AnthropicModelMode::Default,
        AnthropicPromptCacheMode::Automatic,
    );

    // The conversation tail carries an explicit short-TTL breakpoint, and
    // every conversation breakpoint is a short-TTL ephemeral marker.
    assert_eq!(anthropic_request.messages.len(), 1);
    let content = &anthropic_request.messages[0].content;
    let cache_control_of = |block: &RequestContent| match block {
        RequestContent::Text { cache_control, .. }
        | RequestContent::Thinking { cache_control, .. }
        | RequestContent::Image { cache_control, .. }
        | RequestContent::ToolUse { cache_control, .. }
        | RequestContent::ToolResult { cache_control, .. } => *cache_control,
        RequestContent::RedactedThinking { .. } => None,
    };
    assert!(
        matches!(
            cache_control_of(content.last().expect("message has content")),
            Some(CacheControl {
                cache_type: CacheControlType::Ephemeral,
                ttl: None,
            })
        ),
        "the conversation tail should carry a short-TTL breakpoint",
    );
    let marked = content
        .iter()
        .filter(|b| cache_control_of(b).is_some())
        .count();
    assert!(
        marked >= 1 && marked <= CONVERSATION_CACHE_BREAKPOINTS,
        "expected up to {CONVERSATION_CACHE_BREAKPOINTS} conversation breakpoints, got {marked}",
    );

    // The top-level automatic breakpoint is not used; conversation
    // caching is handled by the explicit breakpoints above.
    assert!(anthropic_request.cache_control.is_none());

    // System prompt is emitted in array form with a long-TTL breakpoint on
    // the final text block.
    match anthropic_request.system {
        Some(StringOrContents::Content(ref blocks)) => {
            assert_eq!(blocks.len(), 1);
            assert!(matches!(
                blocks[0],
                RequestContent::Text {
                    cache_control: Some(CacheControl {
                        cache_type: CacheControlType::Ephemeral,
                        ttl: Some(CacheTtl::OneHour),
                    }),
                    ..
                }
            ));
        }
        other => panic!("expected system content array, got {other:?}"),
    }

    // With a system prompt present, the system breakpoint already caches
    // tools + system together, so no separate tool breakpoint is spent.
    assert_eq!(anthropic_request.tools.len(), 1);
    assert!(anthropic_request.tools[0].cache_control.is_none());
}

fn block_is_marked(block: &RequestContent) -> bool {
    matches!(
        block,
        RequestContent::Text {
            cache_control: Some(_),
            ..
        } | RequestContent::Thinking {
            cache_control: Some(_),
            ..
        } | RequestContent::Image {
            cache_control: Some(_),
            ..
        } | RequestContent::ToolUse {
            cache_control: Some(_),
            ..
        } | RequestContent::ToolResult {
            cache_control: Some(_),
            ..
        }
    )
}

fn marked_block_indices(request: &Request<f32>) -> Vec<usize> {
    request
        .messages
        .iter()
        .flat_map(|message| &message.content)
        .enumerate()
        .filter_map(|(ix, block)| block_is_marked(block).then_some(ix))
        .collect()
}

fn tool_call(i: usize) -> MessageContent {
    MessageContent::ToolUse(LanguageModelToolUse {
        id: format!("tool_{i}"),
        name: "read_file".to_string(),
        raw_input: "{}".to_string(),
        input: object("path", &format!("src/file_{i}.rs")),
        is_input_complete: true,
        thought_signature: None,
    })
}

fn tool_result(i: usize, text: &str) -> MessageContent {
    MessageContent::ToolResult(LanguageModelToolResult {
        tool_use_id: format!("tool_{i}"),
        is_error: false,
        content: vec![LanguageModelToolResultContent::Text(text.to_string())],
    })
}

fn parallel_batch(text: &str, count: usize) -> (Vec<MessageContent>, Vec<MessageContent>) {
    let mut assistant = vec![MessageContent::Text(text.to_string())];
    let mut results = Vec::new();
    for i in 0..count {
        assistant.push(tool_call(i));
        results.push(tool_result(i, "…file contents…"));
    }
    (assistant, results)
}

fn user_message(text: &str) -> LanguageModelRequestMessage {
    message(
        Role::User,
        vec![MessageContent::Text(text.to_string())],
        false,
    )
}

fn assistant_message(content: Vec<MessageContent>) -> LanguageModelRequestMessage {
    message(Role::Assistant, content, false)
}

fn caching_request(messages: Vec<LanguageModelRequestMessage>) -> Request<f32> {
    let mut messages = messages;
    if let Some(last) = messages.last_mut() {
        last.cache = true;
    }
    into_anthropic(
        request(messages, vec![tool("read_file", "Reads a file.")], None),
        "3-5-sonnet".to_string(),
        0.7,
        4096,
        AnthropicModelMode::Default,
        AnthropicPromptCacheMode::Automatic,
    )
}

/// A turn that appends a big batch of parallel tool calls, far more blocks than the cache lookback
/// window, still anchors on the previous turn's stable boundary.
#[test]
fn test_big_batch_turn_anchors_on_prior_boundary_and_tail() {
    let (batch, results) = parallel_batch("Reading the files…", 30);
    let anthropic_request = caching_request(vec![
        system("You are helpful."),
        user_message("First question."),
        assistant_message(vec![MessageContent::Text(
            "Here is turn one's answer.".to_string(),
        )]),
        // Current turn: a new prompt, then a large parallel batch.
        user_message("Now read a bunch of files."),
        assistant_message(batch),
        message(Role::User, results, true),
    ]);

    let flat: Vec<&RequestContent> = anthropic_request
        .messages
        .iter()
        .flat_map(|message| &message.content)
        .collect();
    let breakpoints = marked_block_indices(&anthropic_request);

    // The conversation tail is always marked so the new blocks are written.
    assert_eq!(breakpoints.last(), Some(&(flat.len() - 1)));

    // The previous turn's boundary (the tail of "turn one's answer") is also
    // marked, across a gap far larger than the lookback window.
    let boundary_ix = flat
        .iter()
        .position(|block| {
            matches!(block, RequestContent::Text { text, .. } if text.contains("turn one's answer"))
        })
        .expect("previous turn boundary present");
    assert!(
        breakpoints.contains(&boundary_ix),
        "previous turn's boundary should be anchored (breakpoints: {breakpoints:?}, boundary: {boundary_ix})",
    );
    assert!(
        breakpoints.len() <= CONVERSATION_CACHE_BREAKPOINTS,
        "at most {CONVERSATION_CACHE_BREAKPOINTS} conversation breakpoints, got {breakpoints:?}",
    );
    assert!(anthropic_request.cache_control.is_none());
}

/// The last several boundaries are kept, so an older, already committed one is always available to
/// read the bulk of the conversation.
#[test]
fn test_keeps_multiple_turn_boundaries() {
    let (batch, results) = parallel_batch("Reading now…", 30);
    let anthropic_request = caching_request(vec![
        system("You are helpful."),
        user_message("First question."),
        assistant_message(vec![MessageContent::Text("Turn one answer.".to_string())]),
        user_message("Second question."),
        assistant_message(vec![MessageContent::Text("Turn two answer.".to_string())]),
        user_message("Now read a bunch of files."),
        assistant_message(batch),
        message(Role::User, results, true),
    ]);

    let flat: Vec<&RequestContent> = anthropic_request
        .messages
        .iter()
        .flat_map(|message| &message.content)
        .collect();
    let breakpoints = marked_block_indices(&anthropic_request);

    let boundary_of = |needle: &str| {
        flat.iter()
            .position(|block| {
                matches!(block, RequestContent::Text { text, .. } if text.contains(needle))
            })
            .unwrap_or_else(|| panic!("boundary {needle:?} present"))
    };
    // Both recent boundaries are anchored, the most recent (turn two) and the
    // older, definitely-committed one (turn one), plus the tail.
    let recent_boundary = boundary_of("Turn two answer.");
    let older_boundary = boundary_of("Turn one answer.");
    assert!(
        breakpoints.contains(&older_boundary),
        "an older committed boundary must be kept for read-after-write fallback (breakpoints: {breakpoints:?})",
    );
    assert!(
        breakpoints.contains(&recent_boundary),
        "the most recent boundary should be anchored (breakpoints: {breakpoints:?})",
    );
    assert_eq!(breakpoints.last(), Some(&(flat.len() - 1)));
    assert_eq!(
        breakpoints.len(),
        CONVERSATION_CACHE_BREAKPOINTS,
        "expected tail + two boundaries, got {breakpoints:?}",
    );
}

/// Anthropic rejects `cache_control` on thinking blocks, so breakpoints must never land on one,
/// even when thinking blocks sit on the boundaries.
#[test]
fn test_breakpoints_never_land_on_thinking_blocks() {
    let thinking = || MessageContent::Thinking {
        text: "deliberating…".to_string(),
        signature: Some("sig".to_string()),
    };

    const PARALLEL_TOOL_CALLS: usize = 12;
    let mut batch_content = vec![thinking(), MessageContent::Text("Working…".to_string())];
    let mut tool_result_content = Vec::new();
    for i in 0..PARALLEL_TOOL_CALLS {
        batch_content.push(tool_call(i));
        tool_result_content.push(tool_result(i, "…contents…"));
    }

    let request = request(
        vec![
            system("You are helpful."),
            user_message("First question."),
            assistant_message(vec![
                thinking(),
                MessageContent::Text("Turn one answer.".to_string()),
            ]),
            user_message("Now read the files."),
            assistant_message(batch_content),
            message(Role::User, tool_result_content, true),
        ],
        vec![tool("read_file", "Reads a file.")],
        None,
    );

    let anthropic_request = into_anthropic(
        request,
        "3-5-sonnet".to_string(),
        0.7,
        4096,
        AnthropicModelMode::Default,
        AnthropicPromptCacheMode::Automatic,
    );

    // The request must actually contain thinking blocks, and none may carry
    // a cache_control field.
    let mut saw_thinking = false;
    let mut absolute_ix = 0usize;
    let mut breakpoints = Vec::new();
    for message in &anthropic_request.messages {
        for block in &message.content {
            match block {
                RequestContent::Thinking { cache_control, .. } => {
                    saw_thinking = true;
                    assert!(
                        cache_control.is_none(),
                        "cache_control must never be set on a thinking block",
                    );
                }
                RequestContent::Text {
                    cache_control: Some(_),
                    ..
                }
                | RequestContent::Image {
                    cache_control: Some(_),
                    ..
                }
                | RequestContent::ToolUse {
                    cache_control: Some(_),
                    ..
                }
                | RequestContent::ToolResult {
                    cache_control: Some(_),
                    ..
                } => {
                    breakpoints.push(absolute_ix);
                }
                _ => {}
            }
            absolute_ix += 1;
        }
    }
    assert!(saw_thinking, "test should exercise thinking blocks");

    // At least one breakpoint was placed (tail), and the conversation tail is
    // marked: the thinking blocks on the boundaries were snapped past.
    assert!(!breakpoints.is_empty(), "expected breakpoints to be placed");
}

#[test]
fn test_legacy_caching_marks_last_message_content_block() {
    let request = request(
        vec![
            system("You are helpful."),
            message(
                Role::User,
                vec![
                    MessageContent::Text("Some prompt".to_string()),
                    MessageContent::Image(empty_image()),
                ],
                true,
            ),
        ],
        vec![tool("do_thing", "Does a thing.")],
        None,
    );

    let anthropic_request = into_anthropic(
        request,
        "3-5-sonnet".to_string(),
        0.7,
        4096,
        AnthropicModelMode::Default,
        AnthropicPromptCacheMode::Legacy,
    );

    assert!(anthropic_request.cache_control.is_none());
    assert!(matches!(
        anthropic_request.system,
        Some(StringOrContents::String(_))
    ));
    assert_eq!(anthropic_request.tools.len(), 1);
    assert!(anthropic_request.tools[0].cache_control.is_none());
    assert_eq!(anthropic_request.messages.len(), 1);
    assert!(matches!(
        anthropic_request.messages[0].content[0],
        RequestContent::Text {
            cache_control: None,
            ..
        }
    ));
    assert!(matches!(
        anthropic_request.messages[0].content[1],
        RequestContent::Image {
            cache_control: Some(CacheControl {
                cache_type: CacheControlType::Ephemeral,
                ttl: None,
            }),
            ..
        }
    ));
}

#[test]
fn test_xhigh_effort_is_serialized_for_adaptive_thinking() {
    let request = request(vec![user_message("Hi")], vec![], Some("xhigh"));

    let anthropic_request = into_anthropic(
        request,
        "opus-4-8".to_string(),
        1.0,
        128_000,
        AnthropicModelMode::AdaptiveThinking,
        AnthropicPromptCacheMode::Automatic,
    );

    assert_eq!(
        anthropic_request
            .output_config
            .and_then(|config| config.effort),
        Some(Effort::XHigh)
    );
}

#[test]
fn test_no_cache_control_when_caching_disabled() {
    let request = request(
        vec![system("You are helpful."), user_message("Hi")],
        vec![tool("do_thing", "Does a thing.")],
        None,
    );

    let anthropic_request = into_anthropic(
        request,
        "3-5-sonnet".to_string(),
        0.7,
        4096,
        AnthropicModelMode::Default,
        AnthropicPromptCacheMode::Automatic,
    );

    assert!(anthropic_request.cache_control.is_none());
    assert!(matches!(
        anthropic_request.system,
        Some(StringOrContents::String(_))
    ));
    assert!(anthropic_request.tools[0].cache_control.is_none());
}

fn request_with_assistant_content(assistant_content: Vec<MessageContent>) -> Request<f32> {
    into_anthropic(
        request(
            vec![
                user_message("Hello"),
                message(Role::Assistant, assistant_content, false),
            ],
            vec![],
            None,
        ),
        "sonnet-4-5".to_string(),
        1.0,
        16000,
        AnthropicModelMode::Thinking {
            budget_tokens: Some(10000),
        },
        AnthropicPromptCacheMode::Automatic,
    )
}

#[test]
fn test_unsigned_thinking_blocks_stripped() {
    let result = request_with_assistant_content(vec![
        MessageContent::Thinking {
            text: "Cancelled mid-think, no signature".to_string(),
            signature: None,
        },
        MessageContent::Text("Some response text".to_string()),
    ]);

    let assistant_message = result
        .messages
        .iter()
        .find(|m| m.role == SentRole::Assistant)
        .expect("assistant message should still exist");

    assert_eq!(
        assistant_message.content.len(),
        1,
        "Only the text content should remain; unsigned thinking block should be stripped"
    );
    assert!(matches!(
        &assistant_message.content[0],
        RequestContent::Text { text, .. } if text == "Some response text"
    ));
}

#[test]
fn test_signed_thinking_blocks_preserved() {
    let result = request_with_assistant_content(vec![
        MessageContent::Thinking {
            text: "Completed thinking".to_string(),
            signature: Some("valid-signature".to_string()),
        },
        MessageContent::Text("Response".to_string()),
    ]);

    let assistant_message = result
        .messages
        .iter()
        .find(|m| m.role == SentRole::Assistant)
        .expect("assistant message should exist");

    assert_eq!(
        assistant_message.content.len(),
        2,
        "Both the signed thinking block and text should be preserved"
    );
    assert!(matches!(
        &assistant_message.content[0],
        RequestContent::Thinking { thinking, signature, .. }
            if thinking == "Completed thinking" && signature == "valid-signature"
    ));
}

#[test]
fn test_only_unsigned_thinking_block_omits_entire_message() {
    let result = request_with_assistant_content(vec![MessageContent::Thinking {
        text: "Cancelled before any text or signature".to_string(),
        signature: None,
    }]);

    let assistant_messages: Vec<_> = result
        .messages
        .iter()
        .filter(|m| m.role == SentRole::Assistant)
        .collect();

    assert_eq!(
        assistant_messages.len(),
        0,
        "An assistant message whose only content was an unsigned thinking block \
         should be omitted entirely"
    );
}
