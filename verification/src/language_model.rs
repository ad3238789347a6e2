//! The provider-independent side: what a request to a language model holds, and the events of its
//! completion.

use vstd::prelude::*;

verus! {

/// Who speaks in a message.
#[derive(Clone, Copy, Debug, PartialEq, Eq, Structural)]
pub enum Role {
    User,
    Assistant,
    System,
}

/// An image in base64 form.
#[derive(Debug)]
pub struct LanguageModelImage {
    pub source: String,
}

/// A call of a tool.
#[derive(Debug)]
pub struct LanguageModelToolUse {
    pub id: String,
    pub name: String,
    pub raw_input: String,
    pub input: serde_json::Value,
    /// Whether `input` holds all of the arguments, and not only those that have arrived so far.
    pub is_input_complete: bool,
    pub thought_signature: Option<String>,
}

/// One part of what came of a call of a tool.
#[derive(Debug)]
pub enum LanguageModelToolResultContent {
    Text(String),
    Image(LanguageModelImage),
}

/// What came of a call of a tool.
#[derive(Debug)]
pub struct LanguageModelToolResult {
    pub tool_use_id: String,
    pub is_error: bool,
    pub content: Vec<LanguageModelToolResultContent>,
}

/// One content block of a message.
#[derive(Debug)]
pub enum MessageContent {
    Text(String),
    Thinking { text: String, signature: Option<String> },
    RedactedThinking(String),
    Image(LanguageModelImage),
    ToolUse(LanguageModelToolUse),
    ToolResult(LanguageModelToolResult),
}

/// One message of a request, as far as the conversion reads it.
#[derive(Debug)]
pub struct LanguageModelRequestMessage {
    pub role: Role,
    pub content: Vec<MessageContent>,
    /// Whether the conversation up to here is worth caching.
    pub cache: bool,
    /// Whether whoever wrote the message counts its content as empty. Such a message is skipped.
    pub contents_empty: bool,
    /// The text of the message, as whoever wrote it renders its content. System prompts are made
    /// of it.
    pub string_contents: String,
}

/// A tool that the model may call.
#[derive(Debug)]
pub struct LanguageModelRequestTool {
    pub name: String,
    pub description: String,
    pub input_schema: serde_json::Value,
    pub use_input_streaming: bool,
}

/// Which tools the model is to call; `Never` is the choice of no tool.
#[derive(Clone, Copy, Debug, PartialEq, Eq, Structural)]
pub enum LanguageModelToolChoice {
    Auto,
    Any,
    Never,
}

/// How fast the answer is to come.
#[derive(Clone, Copy, Debug, PartialEq, Eq, Structural)]
pub enum Speed {
    Standard,
    Fast,
}

/// A request to a language model, as far as the conversion reads it. `T` is the number type of
/// sampling parameters.
#[derive(Debug)]
pub struct LanguageModelRequest<T> {
    pub messages: Vec<LanguageModelRequestMessage>,
    pub tools: Vec<LanguageModelRequestTool>,
    pub tool_choice: Option<LanguageModelToolChoice>,
    pub temperature: Option<T>,
    pub thinking_allowed: bool,
    pub thinking_effort: Option<String>,
    pub speed: Option<Speed>,
}

/// Why a completion came to its end.
#[derive(Clone, Copy, Debug, PartialEq, Eq, Structural)]
pub enum StopReason {
    EndTurn,
    MaxTokens,
    ToolUse,
    Refusal,
}

/// Token counts of a completion.
#[derive(Clone, Copy, Debug, PartialEq, Eq, Structural)]
pub struct TokenUsage {
    pub input_tokens: u64,
    pub output_tokens: u64,
    pub cache_creation_input_tokens: u64,
    pub cache_read_input_tokens: u64,
}

/// One event of a completion.
#[derive(Debug)]
pub enum LanguageModelCompletionEvent {
    StartMessage { message_id: String },
    Text(String),
    Thinking { text: String, signature: Option<String> },
    RedactedThinking { data: String },
    ToolUse(LanguageModelToolUse),
    ToolUseJsonParseError {
        id: String,
        tool_name: String,
        raw_input: String,
        json_parse_error: String,
    },
    UsageUpdate(TokenUsage),
    Stop(StopReason),
}

/// The characters of a text that may be absent.
pub open spec fn option_text(text: Option<String>) -> Option<Seq<char>> {
    match text {
        Some(text) => Some(text@),
        None => None,
    }
}

/// What a [`LanguageModelToolUse`] says.
#[verifier::ext_equal]
pub ghost struct ToolUseView {
    pub id: Seq<char>,
    pub name: Seq<char>,
    pub raw_input: Seq<char>,
    pub input: serde_json::Value,
    pub is_input_complete: bool,
    pub thought_signature: Option<Seq<char>>,
}

impl View for LanguageModelToolUse {
    type V = ToolUseView;

    open spec fn view(&self) -> ToolUseView {
        ToolUseView {
            id: self.id@,
            name: self.name@,
            raw_input: self.raw_input@,
            input: self.input,
            is_input_complete: self.is_input_complete,
            thought_signature: option_text(self.thought_signature),
        }
    }
}

/// What a [`LanguageModelCompletionEvent`] says.
#[verifier::ext_equal]
pub ghost enum CompletionEventView {
    StartMessage { message_id: Seq<char> },
    Text(Seq<char>),
    Thinking { text: Seq<char>, signature: Option<Seq<char>> },
    RedactedThinking { data: Seq<char> },
    ToolUse(ToolUseView),
    ToolUseJsonParseError {
        id: Seq<char>,
        tool_name: Seq<char>,
        raw_input: Seq<char>,
        json_parse_error: Seq<char>,
    },
    UsageUpdate(TokenUsage),
    Stop(StopReason),
}

impl View for LanguageModelCompletionEvent {
    type V = CompletionEventView;

    open spec fn view(&self) -> CompletionEventView {
        match *self {
            LanguageModelCompletionEvent::StartMessage { message_id } =>
                CompletionEventView::StartMessage { message_id: message_id@ },
            LanguageModelCompletionEvent::Text(text) => CompletionEventView::Text(text@),
            LanguageModelCompletionEvent::Thinking { text, signature } =>
                CompletionEventView::Thinking { text: text@, signature: option_text(signature) },
            LanguageModelCompletionEvent::RedactedThinking { data } =>
                CompletionEventView::RedactedThinking { data: data@ },
            LanguageModelCompletionEvent::ToolUse(tool_use) => CompletionEventView::ToolUse(
                tool_use@,
            ),
            LanguageModelCompletionEvent::ToolUseJsonParseError {
                id,
                tool_name,
                raw_input,
                json_parse_error,
            } => CompletionEventView::ToolUseJsonParseError {
                id: id@,
                tool_name: tool_name@,
                raw_input: raw_input@,
                json_parse_error: json_parse_error@,
            },
            LanguageModelCompletionEvent::UsageUpdate(usage) =>
                CompletionEventView::UsageUpdate(usage),
            LanguageModelCompletionEvent::Stop(reason) => CompletionEventView::Stop(reason),
        }
    }
}

} // verus!
