//! The request and event types of the Anthropic messages API.
//!
//! Every type that holds text has a view in which `String` is a sequence of characters and `Vec`
//! is a sequence, so that contracts speak of what is sent and not of how it is stored.

use vstd::prelude::*;

verus! {

/// Who speaks in a message.
#[derive(Clone, Copy, Debug, PartialEq, Eq, Structural)]
pub enum Role {
    User,
    Assistant,
}

/// The kind of a cache entry.
#[derive(Clone, Copy, Debug, PartialEq, Eq, Structural)]
pub enum CacheControlType {
    Ephemeral,
}

/// How long a cache entry lives. Without one the entry has the short default lifetime.
#[derive(Clone, Copy, Debug, PartialEq, Eq, Structural)]
pub enum CacheTtl {
    OneHour,
}

/// A cache breakpoint: the prefix of the request that ends here is written to the cache.
#[derive(Clone, Copy, Debug, PartialEq, Eq, Structural)]
pub struct CacheControl {
    pub cache_type: CacheControlType,
    pub ttl: Option<CacheTtl>,
}

/// An image and how it is encoded.
#[derive(Debug)]
pub struct ImageSource {
    pub source_type: String,
    pub media_type: String,
    pub data: String,
}

/// One part of what a tool returned.
#[derive(Debug)]
pub enum ToolResultPart {
    Text { text: String },
    Image { source: ImageSource },
}

/// What a tool returned: a single text, or parts.
#[derive(Debug)]
pub enum ToolResultContent {
    Plain(String),
    Multipart(Vec<ToolResultPart>),
}

/// One content block of a request.
#[derive(Debug)]
pub enum RequestContent {
    Text { text: String, cache_control: Option<CacheControl> },
    Thinking { thinking: String, signature: String, cache_control: Option<CacheControl> },
    RedactedThinking { data: String },
    Image { source: ImageSource, cache_control: Option<CacheControl> },
    ToolUse {
        id: String,
        name: String,
        input: serde_json::Value,
        cache_control: Option<CacheControl>,
    },
    ToolResult {
        tool_use_id: String,
        is_error: bool,
        content: ToolResultContent,
        cache_control: Option<CacheControl>,
    },
}

/// One message of a request.
#[derive(Debug)]
pub struct Message {
    pub role: Role,
    pub content: Vec<RequestContent>,
}

/// A system prompt: a text, or content blocks.
#[derive(Debug)]
pub enum StringOrContents {
    String(String),
    Content(Vec<RequestContent>),
}

/// A tool that the model may call.
#[derive(Debug)]
pub struct Tool {
    pub name: String,
    pub description: String,
    pub input_schema: serde_json::Value,
    pub eager_input_streaming: bool,
    pub cache_control: Option<CacheControl>,
}

/// Which tools the model is to call; `Never` is the choice of no tool.
#[derive(Clone, Copy, Debug, PartialEq, Eq, Structural)]
pub enum ToolChoice {
    Auto,
    Any,
    Never,
}

/// How a model is driven.
#[derive(Clone, Copy, Debug, PartialEq, Eq, Structural)]
pub enum AnthropicModelMode {
    Default,
    Thinking { budget_tokens: Option<u32> },
    AdaptiveThinking,
}

/// How adaptive thinking is shown.
#[derive(Clone, Copy, Debug, PartialEq, Eq, Structural)]
pub enum AdaptiveThinkingDisplay {
    Summarized,
}

/// How the model is to think.
#[derive(Clone, Copy, Debug, PartialEq, Eq, Structural)]
pub enum Thinking {
    Enabled { budget_tokens: Option<u32> },
    Adaptive { display: Option<AdaptiveThinkingDisplay> },
}

/// How much effort the model is to spend.
#[derive(Clone, Copy, Debug, PartialEq, Eq, Structural)]
pub enum Effort {
    Low,
    Medium,
    High,
    XHigh,
    Max,
}

/// What is asked of the output.
#[derive(Clone, Copy, Debug, PartialEq, Eq, Structural)]
pub struct OutputConfig {
    pub effort: Option<Effort>,
}

/// How fast the answer is to come.
#[derive(Clone, Copy, Debug, PartialEq, Eq, Structural)]
pub enum Speed {
    Standard,
    Fast,
}

/// What a request says of who sends it.
#[derive(Debug)]
pub struct Metadata {
    pub user_id: Option<String>,
}

/// A request to the messages API. `T` is the number type of sampling parameters.
#[derive(Debug)]
pub struct Request<T> {
    pub model: String,
    pub max_tokens: u64,
    pub messages: Vec<Message>,
    pub tools: Vec<Tool>,
    pub thinking: Option<Thinking>,
    pub tool_choice: Option<ToolChoice>,
    pub system: Option<StringOrContents>,
    pub cache_control: Option<CacheControl>,
    pub metadata: Option<Metadata>,
    pub output_config: Option<OutputConfig>,
    pub stop_sequences: Vec<String>,
    pub speed: Option<Speed>,
    pub temperature: Option<T>,
    pub top_k: Option<u32>,
    pub top_p: Option<T>,
}

/// Token counts; a count that is absent was not reported.
#[derive(Clone, Copy, Debug, PartialEq, Eq, Structural)]
pub struct Usage {
    pub input_tokens: Option<u64>,
    pub output_tokens: Option<u64>,
    pub cache_creation_input_tokens: Option<u64>,
    pub cache_read_input_tokens: Option<u64>,
}

impl Default for Usage {
    fn default() -> (usage: Self)
        ensures
            usage == no_usage(),
    {
        Usage {
            input_tokens: None,
            output_tokens: None,
            cache_creation_input_tokens: None,
            cache_read_input_tokens: None,
        }
    }
}

/// The usage in which nothing was reported.
pub open spec fn no_usage() -> Usage {
    Usage {
        input_tokens: None,
        output_tokens: None,
        cache_creation_input_tokens: None,
        cache_read_input_tokens: None,
    }
}

/// The beginning of one content block of a response.
#[derive(Debug)]
pub enum ResponseContent {
    Text { text: String },
    Thinking { thinking: String },
    RedactedThinking { data: String },
    ToolUse { id: String, name: String, input: serde_json::Value },
}

/// A piece of one content block of a response.
#[derive(Debug)]
pub enum ContentDelta {
    TextDelta { text: String },
    ThinkingDelta { thinking: String },
    SignatureDelta { signature: String },
    InputJsonDelta { partial_json: String },
}

/// The head of a response message.
#[derive(Debug)]
pub struct Response {
    pub id: String,
    pub usage: Usage,
}

/// What becomes known of a message while it is streamed.
#[derive(Debug)]
pub struct MessageDelta {
    pub stop_reason: Option<String>,
}

/// An error that the API reports inside the event stream.
#[derive(Debug)]
pub struct ApiError {
    pub error_type: String,
    pub message: String,
}

/// One event of a streamed response.
#[allow(inconsistent_fields)]
#[derive(Debug)]
pub enum Event {
    MessageStart { message: Response },
    ContentBlockStart { index: usize, content_block: ResponseContent },
    ContentBlockDelta { index: usize, delta: ContentDelta },
    ContentBlockStop { index: usize },
    MessageDelta { delta: MessageDelta, usage: Usage },
    MessageStop,
    Ping,
    Error { error: ApiError },
}

/// What an [`ImageSource`] says.
#[verifier::ext_equal]
pub ghost struct ImageSourceView {
    pub source_type: Seq<char>,
    pub media_type: Seq<char>,
    pub data: Seq<char>,
}

impl View for ImageSource {
    type V = ImageSourceView;

    open spec fn view(&self) -> ImageSourceView {
        ImageSourceView {
            source_type: self.source_type@,
            media_type: self.media_type@,
            data: self.data@,
        }
    }
}

/// What a [`ToolResultPart`] says.
#[verifier::ext_equal]
pub ghost enum ToolResultPartView {
    Text { text: Seq<char> },
    Image { source: ImageSourceView },
}

impl View for ToolResultPart {
    type V = ToolResultPartView;

    open spec fn view(&self) -> ToolResultPartView {
        match self {
            ToolResultPart::Text { text } => ToolResultPartView::Text { text: text@ },
            ToolResultPart::Image { source } => ToolResultPartView::Image { source: source@ },
        }
    }
}

/// What a [`ToolResultContent`] says.
#[verifier::ext_equal]
pub ghost enum ToolResultContentView {
    Plain(Seq<char>),
    Multipart(Seq<ToolResultPartView>),
}

impl View for ToolResultContent {
    type V = ToolResultContentView;

    open spec fn view(&self) -> ToolResultContentView {
        match self {
            ToolResultContent::Plain(text) => ToolResultContentView::Plain(text@),
            ToolResultContent::Multipart(parts) => ToolResultContentView::Multipart(
                parts@.map_values(|part: ToolResultPart| part@),
            ),
        }
    }
}

/// What a [`RequestContent`] says.
#[verifier::ext_equal]
pub ghost enum RequestContentView {
    Text { text: Seq<char>, cache_control: Option<CacheControl> },
    Thinking { thinking: Seq<char>, signature: Seq<char>, cache_control: Option<CacheControl> },
    RedactedThinking { data: Seq<char> },
    Image { source: ImageSourceView, cache_control: Option<CacheControl> },
    ToolUse {
        id: Seq<char>,
        name: Seq<char>,
        input: serde_json::Value,
        cache_control: Option<CacheControl>,
    },
    ToolResult {
        tool_use_id: Seq<char>,
        is_error: bool,
        content: ToolResultContentView,
        cache_control: Option<CacheControl>,
    },
}

impl View for RequestContent {
    type V = RequestContentView;

    open spec fn view(&self) -> RequestContentView {
        match *self {
            RequestContent::Text { text, cache_control } => RequestContentView::Text {
                text: text@,
                cache_control,
            },
            RequestContent::Thinking { thinking, signature, cache_control } =>
                RequestContentView::Thinking {
                thinking: thinking@,
                signature: signature@,
                cache_control,
            },
            RequestContent::RedactedThinking { data } => RequestContentView::RedactedThinking {
                data: data@,
            },
            RequestContent::Image { source, cache_control } => RequestContentView::Image {
                source: source@,
                cache_control,
            },
            RequestContent::ToolUse { id, name, input, cache_control } =>
                RequestContentView::ToolUse { id: id@, name: name@, input, cache_control },
            RequestContent::ToolResult { tool_use_id, is_error, content, cache_control } =>
                RequestContentView::ToolResult {
                tool_use_id: tool_use_id@,
                is_error,
                content: content@,
                cache_control,
            },
        }
    }
}

/// What a sequence of blocks says.
pub open spec fn blocks_view(blocks: Seq<RequestContent>) -> Seq<RequestContentView> {
    blocks.map_values(|block: RequestContent| block@)
}

/// What a [`Message`] says.
#[verifier::ext_equal]
pub ghost struct MessageView {
    pub role: Role,
    pub content: Seq<RequestContentView>,
}

impl View for Message {
    type V = MessageView;

    open spec fn view(&self) -> MessageView {
        MessageView { role: self.role, content: blocks_view(self.content@) }
    }
}

/// What a sequence of messages says.
pub open spec fn messages_view(messages: Seq<Message>) -> Seq<MessageView> {
    messages.map_values(|message: Message| message@)
}

/// What a [`StringOrContents`] says.
#[verifier::ext_equal]
pub ghost enum StringOrContentsView {
    String(Seq<char>),
    Content(Seq<RequestContentView>),
}

impl View for StringOrContents {
    type V = StringOrContentsView;

    open spec fn view(&self) -> StringOrContentsView {
        match self {
            StringOrContents::String(text) => StringOrContentsView::String(text@),
            StringOrContents::Content(blocks) => StringOrContentsView::Content(
                blocks_view(blocks@),
            ),
        }
    }
}

/// What a [`Tool`] says.
#[verifier::ext_equal]
pub ghost struct ToolView {
    pub name: Seq<char>,
    pub description: Seq<char>,
    pub input_schema: serde_json::Value,
    pub eager_input_streaming: bool,
    pub cache_control: Option<CacheControl>,
}

impl View for Tool {
    type V = ToolView;

    open spec fn view(&self) -> ToolView {
        ToolView {
            name: self.name@,
            description: self.description@,
            input_schema: self.input_schema,
            eager_input_streaming: self.eager_input_streaming,
            cache_control: self.cache_control,
        }
    }
}

/// What a sequence of tools says.
pub open spec fn tools_view(tools: Seq<Tool>) -> Seq<ToolView> {
    tools.map_values(|tool: Tool| tool@)
}

/// What a [`Request`] says.
#[verifier::ext_equal]
pub ghost struct RequestView<T> {
    pub model: Seq<char>,
    pub max_tokens: u64,
    pub messages: Seq<MessageView>,
    pub tools: Seq<ToolView>,
    pub thinking: Option<Thinking>,
    pub tool_choice: Option<ToolChoice>,
    pub system: Option<StringOrContentsView>,
    pub cache_control: Option<CacheControl>,
    pub metadata: Option<Metadata>,
    pub output_config: Option<OutputConfig>,
    pub stop_sequences: Seq<Seq<char>>,
    pub speed: Option<Speed>,
    pub temperature: Option<T>,
    pub top_k: Option<u32>,
    pub top_p: Option<T>,
}

impl<T> View for Request<T> {
    type V = RequestView<T>;

    open spec fn view(&self) -> RequestView<T> {
        RequestView {
            model: self.model@,
            max_tokens: self.max_tokens,
            messages: messages_view(self.messages@),
            tools: tools_view(self.tools@),
            thinking: self.thinking,
            tool_choice: self.tool_choice,
            system: match self.system {
                Some(system) => Some(system@),
                None => None,
            },
            cache_control: self.cache_control,
            metadata: self.metadata,
            output_config: self.output_config,
            stop_sequences: self.stop_sequences@.map_values(|stop: String| stop@),
            speed: self.speed,
            temperature: self.temperature,
            top_k: self.top_k,
            top_p: self.top_p,
        }
    }
}

} // verus!
