//! From a language model request to a request of the messages API.

use vstd::prelude::*;

use crate::anthropic::{
    AdaptiveThinkingDisplay,
    AnthropicModelMode,
    CacheControl,
    CacheControlType,
    CacheTtl,
    Effort,
    ImageSource,
    Message,
    OutputConfig,
    Request,
    RequestContent,
    Role,
    Speed,
    StringOrContents,
    Thinking,
    Tool,
    ToolChoice,
    ToolResultContent,
    ToolResultPart,
};
use crate::cache::{mark_last_cacheable_content, place_conversation_breakpoints};
use crate::language_model;
use crate::language_model::{
    LanguageModelRequest,
    LanguageModelRequestMessage,
    LanguageModelRequestTool,
    LanguageModelToolChoice,
    LanguageModelToolResult,
    LanguageModelToolResultContent,
    MessageContent,
};
use crate::text::{same_text, trim_end};

verus! {

use crate::anthropic::{
    blocks_view,
    messages_view,
    tools_view,
    ImageSourceView,
    MessageView,
    RequestContentView,
    RequestView,
    StringOrContentsView,
    ToolResultContentView,
    ToolResultPartView,
    ToolView,
};
use crate::cache::{breakpoints, last_marked, short_lived, with_marks};
use crate::language_model::option_text;
use crate::text::trimmed_end;

/// Where cache breakpoints are placed.
#[derive(Clone, Copy, Debug, PartialEq, Eq, Structural)]
pub enum AnthropicPromptCacheMode {
    /// Nowhere.
    Disabled,
    /// On the last block of each message that wants caching.
    Legacy,
    /// On the tools and the system prompt, on stable turn boundaries and on the tail of the
    /// conversation.
    Automatic,
}

impl Default for AnthropicPromptCacheMode {
    fn default() -> (mode: Self)
        ensures
            mode == AnthropicPromptCacheMode::Automatic,
    {
        AnthropicPromptCacheMode::Automatic
    }
}

/// An image as the API takes it.
pub open spec fn png_source(data: Seq<char>) -> ImageSourceView {
    ImageSourceView { source_type: "base64"@, media_type: "image/png"@, data }
}

/// One part of the result of a tool.
pub open spec fn result_part(part: LanguageModelToolResultContent) -> ToolResultPartView {
    match part {
        LanguageModelToolResultContent::Text(text) => ToolResultPartView::Text { text: text@ },
        LanguageModelToolResultContent::Image(image) => ToolResultPartView::Image {
            source: png_source(image.source@),
        },
    }
}

/// What a tool returned: a single text is sent plain, everything else in parts.
pub open spec fn result_content(
    content: Seq<LanguageModelToolResultContent>,
) -> ToolResultContentView {
    if content.len() == 1 && content[0] is Text {
        ToolResultContentView::Plain(content[0]->Text_0@)
    } else {
        ToolResultContentView::Multipart(
            content.map_values(|part: LanguageModelToolResultContent| result_part(part)),
        )
    }
}

/// The block that a content block becomes; `None` where there is nothing to send. Text loses the
/// whitespace at its end. Blocks without text are dropped, and thinking without a signature.
pub open spec fn converted_block(content: MessageContent) -> Option<RequestContentView> {
    match content {
        MessageContent::Text(text) => {
            let text = trimmed_end(text@);
            if text.len() > 0 {
                Some(RequestContentView::Text { text, cache_control: None })
            } else {
                None
            }
        },
        MessageContent::Thinking { text, signature } => match signature {
            Some(signature) if text@.len() > 0 => Some(
                RequestContentView::Thinking {
                    thinking: text@,
                    signature: signature@,
                    cache_control: None,
                },
            ),
            _ => None,
        },
        MessageContent::RedactedThinking(data) => if data@.len() > 0 {
            Some(RequestContentView::RedactedThinking { data: data@ })
        } else {
            None
        },
        MessageContent::Image(image) => Some(
            RequestContentView::Image {
                source: png_source(image.source@),
                cache_control: None,
            },
        ),
        MessageContent::ToolUse(tool_use) => Some(
            RequestContentView::ToolUse {
                id: tool_use.id@,
                name: tool_use.name@,
                input: tool_use.input,
                cache_control: None,
            },
        ),
        MessageContent::ToolResult(tool_result) => Some(
            RequestContentView::ToolResult {
                tool_use_id: tool_result.tool_use_id@,
                is_error: tool_result.is_error,
                content: result_content(tool_result.content@),
                cache_control: None,
            },
        ),
    }
}

/// The blocks that the content of a message becomes, in order.
pub open spec fn converted(content: Seq<MessageContent>) -> Seq<RequestContentView>
    decreases content.len(),
{
    if content.len() == 0 {
        Seq::empty()
    } else {
        let earlier = converted(content.drop_last());
        match converted_block(content.last()) {
            Some(block) => earlier.push(block),
            None => earlier,
        }
    }
}

fn to_image_source(source: String) -> (image: ImageSource)
    ensures
        image@ == png_source(source@),
{
    ImageSource {
        source_type: "base64".to_string(),
        media_type: "image/png".to_string(),
        data: source,
    }
}

fn to_tool_result_content(content: Vec<LanguageModelToolResultContent>) -> (result:
    ToolResultContent)
    ensures
        result@ == result_content(content@),
{
    if content.len() == 1 {
        if let LanguageModelToolResultContent::Text(text) = &content[0] {
            return ToolResultContent::Plain(text.clone());
        }
    }
    let mut parts: Vec<ToolResultPart> = Vec::new();
    for part in it: content
        invariant
            it.seq() == content@,
            parts@.len() == it.index(),
            forall|k: int| 0 <= k < parts@.len() ==> (#[trigger] parts@[k])@ == result_part(content@[k]),
    {
        parts.push(
            match part {
                LanguageModelToolResultContent::Text(text) => ToolResultPart::Text { text },
                LanguageModelToolResultContent::Image(image) => ToolResultPart::Image {
                    source: to_image_source(image.source),
                },
            },
        );
    }
    let result = ToolResultContent::Multipart(parts);
    assert(parts@.map_values(|part: ToolResultPart| part@) =~= content@.map_values(
        |part: LanguageModelToolResultContent| result_part(part),
    ));
    result
}

/// The block that `content` becomes, if there is anything to send.
pub fn to_anthropic_content(content: MessageContent) -> (block: Option<RequestContent>)
    ensures
        block is Some <==> converted_block(content) is Some,
        block is Some ==> block->0@ == converted_block(content)->0,
{
    match content {
        MessageContent::Text(text) => {
            let text = trim_end(text.as_str());
            if !text.as_str().is_empty() {
                Some(RequestContent::Text { text, cache_control: None })
            } else {
                None
            }
        },
        MessageContent::Thinking { text: thinking, signature } => {
            match signature {
                Some(signature) if !thinking.as_str().is_empty() => Some(
                    RequestContent::Thinking { thinking, signature, cache_control: None },
                ),
                _ => None,
            }
        },
        MessageContent::RedactedThinking(data) => {
            if !data.as_str().is_empty() {
                Some(RequestContent::RedactedThinking { data })
            } else {
                None
            }
        },
        MessageContent::Image(image) => Some(
            RequestContent::Image { source: to_image_source(image.source), cache_control: None },
        ),
        MessageContent::ToolUse(tool_use) => Some(
            RequestContent::ToolUse {
                id: tool_use.id,
                name: tool_use.name,
                input: tool_use.input,
                cache_control: None,
            },
        ),
        MessageContent::ToolResult(tool_result) => {
            let LanguageModelToolResult { tool_use_id, is_error, content } = tool_result;
            Some(
                RequestContent::ToolResult {
                    tool_use_id,
                    is_error,
                    content: to_tool_result_content(content),
                    cache_control: None,
                },
            )
        },
    }
}

fn convert_content(content: Vec<MessageContent>) -> (blocks: Vec<RequestContent>)
    ensures
        blocks_view(blocks@) == converted(content@),
{
    let mut blocks: Vec<RequestContent> = Vec::new();
    assert(blocks_view(blocks@) =~= converted(content@.take(0)));
    for part in it: content
        invariant
            it.seq() == content@,
            blocks_view(blocks@) == converted(content@.take(it.index() as int)),
    {
        let ghost before = blocks@;
        let ghost ix = it.index() as int;
        assert(content@.take(ix + 1).drop_last() =~= content@.take(ix));
        if let Some(block) = to_anthropic_content(part) {
            blocks.push(block);
            assert(blocks_view(blocks@) =~= blocks_view(before).push(block@));
        }
    }
    assert(content@.take(content@.len() as int) =~= content@);
    blocks
}

/// The role under which a message is sent; system prompts are sent apart from the messages.
pub open spec fn sent_role(role: language_model::Role) -> Option<Role> {
    match role {
        language_model::Role::User => Some(Role::User),
        language_model::Role::Assistant => Some(Role::Assistant),
        language_model::Role::System => None,
    }
}

/// The blocks that a message contributes. In legacy mode the last one that can hold a breakpoint
/// is marked, where the message wants caching.
pub open spec fn message_blocks(
    message: LanguageModelRequestMessage,
    cache_mode: AnthropicPromptCacheMode,
) -> Seq<RequestContentView> {
    let blocks = converted(message.content@);
    if cache_mode == AnthropicPromptCacheMode::Legacy && message.cache {
        last_marked(blocks, short_lived())
    } else {
        blocks
    }
}

/// The messages with `blocks` at their end: in the last message, where that has the same role,
/// and else in a message of their own. Where there are no blocks nothing is added.
pub open spec fn appended(
    messages: Seq<MessageView>,
    role: Role,
    blocks: Seq<RequestContentView>,
) -> Seq<MessageView> {
    if blocks.len() == 0 {
        messages
    } else if messages.len() > 0 && messages.last().role == role {
        messages.drop_last().push(
            MessageView { role, content: messages.last().content + blocks },
        )
    } else {
        messages.push(MessageView { role, content: blocks })
    }
}

/// The conversation that is sent.
pub open spec fn conversation(
    messages: Seq<LanguageModelRequestMessage>,
    cache_mode: AnthropicPromptCacheMode,
) -> Seq<MessageView>
    decreases messages.len(),
{
    if messages.len() == 0 {
        Seq::empty()
    } else {
        let earlier = conversation(messages.drop_last(), cache_mode);
        let message = messages.last();
        match sent_role(message.role) {
            Some(role) if !message.contents_empty => appended(
                earlier,
                role,
                message_blocks(message, cache_mode),
            ),
            _ => earlier,
        }
    }
}

/// The system prompt: the texts of the system messages, a blank line before each one that does
/// not come first.
pub open spec fn system_prompt(messages: Seq<LanguageModelRequestMessage>) -> Seq<char>
    decreases messages.len(),
{
    if messages.len() == 0 {
        Seq::empty()
    } else {
        let earlier = system_prompt(messages.drop_last());
        let message = messages.last();
        if message.contents_empty || message.role != language_model::Role::System {
            earlier
        } else if earlier.len() == 0 {
            message.string_contents@
        } else {
            earlier + "\n\n"@ + message.string_contents@
        }
    }
}

/// Whether any message that is not skipped wants caching.
pub open spec fn wants_cache(messages: Seq<LanguageModelRequestMessage>) -> bool {
    exists|i: int|
        0 <= i < messages.len() && (#[trigger] messages[i]).cache && !messages[i].contents_empty
}

/// Whether breakpoints are placed automatically.
pub open spec fn caching(
    messages: Seq<LanguageModelRequestMessage>,
    cache_mode: AnthropicPromptCacheMode,
) -> bool {
    cache_mode == AnthropicPromptCacheMode::Automatic && wants_cache(messages)
}

/// The marker of the tools and the system prompt: an entry that lives for an hour.
pub open spec fn long_lived() -> CacheControl {
    CacheControl { cache_type: CacheControlType::Ephemeral, ttl: Some(CacheTtl::OneHour) }
}

/// How the system prompt is sent: as a marked block where `anchor`, else as a string. An empty
/// prompt is not sent.
pub open spec fn sent_system(prompt: Seq<char>, anchor: bool) -> Option<StringOrContentsView> {
    if prompt.len() == 0 {
        None
    } else if anchor {
        Some(
            StringOrContentsView::Content(
                seq![
                    RequestContentView::Text { text: prompt, cache_control: Some(long_lived()) },
                ],
            ),
        )
    } else {
        Some(StringOrContentsView::String(prompt))
    }
}

/// One tool as it is sent.
pub open spec fn sent_tool(tool: LanguageModelRequestTool, mark: Option<CacheControl>) -> ToolView {
    ToolView {
        name: tool.name@,
        description: tool.description@,
        input_schema: tool.input_schema,
        eager_input_streaming: tool.use_input_streaming,
        cache_control: mark,
    }
}

/// The tools as they are sent; the last one is marked where `anchor`.
pub open spec fn sent_tools(tools: Seq<LanguageModelRequestTool>, anchor: bool) -> Seq<ToolView> {
    Seq::new(
        tools.len(),
        |i: int|
            sent_tool(
                tools[i],
                if anchor && i == tools.len() - 1 {
                    Some(long_lived())
                } else {
                    None
                },
            ),
    )
}

/// How the model is to think.
pub open spec fn sent_thinking(allowed: bool, mode: AnthropicModelMode) -> Option<Thinking> {
    if !allowed {
        None
    } else {
        match mode {
            AnthropicModelMode::Thinking { budget_tokens } => Some(
                Thinking::Enabled { budget_tokens },
            ),
            AnthropicModelMode::AdaptiveThinking => Some(
                Thinking::Adaptive { display: Some(AdaptiveThinkingDisplay::Summarized) },
            ),
            AnthropicModelMode::Default => None,
        }
    }
}

/// The effort of that name.
pub open spec fn effort_named(name: Seq<char>) -> Option<Effort> {
    if name == "low"@ {
        Some(Effort::Low)
    } else if name == "medium"@ {
        Some(Effort::Medium)
    } else if name == "high"@ {
        Some(Effort::High)
    } else if name == "xhigh"@ {
        Some(Effort::XHigh)
    } else if name == "max"@ {
        Some(Effort::Max)
    } else {
        None
    }
}

/// The effort that is sent: one that is known by name, where thinking is allowed and adaptive.
pub open spec fn sent_output_config(
    allowed: bool,
    mode: AnthropicModelMode,
    effort: Option<Seq<char>>,
) -> Option<OutputConfig> {
    if allowed && mode == AnthropicModelMode::AdaptiveThinking && effort is Some
        && effort_named(effort->0) is Some {
        Some(OutputConfig { effort: effort_named(effort->0) })
    } else {
        None
    }
}

/// The choice of tools as it is sent.
pub open spec fn sent_tool_choice(choice: LanguageModelToolChoice) -> ToolChoice {
    match choice {
        LanguageModelToolChoice::Auto => ToolChoice::Auto,
        LanguageModelToolChoice::Any => ToolChoice::Any,
        LanguageModelToolChoice::Never => ToolChoice::Never,
    }
}

/// The speed as it is sent.
pub open spec fn sent_speed(speed: language_model::Speed) -> Speed {
    match speed {
        language_model::Speed::Standard => Speed::Standard,
        language_model::Speed::Fast => Speed::Fast,
    }
}

/// The request that is sent.
pub open spec fn anthropic_request<T>(
    request: LanguageModelRequest<T>,
    model: Seq<char>,
    default_temperature: T,
    max_output_tokens: u64,
    mode: AnthropicModelMode,
    cache_mode: AnthropicPromptCacheMode,
) -> RequestView<T> {
    let messages = conversation(request.messages@, cache_mode);
    let prompt = system_prompt(request.messages@);
    let anchored = caching(request.messages@, cache_mode);
    RequestView {
        model,
        max_tokens: max_output_tokens,
        messages: if anchored {
            with_marks(messages, breakpoints(messages))
        } else {
            messages
        },
        tools: sent_tools(request.tools@, anchored && prompt.len() == 0),
        thinking: sent_thinking(request.thinking_allowed, mode),
        tool_choice: match request.tool_choice {
            Some(choice) => Some(sent_tool_choice(choice)),
            None => None,
        },
        system: sent_system(prompt, anchored),
        cache_control: None,
        metadata: None,
        output_config: sent_output_config(
            request.thinking_allowed,
            mode,
            option_text(request.thinking_effort),
        ),
        stop_sequences: Seq::empty(),
        speed: match request.speed {
            Some(speed) => Some(sent_speed(speed)),
            None => None,
        },
        temperature: match request.temperature {
            Some(temperature) => Some(temperature),
            None => Some(default_temperature),
        },
        top_k: None,
        top_p: None,
    }
}

/// Adds blocks to the end of the conversation.
fn append_blocks(messages: &mut Vec<Message>, role: Role, blocks: Vec<RequestContent>)
    ensures
        messages_view(final(messages)@) == appended(
            messages_view(old(messages)@),
            role,
            blocks_view(blocks@),
        ),
{
    let ghost before = messages_view(messages@);
    if blocks.is_empty() {
        return;
    }
    let count = messages.len();
    if count > 0 {
        assert(before.last() == messages@.last()@);
        if messages[count - 1].role == role {
            let mut blocks = blocks;
            let ghost added = blocks_view(blocks@);
            messages[count - 1].content.append(&mut blocks);
            proof {
                let after = messages_view(messages@);
                assert(after.last().content =~= before.last().content + added);
                assert(after =~= appended(before, role, added));
            }
            return;
        }
    }
    messages.push(Message { role, content: blocks });
    assert(messages_view(messages@) =~= before.push(
        MessageView { role, content: blocks_view(blocks@) },
    ));
}

/// The messages of a request, sorted out.
struct Conversation {
    messages: Vec<Message>,
    system_message: String,
    any_message_wants_cache: bool,
}

fn gather(
    messages: Vec<LanguageModelRequestMessage>,
    cache_mode: AnthropicPromptCacheMode,
) -> (gathered: Conversation)
    ensures
        messages_view(gathered.messages@) == conversation(messages@, cache_mode),
        gathered.system_message@ == system_prompt(messages@),
        gathered.any_message_wants_cache == wants_cache(messages@),
{
    let mut new_messages: Vec<Message> = Vec::new();
    let mut system_message = String::new();
    let mut any_message_wants_cache = false;
    assert(messages_view(new_messages@) =~= conversation(messages@.take(0), cache_mode));

    for message in it: messages
        invariant
            it.seq() == messages@,
            messages_view(new_messages@) == conversation(
                messages@.take(it.index() as int),
                cache_mode,
            ),
            system_message@ == system_prompt(messages@.take(it.index() as int)),
            any_message_wants_cache == wants_cache(messages@.take(it.index() as int)),
    {
        let ghost ix = it.index() as int;
        let ghost next = messages@.take(ix + 1);
        proof {
            assert(next.drop_last() =~= messages@.take(ix));
            assert(next.last() == message);
            if wants_cache(messages@.take(ix)) {
                let i = choose|i: int|
                    0 <= i < ix && (#[trigger] messages@.take(ix)[i]).cache && !messages@.take(
                        ix,
                    )[i].contents_empty;
                assert(next[i] == messages@.take(ix)[i]);
            }
            if wants_cache(next) {
                let i = choose|i: int|
                    0 <= i < ix + 1 && (#[trigger] next[i]).cache && !next[i].contents_empty;
                if i < ix {
                    assert(next[i] == messages@.take(ix)[i]);
                }
            }
            if message.cache && !message.contents_empty {
                assert(next[ix].cache);
            }
        }
        if !message.contents_empty {
            any_message_wants_cache = any_message_wants_cache || message.cache;

            match message.role {
                language_model::Role::System => {
                    if !system_message.as_str().is_empty() {
                        system_message.append("\n\n");
                    }
                    let ghost earlier = system_message@;
                    system_message.append(message.string_contents.as_str());
                    assert(earlier.len() == 0 ==> system_message@ =~= message.string_contents@);
                },
                language_model::Role::User => {
                    add_message(&mut new_messages, Role::User, message, cache_mode);
                },
                language_model::Role::Assistant => {
                    add_message(&mut new_messages, Role::Assistant, message, cache_mode);
                },
            }
        }
    }
    assert(messages@.take(messages@.len() as int) =~= messages@);
    Conversation { messages: new_messages, system_message, any_message_wants_cache }
}

fn add_message(
    messages: &mut Vec<Message>,
    role: Role,
    message: LanguageModelRequestMessage,
    cache_mode: AnthropicPromptCacheMode,
)
    ensures
        messages_view(final(messages)@) == appended(
            messages_view(old(messages)@),
            role,
            message_blocks(message, cache_mode),
        ),
{
    let mut content = convert_content(message.content);
    if cache_mode == AnthropicPromptCacheMode::Legacy && message.cache {
        mark_last_cacheable_content(
            &mut content,
            CacheControl { cache_type: CacheControlType::Ephemeral, ttl: None },
        );
    }
    append_blocks(messages, role, content);
}

fn convert_tools(tools: Vec<LanguageModelRequestTool>, anchor: bool) -> (sent: Vec<Tool>)
    ensures
        tools_view(sent@) == sent_tools(tools@, anchor),
{
    let mut sent: Vec<Tool> = Vec::new();
    for tool in it: tools
        invariant
            it.seq() == tools@,
            sent@.len() == it.index(),
            forall|k: int| 0 <= k < sent@.len() ==> (#[trigger] sent@[k])@ == sent_tool(tools@[k], None),
    {
        sent.push(
            Tool {
                name: tool.name,
                description: tool.description,
                input_schema: tool.input_schema,
                eager_input_streaming: tool.use_input_streaming,
                cache_control: None,
            },
        );
    }
    let count = sent.len();
    if anchor && count > 0 {
        sent[count - 1].cache_control = Some(
            CacheControl {
                cache_type: CacheControlType::Ephemeral,
                ttl: Some(CacheTtl::OneHour),
            },
        );
    }
    assert(tools_view(sent@) =~= sent_tools(tools@, anchor));
    sent
}

fn find_effort(name: &str) -> (effort: Option<Effort>)
    ensures
        effort == effort_named(name@),
{
    if same_text(name, "low") {
        Some(Effort::Low)
    } else if same_text(name, "medium") {
        Some(Effort::Medium)
    } else if same_text(name, "high") {
        Some(Effort::High)
    } else if same_text(name, "xhigh") {
        Some(Effort::XHigh)
    } else if same_text(name, "max") {
        Some(Effort::Max)
    } else {
        None
    }
}

/// The request to the messages API that `request` becomes.
///
/// Messages of the same role that follow one another are merged, and messages of which nothing is
/// left to send are dropped. In automatic mode, where any message wants caching, the tools and the
/// system prompt are anchored with one long-lived breakpoint and the conversation with up to
/// [`CONVERSATION_CACHE_BREAKPOINTS`](crate::cache::CONVERSATION_CACHE_BREAKPOINTS) short-lived
/// ones.
pub fn into_anthropic<T>(
    request: LanguageModelRequest<T>,
    model: String,
    default_temperature: T,
    max_output_tokens: u64,
    mode: AnthropicModelMode,
    cache_mode: AnthropicPromptCacheMode,
) -> (sent: Request<T>)
    ensures
        sent@ == anthropic_request(
            request,
            model@,
            default_temperature,
            max_output_tokens,
            mode,
            cache_mode,
        ),
{
    let LanguageModelRequest {
        messages,
        tools,
        tool_choice,
        temperature,
        thinking_allowed,
        thinking_effort,
        speed,
    } = request;
    let Conversation { messages: mut new_messages, system_message, any_message_wants_cache } =
        gather(messages, cache_mode);

    // When caching is enabled, anchor the static prefix (tools + system) with a
    // single explicit long-TTL breakpoint. A breakpoint on the system block
    // caches tools + system together (the prefix renders tools, then system,
    // then messages), so a separate tool breakpoint is only needed when there
    // is no system prompt. Spending just one breakpoint here frees the rest for
    // the conversation. Anthropic requires longer TTLs to appear earlier in the
    // prefix, and the long-TTL prefix anchor precedes the short-TTL conversation
    // breakpoints below, so the mix is valid.
    let caching_enabled = cache_mode == AnthropicPromptCacheMode::Automatic
        && any_message_wants_cache;
    let has_system_prompt = !system_message.as_str().is_empty();
    let system = if !has_system_prompt {
        None
    } else if caching_enabled {
        let block = RequestContent::Text {
            text: system_message,
            cache_control: Some(
                CacheControl {
                    cache_type: CacheControlType::Ephemeral,
                    ttl: Some(CacheTtl::OneHour),
                },
            ),
        };
        let blocks = vec![block];
        assert(blocks_view(blocks@) =~= seq![block@]);
        Some(StringOrContents::Content(blocks))
    } else {
        Some(StringOrContents::String(system_message))
    };
    let tools = convert_tools(tools, caching_enabled && !has_system_prompt);

    if caching_enabled {
        place_conversation_breakpoints(&mut new_messages);
    }
    let thinking = if thinking_allowed {
        match mode {
            AnthropicModelMode::Thinking { budget_tokens } => Some(
                Thinking::Enabled { budget_tokens },
            ),
            AnthropicModelMode::AdaptiveThinking => Some(
                Thinking::Adaptive { display: Some(AdaptiveThinkingDisplay::Summarized) },
            ),
            AnthropicModelMode::Default => None,
        }
    } else {
        None
    };
    let output_config = if thinking_allowed && mode == AnthropicModelMode::AdaptiveThinking {
        match &thinking_effort {
            Some(name) => match find_effort(name.as_str()) {
                Some(effort) => Some(OutputConfig { effort: Some(effort) }),
                None => None,
            },
            None => None,
        }
    } else {
        None
    };
    let tool_choice = match tool_choice {
        Some(LanguageModelToolChoice::Auto) => Some(ToolChoice::Auto),
        Some(LanguageModelToolChoice::Any) => Some(ToolChoice::Any),
        Some(LanguageModelToolChoice::Never) => Some(ToolChoice::Never),
        None => None,
    };
    let speed = match speed {
        Some(language_model::Speed::Standard) => Some(Speed::Standard),
        Some(language_model::Speed::Fast) => Some(Speed::Fast),
        None => None,
    };
    let temperature = match temperature {
        Some(temperature) => Some(temperature),
        None => Some(default_temperature),
    };
    let stop_sequences: Vec<String> = Vec::new();
    assert(stop_sequences@.map_values(|stop: String| stop@) =~= Seq::empty());
    Request {
        model,
        messages: new_messages,
        max_tokens: max_output_tokens,
        system,
        // Conversation caching is handled by the explicit rolling breakpoints
        // placed on the messages above, so the top-level automatic breakpoint is
        // left unset to stay within Anthropic's 4-breakpoint budget.
        cache_control: None,
        thinking,
        tools,
        tool_choice,
        metadata: None,
        output_config,
        stop_sequences,
        speed,
        temperature,
        top_k: None,
        top_p: None,
    }
}

} // verus!
