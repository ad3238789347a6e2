//! Laws of views: they show everything that is sent and received, and each thing as what it is.

use vstd::prelude::*;

use crate::anthropic::{
    ApiError,
    Message,
    Request,
    RequestContent,
    StringOrContents,
    Tool,
    ToolResultContent,
    ToolResultPart,
};
use crate::cpu_probe::ReportLine;
use crate::echo_agent::{EchoAction, Incoming, StreamStep};
use crate::event_mapper::{CompletionItem, LanguageModelCompletionError, MapStep, MappedEvent};
use crate::language_model::LanguageModelCompletionEvent;

verus! {

use crate::anthropic::{
    blocks_view,
    messages_view,
    tools_view,
    MessageView,
    RequestContentView,
    StringOrContentsView,
    ToolResultContentView,
    ToolResultPartView,
    ToolView,
};
use crate::cpu_probe::ReportLineView;
use crate::echo_agent::{EchoActionView, StreamStepView};
use crate::event_mapper::{items_view, mapped_view, MapStepView};
use crate::language_model::CompletionEventView;

/// Whether both texts are absent, or both are there and hold the same characters.
pub open spec fn same_option(text: Option<String>, view: Option<Seq<char>>) -> bool {
    match text {
        Some(text) => view is Some && view->0 == text@,
        None => view is None,
    }
}

/// Whether the view shows the part of the result of a tool.
pub open spec fn shows_part(part: ToolResultPart, view: ToolResultPartView) -> bool {
    match part {
        ToolResultPart::Text { text } => view is Text && view->text == text@,
        ToolResultPart::Image { source } => {
            &&& view is Image
            &&& view->source.source_type == source.source_type@
            &&& view->source.media_type == source.media_type@
            &&& view->source.data == source.data@
        },
    }
}

/// Whether the view shows the result of a tool.
pub open spec fn shows_result(content: ToolResultContent, view: ToolResultContentView) -> bool {
    match content {
        ToolResultContent::Plain(text) => view is Plain && view->Plain_0 == text@,
        ToolResultContent::Multipart(parts) => {
            &&& view is Multipart
            &&& view->Multipart_0.len() == parts@.len()
            &&& forall|k: int|
                0 <= k < parts@.len() ==> shows_part(parts@[k], #[trigger] view->Multipart_0[k])
        },
    }
}

/// Whether the view shows the block.
pub open spec fn shows_block(block: RequestContent, view: RequestContentView) -> bool {
    match block {
        RequestContent::Text { text, cache_control } => view is Text && view->Text_text == text@
            && view->Text_cache_control == cache_control,
        RequestContent::Thinking { thinking, signature, cache_control } => view is Thinking
            && view->thinking == thinking@ && view->signature == signature@
            && view->Thinking_cache_control == cache_control,
        RequestContent::RedactedThinking { data } => view is RedactedThinking && view->data
            == data@,
        RequestContent::Image { source, cache_control } => {
            &&& view is Image
            &&& view->source.source_type == source.source_type@
            &&& view->source.media_type == source.media_type@
            &&& view->source.data == source.data@
            &&& view->Image_cache_control == cache_control
        },
        RequestContent::ToolUse { id, name, input, cache_control } => view is ToolUse && view->id
            == id@ && view->name == name@ && view->input == input && view->ToolUse_cache_control
            == cache_control,
        RequestContent::ToolResult { tool_use_id, is_error, content, cache_control } => {
            &&& view is ToolResult
            &&& view->tool_use_id == tool_use_id@
            &&& view->is_error == is_error
            &&& shows_result(content, view->content)
            &&& view->ToolResult_cache_control == cache_control
        },
    }
}

/// Whether the views show the blocks, all of them and in order.
pub open spec fn show_blocks(
    blocks: Seq<RequestContent>,
    views: Seq<RequestContentView>,
) -> bool {
    &&& views.len() == blocks.len()
    &&& forall|k: int| 0 <= k < blocks.len() ==> shows_block(blocks[k], #[trigger] views[k])
}

/// Whether the view shows the message.
pub open spec fn shows_message(message: Message, view: MessageView) -> bool {
    view.role == message.role && show_blocks(message.content@, view.content)
}

/// Whether the view shows the tool.
pub open spec fn shows_tool(tool: Tool, view: ToolView) -> bool {
    &&& view.name == tool.name@
    &&& view.description == tool.description@
    &&& view.input_schema == tool.input_schema
    &&& view.eager_input_streaming == tool.eager_input_streaming
    &&& view.cache_control == tool.cache_control
}

proof fn lemma_blocks(blocks: Seq<RequestContent>)
    ensures
        show_blocks(blocks, blocks_view(blocks)),
{
    assert forall|k: int| 0 <= k < blocks.len() implies shows_block(
        blocks[k],
        #[trigger] blocks_view(blocks)[k],
    ) by {
        assert(blocks_view(blocks)[k] == blocks[k]@);
    }
}

/// The view of a request shows all of it, message by message, block by block and tool by tool.
pub proof fn law_view_of_request<T>(request: Request<T>)
    ensures
        ({
            let view = request@;
            &&& view.model == request.model@
            &&& view.max_tokens == request.max_tokens
            &&& view.messages.len() == request.messages@.len()
            &&& forall|i: int|
                0 <= i < request.messages@.len() ==> shows_message(
                    request.messages@[i],
                    #[trigger] view.messages[i],
                )
            &&& view.tools.len() == request.tools@.len()
            &&& forall|i: int|
                0 <= i < request.tools@.len() ==> shows_tool(
                    request.tools@[i],
                    #[trigger] view.tools[i],
                )
            &&& view.thinking == request.thinking
            &&& view.tool_choice == request.tool_choice
            &&& match request.system {
                Some(StringOrContents::String(text)) => view.system == Some(
                    StringOrContentsView::String(text@),
                ),
                Some(StringOrContents::Content(blocks)) => view.system is Some
                    && view.system->0 is Content && show_blocks(
                    blocks@,
                    view.system->0->Content_0,
                ),
                None => view.system is None,
            }
            &&& view.cache_control == request.cache_control
            &&& view.metadata == request.metadata
            &&& view.output_config == request.output_config
            &&& view.stop_sequences.len() == request.stop_sequences@.len()
            &&& view.speed == request.speed
            &&& view.temperature == request.temperature
            &&& view.top_k == request.top_k
            &&& view.top_p == request.top_p
        }),
{
    let view = request@;
    assert forall|i: int| 0 <= i < request.messages@.len() implies shows_message(
        request.messages@[i],
        #[trigger] view.messages[i],
    ) by {
        assert(view.messages == messages_view(request.messages@));
        lemma_blocks(request.messages@[i].content@);
    }
    assert forall|i: int| 0 <= i < request.tools@.len() implies shows_tool(
        request.tools@[i],
        #[trigger] view.tools[i],
    ) by {
        assert(view.tools == tools_view(request.tools@));
    }
    if let Some(StringOrContents::Content(blocks)) = request.system {
        lemma_blocks(blocks@);
    }
}

/// The views of messages and blocks show all of them, in order.
pub proof fn law_views_of_messages(messages: Seq<Message>, blocks: Seq<RequestContent>)
    ensures
        messages_view(messages).len() == messages.len(),
        forall|i: int|
            0 <= i < messages.len() ==> shows_message(
                messages[i],
                #[trigger] messages_view(messages)[i],
            ),
        show_blocks(blocks, blocks_view(blocks)),
{
    lemma_blocks(blocks);
    assert forall|i: int| 0 <= i < messages.len() implies shows_message(
        messages[i],
        #[trigger] messages_view(messages)[i],
    ) by {
        lemma_blocks(messages[i].content@);
    }
}

/// Whether the view shows the event of a completion.
pub open spec fn shows_event(
    event: LanguageModelCompletionEvent,
    view: CompletionEventView,
) -> bool {
    match event {
        LanguageModelCompletionEvent::StartMessage { message_id } => view is StartMessage
            && view->message_id == message_id@,
        LanguageModelCompletionEvent::Text(text) => view is Text && view->Text_0 == text@,
        LanguageModelCompletionEvent::Thinking { text, signature } => view is Thinking
            && view->text == text@ && same_option(signature, view->signature),
        LanguageModelCompletionEvent::RedactedThinking { data } => view is RedactedThinking
            && view->data == data@,
        LanguageModelCompletionEvent::ToolUse(tool_use) => {
            &&& view is ToolUse
            &&& view->ToolUse_0.id == tool_use.id@
            &&& view->ToolUse_0.name == tool_use.name@
            &&& view->ToolUse_0.raw_input == tool_use.raw_input@
            &&& view->ToolUse_0.input == tool_use.input
            &&& view->ToolUse_0.is_input_complete == tool_use.is_input_complete
            &&& same_option(tool_use.thought_signature, view->ToolUse_0.thought_signature)
        },
        LanguageModelCompletionEvent::ToolUseJsonParseError {
            id,
            tool_name,
            raw_input,
            json_parse_error,
        } => {
            &&& view is ToolUseJsonParseError
            &&& view->id == id@
            &&& view->tool_name == tool_name@
            &&& view->raw_input == raw_input@
            &&& view->json_parse_error == json_parse_error@
        },
        LanguageModelCompletionEvent::UsageUpdate(usage) => view is UsageUpdate
            && view->UsageUpdate_0 == usage,
        LanguageModelCompletionEvent::Stop(reason) => view is Stop && view->Stop_0 == reason,
    }
}

/// The views of the events of a completion show all of them, in order, and every error as it is.
pub proof fn law_views_of_events<E>(
    event: LanguageModelCompletionEvent,
    mapped: Seq<MappedEvent>,
    items: Seq<CompletionItem<E>>,
    step: MapStep,
)
    ensures
        shows_event(event, event@),
        mapped_view(mapped).len() == mapped.len(),
        forall|k: int|
            0 <= k < mapped.len() ==> match mapped[k] {
                Ok(event) => (#[trigger] mapped_view(mapped)[k]) is Ok && shows_event(
                    event,
                    mapped_view(mapped)[k]->Ok_0,
                ),
                Err(error) => mapped_view(mapped)[k] == Err::<CompletionEventView, ApiError>(error),
            },
        items_view(items).len() == items.len(),
        forall|k: int|
            0 <= k < items.len() ==> match items[k] {
                Ok(event) => (#[trigger] items_view(items)[k]) is Ok && shows_event(
                    event,
                    items_view(items)[k]->Ok_0,
                ),
                Err(error) => items_view(items)[k] == Err::<
                    CompletionEventView,
                    LanguageModelCompletionError<E>,
                >(error),
            },
        match step {
            MapStep::Emit(events) => step@ == MapStepView::Emit(mapped_view(events@)),
            MapStep::Partial(tool_use) => {
                &&& step@ is Partial
                &&& step@->Partial_0.id == tool_use.id@
                &&& step@->Partial_0.name == tool_use.name@
                &&& step@->Partial_0.input_json == tool_use.input_json@
            },
            MapStep::Complete(tool_use) => {
                &&& step@ is Complete
                &&& step@->Complete_0.id == tool_use.id@
                &&& step@->Complete_0.name == tool_use.name@
                &&& step@->Complete_0.input_json == tool_use.input_json@
            },
        },
{
}

/// The view of a line of a report shows all that it says.
pub proof fn law_view_of_report_line(line: ReportLine)
    ensures
        match line {
            ReportLine::Counted { category, count } => line@ == (ReportLineView::Counted {
                category: category@,
                count,
            }),
            ReportLine::Timed { category, count, total, max } => line@ == (ReportLineView::Timed {
                category: category@,
                count,
                total,
                max,
            }),
        },
{
}

/// The views of what the agent reads and does show all of it.
pub proof fn law_views_of_agent(incoming: Incoming, action: EchoAction, step: StreamStep)
    ensures
        incoming@.message == incoming.message,
        same_option(incoming.method, incoming@.method),
        incoming@.has_id == incoming.has_id,
        incoming@.prompt.len() == incoming.prompt@.len(),
        forall|k: int|
            0 <= k < incoming.prompt@.len() ==> same_option(
                incoming.prompt@[k].kind,
                (#[trigger] incoming@.prompt[k]).kind,
            ) && same_option(incoming.prompt@[k].text, incoming@.prompt[k].text),
        match action {
            EchoAction::Skip => action@ is Skip,
            EchoAction::Initialize => action@ is Initialize,
            EchoAction::Authenticate => action@ is Authenticate,
            EchoAction::OpenSession { session_id } => action@ == (EchoActionView::OpenSession {
                session_id: session_id@,
            }),
            EchoAction::Stream { body } => action@ == (EchoActionView::Stream { body: body@ }),
            EchoAction::NotFound => action@ is NotFound,
        },
        match step {
            StreamStep::Chunk(chunk) => step@ == StreamStepView::Chunk(chunk@),
            StreamStep::Stop(reason) => step@ == StreamStepView::Stop(reason@),
        },
{
}

} // verus!
