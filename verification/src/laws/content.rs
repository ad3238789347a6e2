//! Laws of what a request says: everything that the messages hold is sent, as it is, in order and
//! by whom it was said.

use vstd::prelude::*;

use crate::anthropic::{AnthropicModelMode, Request, RequestContent, Role};
use crate::completion::{into_anthropic, to_anthropic_content, AnthropicPromptCacheMode};
use crate::language_model;
use crate::language_model::{
    LanguageModelRequest,
    LanguageModelRequestMessage,
    LanguageModelToolResultContent,
    MessageContent,
};

verus! {

use crate::anthropic::{
    ImageSourceView,
    MessageView,
    RequestContentView,
    ToolResultContentView,
    ToolResultPartView,
};
use crate::cache::{breakpoints, lemma_snapped, short_lived, with_marks};
use crate::completion::{
    appended,
    caching,
    conversation,
    converted,
    converted_block,
    message_blocks,
    result_content,
};
use crate::laws::conversation::law_roles_alternate;
use crate::text::{lemma_trimmed_end, white_space};

/// Whether there is anything to send of a part of a message: a text that is not blank, thinking
/// that is not empty and is signed, redacted thinking that is not empty, and every image, tool use
/// and tool result.
pub open spec fn worth_sending(part: MessageContent) -> bool {
    match part {
        MessageContent::Text(text) => exists|k: int|
            0 <= k < text@.len() && !white_space(#[trigger] text@[k]),
        MessageContent::Thinking { text, signature } => text@.len() > 0 && signature is Some,
        MessageContent::RedactedThinking(data) => data@.len() > 0,
        MessageContent::Image(_) => true,
        MessageContent::ToolUse(_) => true,
        MessageContent::ToolResult(_) => true,
    }
}

/// Whether the image is the PNG image with this data, in base64 form.
pub open spec fn shows(source: ImageSourceView, data: Seq<char>) -> bool {
    source.source_type == "base64"@ && source.media_type == "image/png"@ && source.data == data
}

/// Whether the part that is sent is the part that a tool returned.
pub open spec fn carries_part(
    part: LanguageModelToolResultContent,
    sent: ToolResultPartView,
) -> bool {
    match part {
        LanguageModelToolResultContent::Text(text) => sent is Text && sent->text == text@,
        LanguageModelToolResultContent::Image(image) => sent is Image && shows(
            sent->source,
            image.source@,
        ),
    }
}

/// Whether what is sent is what a tool returned: every part of it, in order; a single text goes
/// without parts.
pub open spec fn carries_result(
    parts: Seq<LanguageModelToolResultContent>,
    sent: ToolResultContentView,
) -> bool {
    match sent {
        ToolResultContentView::Plain(text) => parts.len() == 1 && parts[0] is Text
            && parts[0]->Text_0@ == text,
        ToolResultContentView::Multipart(sent_parts) => {
            &&& !(parts.len() == 1 && parts[0] is Text)
            &&& sent_parts.len() == parts.len()
            &&& forall|k: int|
                0 <= k < parts.len() ==> carries_part(parts[k], #[trigger] sent_parts[k])
        },
    }
}

/// Whether the text that is sent is the text, without the whitespace at its end.
pub open spec fn carries_text(text: Seq<char>, sent: Seq<char>) -> bool {
    &&& 0 < sent.len() <= text.len()
    &&& forall|k: int| 0 <= k < sent.len() ==> sent[k] == #[trigger] text[k]
    &&& !white_space(sent.last())
    &&& forall|k: int| sent.len() <= k < text.len() ==> white_space(#[trigger] text[k])
}

/// Whether the block says what the part says, whatever breakpoint is on the block.
pub open spec fn carries(part: MessageContent, block: RequestContentView) -> bool {
    match part {
        MessageContent::Text(text) => block matches RequestContentView::Text { text: sent, .. }
            && carries_text(text@, sent),
        MessageContent::Thinking { text, signature } => block matches RequestContentView::Thinking {
            thinking,
            signature: sent,
            ..
        } && thinking == text@ && signature is Some && signature->0@ == sent,
        MessageContent::RedactedThinking(data) => block
            matches RequestContentView::RedactedThinking { data: sent } && sent == data@,
        MessageContent::Image(image) => block matches RequestContentView::Image { source, .. }
            && shows(source, image.source@),
        MessageContent::ToolUse(tool_use) => block matches RequestContentView::ToolUse {
            id,
            name,
            input,
            ..
        } && id == tool_use.id@ && name == tool_use.name@ && input == tool_use.input,
        MessageContent::ToolResult(result) => block matches RequestContentView::ToolResult {
            tool_use_id,
            is_error,
            content,
            ..
        } && tool_use_id == result.tool_use_id@ && is_error == result.is_error && carries_result(
            result.content@,
            content,
        ),
    }
}

/// The parts of the content of a message of which there is anything to send, in order.
pub open spec fn parts_to_send(content: Seq<MessageContent>) -> Seq<MessageContent> {
    content.filter(|part: MessageContent| worth_sending(part))
}

/// Whether the message is part of the conversation: it is not skipped, and no system prompt.
pub open spec fn takes_part(message: LanguageModelRequestMessage) -> bool {
    !message.contents_empty && message.role != language_model::Role::System
}

/// What a message says, part by part, and who says it.
pub open spec fn said_in(message: LanguageModelRequestMessage) -> Seq<
    (language_model::Role, MessageContent),
> {
    if takes_part(message) {
        let parts = parts_to_send(message.content@);
        Seq::new(parts.len(), |k: int| (message.role, parts[k]))
    } else {
        Seq::empty()
    }
}

/// What the messages say, part by part, one message after the other.
pub open spec fn said(messages: Seq<LanguageModelRequestMessage>) -> Seq<
    (language_model::Role, MessageContent),
>
    decreases messages.len(),
{
    if messages.len() == 0 {
        Seq::empty()
    } else {
        said(messages.drop_last()) + said_in(messages.last())
    }
}

/// The blocks, each with who says it.
pub open spec fn voiced(role: Role, blocks: Seq<RequestContentView>) -> Seq<
    (Role, RequestContentView),
> {
    Seq::new(blocks.len(), |k: int| (role, blocks[k]))
}

/// What is sent, block by block, one message after the other, each with who says it.
pub open spec fn spoken(messages: Seq<MessageView>) -> Seq<(Role, RequestContentView)>
    decreases messages.len(),
{
    if messages.len() == 0 {
        Seq::empty()
    } else {
        spoken(messages.drop_last()) + voiced(messages.last().role, messages.last().content)
    }
}

/// Whether the two roles are the same.
pub open spec fn same_speaker(role: language_model::Role, sent: Role) -> bool {
    match sent {
        Role::User => role == language_model::Role::User,
        Role::Assistant => role == language_model::Role::Assistant,
    }
}

/// Whether what is spoken is what was said: as many blocks as parts, each with the same content
/// and by the same speaker.
pub open spec fn repeats(
    parts: Seq<(language_model::Role, MessageContent)>,
    blocks: Seq<(Role, RequestContentView)>,
) -> bool {
    &&& blocks.len() == parts.len()
    &&& forall|k: int|
        0 <= k < parts.len() ==> same_speaker(parts[k].0, (#[trigger] blocks[k]).0) && carries(
            parts[k].1,
            blocks[k].1,
        )
}

proof fn lemma_result(parts: Seq<LanguageModelToolResultContent>)
    ensures
        carries_result(parts, result_content(parts)),
{
}

/// A single part becomes a block if and only if there is anything to send of it, and the block
/// says the same and carries no breakpoint.
pub proof fn law_part_is_converted(part: MessageContent, block: Option<RequestContent>)
    requires
        call_ensures(to_anthropic_content, (part,), block),
    ensures
        block is Some <==> worth_sending(part),
        block is Some ==> carries(part, block->0@),
        block is Some ==> block->0@.mark() is None,
{
    lemma_part(part);
}

proof fn lemma_part(part: MessageContent)
    ensures
        converted_block(part) is Some <==> worth_sending(part),
        worth_sending(part) ==> carries(part, converted_block(part)->0),
{
    match part {
        MessageContent::Text(text) => {
            lemma_trimmed_end(text@);
            let sent = crate::text::trimmed_end(text@);
            if worth_sending(part) {
                let k = choose|k: int| 0 <= k < text@.len() && !white_space(#[trigger] text@[k]);
                assert(k < sent.len());
            }
            if sent.len() > 0 {
                assert(!white_space(text@[sent.len() - 1]));
                assert forall|k: int| 0 <= k < sent.len() implies sent[k] == #[trigger] text@[k] by {
                    assert(sent[k] == text@.take(sent.len() as int)[k]);
                }
            }
        },
        MessageContent::ToolResult(result) => {
            lemma_result(result.content@);
        },
        _ => {},
    }
}

/// Every part of the content of a message of which there is anything to send becomes a block that
/// says the same, in order, and there is no other block.
pub proof fn law_content_is_converted(content: Seq<MessageContent>)
    ensures
        converted(content).len() == parts_to_send(content).len(),
        forall|k: int|
            0 <= k < converted(content).len() ==> carries(
                parts_to_send(content)[k],
                #[trigger] converted(content)[k],
            ),
    decreases content.len(),
{
    reveal(Seq::filter);
    if content.len() > 0 {
        law_content_is_converted(content.drop_last());
        lemma_part(content.last());
    }
}

proof fn lemma_message_blocks(
    message: LanguageModelRequestMessage,
    cache_mode: AnthropicPromptCacheMode,
)
    ensures
        ({
            let blocks = message_blocks(message, cache_mode);
            let parts = parts_to_send(message.content@);
            &&& blocks.len() == parts.len()
            &&& forall|k: int| 0 <= k < blocks.len() ==> carries(parts[k], #[trigger] blocks[k])
        }),
{
    law_content_is_converted(message.content@);
    let plain = converted(message.content@);
    lemma_snapped(plain, plain.len() - 1);
    let blocks = message_blocks(message, cache_mode);
    let parts = parts_to_send(message.content@);
    assert forall|k: int| 0 <= k < blocks.len() implies carries(parts[k], #[trigger] blocks[k]) by {
        assert(carries(parts[k], plain[k]));
        assert(blocks[k] == plain[k] || blocks[k] == plain[k].with_mark(Some(short_lived())));
    }
}

proof fn lemma_spoken_appended(
    messages: Seq<MessageView>,
    role: Role,
    blocks: Seq<RequestContentView>,
)
    ensures
        spoken(appended(messages, role, blocks)) == spoken(messages) + voiced(role, blocks),
{
    let after = appended(messages, role, blocks);
    if blocks.len() == 0 {
        assert(spoken(messages) + voiced(role, blocks) =~= spoken(messages));
    } else if messages.len() > 0 && messages.last().role == role {
        assert(after.drop_last() =~= messages.drop_last());
        assert(spoken(after) =~= spoken(messages) + voiced(role, blocks));
    } else {
        assert(after.drop_last() =~= messages);
    }
}

proof fn lemma_conversation_repeats(
    messages: Seq<LanguageModelRequestMessage>,
    cache_mode: AnthropicPromptCacheMode,
)
    ensures
        repeats(said(messages), spoken(conversation(messages, cache_mode))),
    decreases messages.len(),
{
    if messages.len() > 0 {
        let message = messages.last();
        let earlier = messages.drop_last();
        lemma_conversation_repeats(earlier, cache_mode);
        lemma_message_blocks(message, cache_mode);
        let before = conversation(earlier, cache_mode);
        let blocks = message_blocks(message, cache_mode);
        let parts = said(messages);
        let sent = spoken(conversation(messages, cache_mode));
        if takes_part(message) {
            let role = if message.role == language_model::Role::User {
                Role::User
            } else {
                Role::Assistant
            };
            lemma_spoken_appended(before, role, blocks);
            assert(sent == spoken(before) + voiced(role, blocks));
            let n = said(earlier).len() as int;
            assert forall|k: int| 0 <= k < parts.len() implies same_speaker(
                parts[k].0,
                (#[trigger] sent[k]).0,
            ) && carries(parts[k].1, sent[k].1) by {
                if k < n {
                    assert(sent[k] == spoken(before)[k]);
                } else {
                    assert(sent[k] == (role, blocks[k - n]));
                    assert(parts[k] == said_in(message)[k - n]);
                }
            }
        } else {
            assert(parts =~= said(earlier));
        }
    }
}

/// Whether the two blocks say the same, whatever breakpoints are on them.
pub open spec fn same_content(a: RequestContentView, b: RequestContentView) -> bool {
    match a {
        RequestContentView::Text { text, .. } => b is Text && b->Text_text == text,
        RequestContentView::Thinking { thinking, signature, .. } => b is Thinking && b->thinking
            == thinking && b->signature == signature,
        RequestContentView::RedactedThinking { data } => b is RedactedThinking && b->data == data,
        RequestContentView::Image { source, .. } => b is Image && b->source == source,
        RequestContentView::ToolUse { id, name, input, .. } => b is ToolUse && b->id == id
            && b->name == name && b->input == input,
        RequestContentView::ToolResult { tool_use_id, is_error, content, .. } => b is ToolResult
            && b->tool_use_id == tool_use_id && b->is_error == is_error && b->content == content,
    }
}

/// Whether the two conversations are the same, whatever breakpoints are on their blocks.
pub open spec fn same_conversation(a: Seq<MessageView>, b: Seq<MessageView>) -> bool {
    &&& a.len() == b.len()
    &&& forall|i: int|
        0 <= i < a.len() ==> (#[trigger] a[i]).role == b[i].role && a[i].content.len()
            == b[i].content.len()
    &&& forall|i: int, j: int|
        0 <= i < a.len() && 0 <= j < a[i].content.len() ==> same_content(
            #[trigger] a[i].content[j],
            b[i].content[j],
        )
}

proof fn lemma_marks_keep_content(messages: Seq<MessageView>, marks: Set<int>)
    ensures
        same_conversation(messages, with_marks(messages, marks)),
{
}

proof fn lemma_spoken_of_same(a: Seq<MessageView>, b: Seq<MessageView>)
    requires
        same_conversation(a, b),
    ensures
        spoken(a).len() == spoken(b).len(),
        forall|k: int|
            0 <= k < spoken(a).len() ==> (#[trigger] spoken(a)[k]).0 == spoken(b)[k].0
                && same_content(spoken(a)[k].1, spoken(b)[k].1),
    decreases a.len(),
{
    if a.len() > 0 {
        let last = a.len() - 1;
        assert forall|i: int, j: int|
            0 <= i < a.drop_last().len() && 0 <= j < a.drop_last()[i].content.len() implies
            same_content(#[trigger] a.drop_last()[i].content[j], b.drop_last()[i].content[j]) by {
            assert(same_content(a[i].content[j], b[i].content[j]));
        }
        assert forall|i: int| 0 <= i < a.drop_last().len() implies (#[trigger] a.drop_last()[i]).role
            == b.drop_last()[i].role && a.drop_last()[i].content.len()
            == b.drop_last()[i].content.len() by {
            assert(a[i].role == b[i].role);
        }
        lemma_spoken_of_same(a.drop_last(), b.drop_last());
        let n = spoken(a.drop_last()).len() as int;
        assert(a[last].role == b[last].role);
        assert forall|k: int| 0 <= k < spoken(a).len() implies (#[trigger] spoken(a)[k]).0
            == spoken(b)[k].0 && same_content(spoken(a)[k].1, spoken(b)[k].1) by {
            if k < n {
                assert(spoken(a)[k] == spoken(a.drop_last())[k]);
                assert(spoken(b)[k] == spoken(b.drop_last())[k]);
            } else {
                assert(spoken(a)[k] == (a[last].role, a[last].content[k - n]));
                assert(spoken(b)[k] == (b[last].role, b[last].content[k - n]));
                assert(same_content(a[last].content[k - n], b[last].content[k - n]));
            }
        }
    }
}

/// Whether `result` is what [`into_anthropic`] makes of the request.
pub open spec fn becomes<T>(
    request: LanguageModelRequest<T>,
    model: String,
    default_temperature: T,
    max_output_tokens: u64,
    mode: AnthropicModelMode,
    cache_mode: AnthropicPromptCacheMode,
    result: Request<T>,
) -> bool {
    call_ensures(
        into_anthropic::<T>,
        (request, model, default_temperature, max_output_tokens, mode, cache_mode),
        result,
    )
}

/// Everything that the messages say is sent, in every mode: every image, tool use and tool result,
/// every text that is not blank, every piece of thinking that is signed and not empty, and all
/// redacted thinking that is not empty, in order, under the role of its message, and with the same
/// content. Nothing else is sent. Every message that is sent holds a block, and no two that follow
/// one another have the same role, so that the roles decide which blocks share a message.
pub proof fn law_everything_said_is_sent<T>(
    request: LanguageModelRequest<T>,
    model: String,
    default_temperature: T,
    max_output_tokens: u64,
    mode: AnthropicModelMode,
    cache_mode: AnthropicPromptCacheMode,
    result: Request<T>,
)
    requires
        becomes(
            request,
            model,
            default_temperature,
            max_output_tokens,
            mode,
            cache_mode,
            result,
        ),
    ensures
        ({
            let sent = result@.messages;
            &&& repeats(said(request.messages@), spoken(sent))
            &&& forall|i: int| 0 <= i < sent.len() ==> (#[trigger] sent[i]).content.len() > 0
            &&& forall|i: int, j: int|
                0 <= i && j == i + 1 && j < sent.len() ==> (#[trigger] sent[i]).role != (
                #[trigger] sent[j]).role
        }),
{
    let messages = conversation(request.messages@, cache_mode);
    let sent = result@.messages;
    lemma_conversation_repeats(request.messages@, cache_mode);
    law_roles_alternate(request.messages@, cache_mode);
    if caching(request.messages@, cache_mode) {
        lemma_marks_keep_content(messages, breakpoints(messages));
        assert(same_conversation(messages, sent));
    } else {
        assert(same_conversation(messages, sent));
    }
    lemma_spoken_of_same(messages, sent);
    let parts = said(request.messages@);
    let plain = spoken(messages);
    let blocks = spoken(sent);
    assert forall|k: int| 0 <= k < parts.len() implies same_speaker(
        parts[k].0,
        (#[trigger] blocks[k]).0,
    ) && carries(parts[k].1, blocks[k].1) by {
        assert(same_speaker(parts[k].0, plain[k].0) && carries(parts[k].1, plain[k].1));
        assert(plain[k].0 == blocks[k].0 && same_content(plain[k].1, blocks[k].1));
    }
    assert forall|i: int| 0 <= i < sent.len() implies (#[trigger] sent[i]).content.len() > 0 by {
        assert(messages[i].content.len() > 0);
    }
    assert forall|i: int, j: int|
        0 <= i && j == i + 1 && j < sent.len() implies (#[trigger] sent[i]).role != (
    #[trigger] sent[j]).role by {
        assert(messages[i].role != messages[j].role);
        assert(messages[i].role == sent[i].role);
        assert(messages[j].role == sent[j].role);
    }
}

} // verus!
