//! Laws of the conversation that is sent.

use vstd::prelude::*;

use crate::anthropic::Role;
use crate::completion::AnthropicPromptCacheMode;
use crate::language_model::{LanguageModelRequestMessage, MessageContent};

verus! {

use crate::anthropic::{MessageView, RequestContentView};
use crate::cache::{flat, lemma_snapped, short_lived};
use crate::completion::{
    appended,
    conversation,
    converted,
    message_blocks,
    sent_role,
    system_prompt,
};
use crate::text::{lemma_trimmed_end, white_space};

/// The blocks that a message contributes to the conversation: none where it is skipped or a
/// system prompt.
pub open spec fn contributed(
    message: LanguageModelRequestMessage,
    cache_mode: AnthropicPromptCacheMode,
) -> Seq<RequestContentView> {
    if message.contents_empty || sent_role(message.role) is None {
        Seq::empty()
    } else {
        message_blocks(message, cache_mode)
    }
}

/// The blocks that the messages contribute, one message after the other.
pub open spec fn all_contributed(
    messages: Seq<LanguageModelRequestMessage>,
    cache_mode: AnthropicPromptCacheMode,
) -> Seq<RequestContentView>
    decreases messages.len(),
{
    if messages.len() == 0 {
        Seq::empty()
    } else {
        all_contributed(messages.drop_last(), cache_mode) + contributed(messages.last(), cache_mode)
    }
}

proof fn lemma_flat_appended(
    messages: Seq<MessageView>,
    role: Role,
    blocks: Seq<RequestContentView>,
)
    ensures
        flat(appended(messages, role, blocks)) == flat(messages) + blocks,
{
    let after = appended(messages, role, blocks);
    if blocks.len() == 0 {
        assert(flat(messages) + blocks =~= flat(messages));
    } else if messages.len() > 0 && messages.last().role == role {
        assert(after.drop_last() =~= messages.drop_last());
        assert(flat(after) =~= flat(messages) + blocks);
    } else {
        assert(after.drop_last() =~= messages);
    }
}

/// Nothing is lost, added or put in another order: the blocks of the conversation are those that
/// the messages contribute, one message after the other.
pub proof fn law_conversation_keeps_blocks(
    messages: Seq<LanguageModelRequestMessage>,
    cache_mode: AnthropicPromptCacheMode,
)
    ensures
        flat(conversation(messages, cache_mode)) == all_contributed(messages, cache_mode),
    decreases messages.len(),
{
    if messages.len() > 0 {
        law_conversation_keeps_blocks(messages.drop_last(), cache_mode);
        let earlier = conversation(messages.drop_last(), cache_mode);
        let message = messages.last();
        if let Some(role) = sent_role(message.role) {
            lemma_flat_appended(earlier, role, message_blocks(message, cache_mode));
        }
        if contributed(message, cache_mode).len() == 0 {
            assert(flat(earlier) + contributed(message, cache_mode) =~= flat(earlier));
        }
    }
}

/// Every message that is sent holds a block, and no two that follow one another have the same
/// role.
pub proof fn law_roles_alternate(
    messages: Seq<LanguageModelRequestMessage>,
    cache_mode: AnthropicPromptCacheMode,
)
    ensures
        forall|i: int|
            0 <= i < conversation(messages, cache_mode).len() ==> (#[trigger] conversation(
                messages,
                cache_mode,
            )[i]).content.len() > 0,
        forall|i: int, j: int|
            0 <= i && j == i + 1 && j < conversation(messages, cache_mode).len() ==> (
            #[trigger] conversation(messages, cache_mode)[i]).role != (#[trigger] conversation(
                messages,
                cache_mode,
            )[j]).role,
    decreases messages.len(),
{
    if messages.len() > 0 {
        law_roles_alternate(messages.drop_last(), cache_mode);
    }
}

/// A message of which nothing is left to send leaves no trace in the conversation.
pub proof fn law_message_without_blocks_is_omitted(
    messages: Seq<LanguageModelRequestMessage>,
    message: LanguageModelRequestMessage,
    cache_mode: AnthropicPromptCacheMode,
)
    requires
        contributed(message, cache_mode).len() == 0,
    ensures
        conversation(messages.push(message), cache_mode) == conversation(messages, cache_mode),
{
    assert(messages.push(message).drop_last() =~= messages);
}

/// The system prompt is made of system messages alone: any other message, and one that is skipped,
/// leaves it as it was.
pub proof fn law_only_system_messages_prompt(
    messages: Seq<LanguageModelRequestMessage>,
    message: LanguageModelRequestMessage,
)
    requires
        message.contents_empty || sent_role(message.role) is Some,
    ensures
        system_prompt(messages.push(message)) == system_prompt(messages),
{
    assert(messages.push(message).drop_last() =~= messages);
}

/// Later messages are only appended: whatever follows, the blocks of a conversation stay where
/// they were.
pub proof fn law_conversation_only_grows(
    messages: Seq<LanguageModelRequestMessage>,
    later: Seq<LanguageModelRequestMessage>,
    cache_mode: AnthropicPromptCacheMode,
)
    ensures
        flat(conversation(messages, cache_mode)).is_prefix_of(
            flat(conversation(messages + later, cache_mode)),
        ),
    decreases later.len(),
{
    if later.len() > 0 {
        law_conversation_only_grows(messages, later.drop_last(), cache_mode);
        assert((messages + later).drop_last() =~= messages + later.drop_last());
        let message = later.last();
        let earlier = conversation(messages + later.drop_last(), cache_mode);
        if let Some(role) = sent_role(message.role) {
            lemma_flat_appended(earlier, role, message_blocks(message, cache_mode));
        }
        let start = flat(conversation(messages, cache_mode));
        let all = flat(conversation(messages + later, cache_mode));
        assert(start =~= all.subrange(0, start.len() as int)) by {
            assert(start =~= flat(earlier).subrange(0, start.len() as int));
        }
    } else {
        assert(messages + later =~= messages);
        let all = flat(conversation(messages, cache_mode));
        assert(all =~= all.subrange(0, all.len() as int));
    }
}

/// Whether the block is fit to be sent: text is not empty and does not end in whitespace, and
/// thinking, redacted or not, is not empty.
pub open spec fn fit_to_send(block: RequestContentView) -> bool {
    match block {
        RequestContentView::Text { text, .. } => text.len() > 0 && !white_space(text.last()),
        RequestContentView::Thinking { thinking, .. } => thinking.len() > 0,
        RequestContentView::RedactedThinking { data } => data.len() > 0,
        _ => true,
    }
}

/// A converted block is fit to be sent and carries no breakpoint.
pub proof fn lemma_converted(content: Seq<MessageContent>)
    ensures
        forall|k: int|
            0 <= k < converted(content).len() ==> {
                let block = #[trigger] converted(content)[k];
                fit_to_send(block) && block.mark() is None
            },
    decreases content.len(),
{
    if content.len() > 0 {
        lemma_converted(content.drop_last());
        if let MessageContent::Text(text) = content.last() {
            lemma_trimmed_end(text@);
        }
    }
}

/// Whether the block carries the marker of a conversation breakpoint or none, and none where it
/// is a thinking block.
pub open spec fn marked_as_allowed(block: RequestContentView) -> bool {
    &&& block.mark() is Some ==> block.mark() == Some(short_lived())
    &&& !block.markable() ==> block.mark() is None
}

/// What holds of every block of a conversation, in every mode: it is fit to be sent, a breakpoint
/// on it is short-lived, and there is none on a thinking block. Outside legacy mode there is no
/// breakpoint yet.
pub proof fn law_conversation_blocks(
    messages: Seq<LanguageModelRequestMessage>,
    cache_mode: AnthropicPromptCacheMode,
)
    ensures
        forall|k: int|
            0 <= k < flat(conversation(messages, cache_mode)).len() ==> {
                let block = #[trigger] flat(conversation(messages, cache_mode))[k];
                &&& fit_to_send(block)
                &&& marked_as_allowed(block)
                &&& cache_mode != AnthropicPromptCacheMode::Legacy ==> block.mark() is None
            },
    decreases messages.len(),
{
    law_conversation_keeps_blocks(messages, cache_mode);
    if messages.len() > 0 {
        law_conversation_blocks(messages.drop_last(), cache_mode);
        law_conversation_keeps_blocks(messages.drop_last(), cache_mode);
        let message = messages.last();
        let blocks = converted(message.content@);
        lemma_converted(message.content@);
        lemma_snapped(blocks, blocks.len() - 1);
        let earlier = all_contributed(messages.drop_last(), cache_mode);
        let all = all_contributed(messages, cache_mode);
        assert forall|k: int| 0 <= k < all.len() implies {
            let block = #[trigger] all[k];
            &&& fit_to_send(block)
            &&& marked_as_allowed(block)
            &&& cache_mode != AnthropicPromptCacheMode::Legacy ==> block.mark() is None
        } by {
            if k < earlier.len() {
                assert(all[k] == flat(conversation(messages.drop_last(), cache_mode))[k]);
            } else {
                assert(all[k] == contributed(message, cache_mode)[k - earlier.len()]);
                let _ = blocks[k - earlier.len()];
            }
        }
    }
}

} // verus!
