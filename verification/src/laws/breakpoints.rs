//! Laws of cache breakpoints.

use vstd::prelude::*;

use crate::anthropic::{AnthropicModelMode, CacheControl};
use crate::cache::CONVERSATION_CACHE_BREAKPOINTS;
use crate::completion::AnthropicPromptCacheMode;
use crate::language_model::{LanguageModelRequest, LanguageModelRequestMessage};

verus! {

use crate::anthropic::{
    MessageView,
    RequestContentView,
    RequestView,
    StringOrContentsView,
    ToolView,
};
use crate::cache::{
    block_start,
    boundaries,
    boundary,
    breakpoints,
    flat,
    is_user_prompt,
    kept_boundaries,
    lemma_flat_prefix,
    lemma_snapped,
    short_lived,
    snapped,
    tail,
    with_marks,
};
use crate::completion::{
    anthropic_request,
    caching,
    conversation,
    converted,
    long_lived,
    message_blocks,
    system_prompt,
};
use crate::laws::conversation::{
    law_conversation_blocks,
    law_conversation_only_grows,
    lemma_converted,
    marked_as_allowed,
};

/// Setting a breakpoint replaces the one before, a block that can hold one then holds it, and
/// nothing else about the block changes.
pub proof fn law_marking(
    block: RequestContentView,
    first: Option<CacheControl>,
    second: Option<CacheControl>,
)
    ensures
        block.with_mark(first).with_mark(second) == block.with_mark(second),
        block.markable() ==> block.with_mark(first).mark() == first,
        block.markable() ==> block.with_mark(block.mark()) == block,
        !block.markable() ==> block.with_mark(first) == block,
        block.with_mark(first).markable() == block.markable(),
{
}

/// How many blocks carry a breakpoint.
pub open spec fn marked_blocks(blocks: Seq<RequestContentView>) -> nat
    decreases blocks.len(),
{
    if blocks.len() == 0 {
        0
    } else {
        marked_blocks(blocks.drop_last()) + if blocks.last().mark() is Some {
            1nat
        } else {
            0
        }
    }
}

/// How many tools carry a breakpoint.
pub open spec fn marked_tools(tools: Seq<ToolView>) -> nat
    decreases tools.len(),
{
    if tools.len() == 0 {
        0
    } else {
        marked_tools(tools.drop_last()) + if tools.last().cache_control is Some {
            1nat
        } else {
            0
        }
    }
}

/// How many breakpoints the system prompt carries.
pub open spec fn marked_system(system: Option<StringOrContentsView>) -> nat {
    match system {
        Some(StringOrContentsView::Content(blocks)) => marked_blocks(blocks),
        _ => 0,
    }
}

/// How many breakpoints a request carries.
pub open spec fn marked_request<T>(request: RequestView<T>) -> nat {
    marked_tools(request.tools) + marked_system(request.system) + marked_blocks(
        flat(request.messages),
    ) + if request.cache_control is Some {
        1nat
    } else {
        0
    }
}

proof fn lemma_at_most(blocks: Seq<RequestContentView>, marks: Set<int>)
    requires
        marks.finite(),
        forall|p: int| 0 <= p < blocks.len() && (#[trigger] blocks[p]).mark() is Some ==> marks.contains(p),
    ensures
        marked_blocks(blocks) <= marks.len(),
    decreases blocks.len(),
{
    if blocks.len() > 0 {
        let last = blocks.len() - 1;
        let rest = marks.remove(last);
        assert forall|p: int|
            0 <= p < blocks.drop_last().len() && (#[trigger] blocks.drop_last()[p]).mark()
                is Some implies rest.contains(p) by {
            assert(blocks[p] == blocks.drop_last()[p]);
        }
        lemma_at_most(blocks.drop_last(), rest);
        if blocks.last().mark() is Some {
            assert(blocks[last].mark() is Some);
            assert(marks.contains(last));
        }
    }
}

proof fn lemma_no_marked_blocks(blocks: Seq<RequestContentView>)
    requires
        forall|p: int| 0 <= p < blocks.len() ==> (#[trigger] blocks[p]).mark() is None,
    ensures
        marked_blocks(blocks) == 0,
{
    lemma_at_most(blocks, Set::empty());
}

proof fn lemma_with_marks_take(messages: Seq<MessageView>, marks: Set<int>, ix: int)
    requires
        0 <= ix <= messages.len(),
    ensures
        with_marks(messages, marks).take(ix) == with_marks(messages.take(ix), marks),
{
    let left = with_marks(messages, marks).take(ix);
    let right = with_marks(messages.take(ix), marks);
    assert forall|i: int| 0 <= i < ix implies left[i] == right[i] by {
        assert(messages.take(ix).take(i) =~= messages.take(i));
    }
    assert(left =~= right);
}

/// The blocks of a marked conversation: those of the conversation, with a short-lived breakpoint
/// where `marks` says so. Their number and order are the same.
pub proof fn lemma_flat_with_marks(messages: Seq<MessageView>, marks: Set<int>)
    ensures
        flat(with_marks(messages, marks)).len() == flat(messages).len(),
        forall|p: int|
            0 <= p < flat(messages).len() ==> (#[trigger] flat(with_marks(messages, marks))[p])
                == if marks.contains(p) {
                flat(messages)[p].with_mark(Some(short_lived()))
            } else {
                flat(messages)[p]
            },
    decreases messages.len(),
{
    if messages.len() > 0 {
        let front = messages.drop_last();
        let last = messages.len() - 1;
        lemma_flat_with_marks(front, marks);
        assert(front =~= messages.take(last));
        lemma_with_marks_take(messages, marks, last);
        let marked = with_marks(messages, marks);
        assert(marked.drop_last() =~= marked.take(last));
        let start = flat(front).len();
        assert forall|p: int| 0 <= p < flat(messages).len() implies (#[trigger] flat(marked)[p])
            == if marks.contains(p) {
            flat(messages)[p].with_mark(Some(short_lived()))
        } else {
            flat(messages)[p]
        } by {
            if p < start {
                assert(flat(with_marks(front, marks))[p] == flat(marked)[p]);
            } else {
                assert(flat(marked)[p] == marked.last().content[p - start]);
                assert(flat(messages)[p] == messages.last().content[p - start]);
            }
        }
    }
}

proof fn lemma_breakpoints_finite(messages: Seq<MessageView>)
    ensures
        breakpoints(messages).finite(),
        breakpoints(messages).len() <= CONVERSATION_CACHE_BREAKPOINTS,
{
    let kept = kept_boundaries(messages);
    kept.lemma_cardinality_of_set();
    vstd::seq_lib::seq_to_set_is_finite(kept);
    match tail(messages) {
        Some(pos) => {
            assert(breakpoints(messages) =~= kept.to_set().insert(pos));
        },
        None => {
            assert(breakpoints(messages) =~= kept.to_set());
        },
    }
}

proof fn lemma_unmarked_tools(tools: Seq<ToolView>)
    requires
        forall|i: int| 0 <= i < tools.len() ==> (#[trigger] tools[i]).cache_control is None,
    ensures
        marked_tools(tools) == 0,
    decreases tools.len(),
{
    if tools.len() > 0 {
        assert forall|i: int| 0 <= i < tools.drop_last().len() implies (
        #[trigger] tools.drop_last()[i]).cache_control is None by {
            assert(tools[i] == tools.drop_last()[i]);
        }
        lemma_unmarked_tools(tools.drop_last());
        assert(tools[tools.len() - 1].cache_control is None);
    }
}

/// The static prefix of a request, that is its tools and its system prompt, is anchored with a
/// single long-lived breakpoint: on the system prompt, or on the last tool where there is no
/// system prompt. Without caching there is none.
pub proof fn law_prefix_anchor<T>(
    request: LanguageModelRequest<T>,
    model: Seq<char>,
    default_temperature: T,
    max_output_tokens: u64,
    mode: AnthropicModelMode,
    cache_mode: AnthropicPromptCacheMode,
)
    ensures
        ({
            let sent = anthropic_request(
                request,
                model,
                default_temperature,
                max_output_tokens,
                mode,
                cache_mode,
            );
            let prompt = system_prompt(request.messages@);
            if !caching(request.messages@, cache_mode) {
                &&& marked_tools(sent.tools) == 0
                &&& marked_system(sent.system) == 0
            } else if prompt.len() > 0 {
                &&& marked_tools(sent.tools) == 0
                &&& sent.system == Some(
                    StringOrContentsView::Content(
                        seq![
                            RequestContentView::Text {
                                text: prompt,
                                cache_control: Some(long_lived()),
                            },
                        ],
                    ),
                )
                &&& marked_system(sent.system) == 1
            } else if request.tools@.len() > 0 {
                &&& marked_tools(sent.tools) == 1
                &&& sent.tools.last().cache_control == Some(long_lived())
                &&& sent.system is None
            } else {
                &&& marked_tools(sent.tools) == 0
                &&& sent.system is None
            }
        }),
{
    let sent = anthropic_request(
        request,
        model,
        default_temperature,
        max_output_tokens,
        mode,
        cache_mode,
    );
    let prompt = system_prompt(request.messages@);
    let anchored = caching(request.messages@, cache_mode);
    if anchored && prompt.len() == 0 && sent.tools.len() > 0 {
        lemma_unmarked_tools(sent.tools.drop_last());
    } else {
        lemma_unmarked_tools(sent.tools);
    }
    if anchored && prompt.len() > 0 {
        let blocks = seq![
            RequestContentView::Text { text: prompt, cache_control: Some(long_lived()) },
        ];
        assert(blocks.drop_last() =~= Seq::empty());
        assert(marked_blocks(blocks.drop_last()) == 0);
        assert(marked_blocks(blocks) == 1);
    }
}

/// Outside legacy mode a request stays within the breakpoints that Anthropic allows: up to
/// [`CONVERSATION_CACHE_BREAKPOINTS`] on the conversation, and one more on the static prefix. The
/// automatic breakpoint at the top level is never used.
pub proof fn law_breakpoint_budget<T>(
    request: LanguageModelRequest<T>,
    model: Seq<char>,
    default_temperature: T,
    max_output_tokens: u64,
    mode: AnthropicModelMode,
    cache_mode: AnthropicPromptCacheMode,
)
    requires
        cache_mode != AnthropicPromptCacheMode::Legacy,
    ensures
        ({
            let sent = anthropic_request(
                request,
                model,
                default_temperature,
                max_output_tokens,
                mode,
                cache_mode,
            );
            &&& sent.cache_control is None
            &&& marked_blocks(flat(sent.messages)) <= CONVERSATION_CACHE_BREAKPOINTS
            &&& marked_request(sent) <= CONVERSATION_CACHE_BREAKPOINTS + 1
        }),
{
    law_prefix_anchor(
        request,
        model,
        default_temperature,
        max_output_tokens,
        mode,
        cache_mode,
    );
    law_conversation_blocks(request.messages@, cache_mode);
    let messages = conversation(request.messages@, cache_mode);
    if caching(request.messages@, cache_mode) {
        lemma_breakpoints_finite(messages);
        lemma_flat_with_marks(messages, breakpoints(messages));
        lemma_at_most(flat(with_marks(messages, breakpoints(messages))), breakpoints(messages));
    } else {
        lemma_no_marked_blocks(flat(messages));
    }
}

/// Nothing carries a breakpoint where caching is disabled, or where it is automatic and no message
/// wants it.
pub proof fn law_no_breakpoints_without_caching<T>(
    request: LanguageModelRequest<T>,
    model: Seq<char>,
    default_temperature: T,
    max_output_tokens: u64,
    mode: AnthropicModelMode,
    cache_mode: AnthropicPromptCacheMode,
)
    requires
        cache_mode != AnthropicPromptCacheMode::Legacy,
        !caching(request.messages@, cache_mode),
    ensures
        marked_request(
            anthropic_request(
                request,
                model,
                default_temperature,
                max_output_tokens,
                mode,
                cache_mode,
            ),
        ) == 0,
{
    law_prefix_anchor(
        request,
        model,
        default_temperature,
        max_output_tokens,
        mode,
        cache_mode,
    );
    law_conversation_blocks(request.messages@, cache_mode);
    lemma_no_marked_blocks(flat(conversation(request.messages@, cache_mode)));
}

/// In every mode: a breakpoint on the conversation is short-lived, and there is never one on a
/// thinking block, redacted or not.
pub proof fn law_thinking_is_never_marked<T>(
    request: LanguageModelRequest<T>,
    model: Seq<char>,
    default_temperature: T,
    max_output_tokens: u64,
    mode: AnthropicModelMode,
    cache_mode: AnthropicPromptCacheMode,
)
    ensures
        ({
            let blocks = flat(
                anthropic_request(
                    request,
                    model,
                    default_temperature,
                    max_output_tokens,
                    mode,
                    cache_mode,
                ).messages,
            );
            forall|k: int| 0 <= k < blocks.len() ==> marked_as_allowed(#[trigger] blocks[k])
        }),
{
    law_conversation_blocks(request.messages@, cache_mode);
    let messages = conversation(request.messages@, cache_mode);
    if caching(request.messages@, cache_mode) {
        lemma_flat_with_marks(messages, breakpoints(messages));
        let blocks = flat(with_marks(messages, breakpoints(messages)));
        assert forall|k: int| 0 <= k < blocks.len() implies marked_as_allowed(
            #[trigger] blocks[k],
        ) by {
            let _ = flat(messages)[k];
        }
    }
}

/// The conversation tail is always marked: with caching, the last block that can hold a
/// breakpoint carries a short-lived one, so that the newest blocks are written.
pub proof fn law_tail_is_marked<T>(
    request: LanguageModelRequest<T>,
    model: Seq<char>,
    default_temperature: T,
    max_output_tokens: u64,
    mode: AnthropicModelMode,
    cache_mode: AnthropicPromptCacheMode,
    last: int,
)
    requires
        caching(request.messages@, cache_mode),
        ({
            let blocks = flat(
                anthropic_request(
                    request,
                    model,
                    default_temperature,
                    max_output_tokens,
                    mode,
                    cache_mode,
                ).messages,
            );
            &&& 0 <= last < blocks.len()
            &&& blocks[last].markable()
            &&& forall|k: int| last < k < blocks.len() ==> !(#[trigger] blocks[k]).markable()
        }),
    ensures
        flat(
            anthropic_request(
                request,
                model,
                default_temperature,
                max_output_tokens,
                mode,
                cache_mode,
            ).messages,
        )[last].mark() == Some(short_lived()),
{
    let messages = conversation(request.messages@, cache_mode);
    let marks = breakpoints(messages);
    lemma_flat_with_marks(messages, marks);
    let blocks = flat(with_marks(messages, marks));
    assert forall|k: int| 0 <= k < blocks.len() implies (#[trigger] blocks[k]).markable()
        == flat(messages)[k].markable() by {}
    lemma_snapped(flat(messages), flat(messages).len() - 1);
    if let Some(k) = tail(messages) {
        if k < last {
            assert(!flat(messages)[last].markable());
        } else if last < k {
            assert(blocks[k].markable());
        }
    } else {
        assert(!flat(messages)[last].markable());
    }
    assert(marks.contains(last));
}

proof fn lemma_snapped_monotonic(blocks: Seq<RequestContentView>, p: int, q: int)
    requires
        p <= q < blocks.len(),
        snapped(blocks, p) is Some,
    ensures
        snapped(blocks, q) is Some,
        snapped(blocks, p)->0 <= snapped(blocks, q)->0,
{
    lemma_snapped(blocks, p);
    lemma_snapped(blocks, q);
    let k = snapped(blocks, p)->0;
    assert(blocks[k].markable());
}

proof fn lemma_boundary_in_range(messages: Seq<MessageView>, ix: int)
    requires
        boundary(messages, ix) is Some,
    ensures
        0 <= boundary(messages, ix)->0 < block_start(messages, ix) <= flat(messages).len(),
        flat(messages)[boundary(messages, ix)->0].markable(),
{
    lemma_flat_prefix(messages, ix);
    lemma_snapped(flat(messages), block_start(messages, ix) - 1);
}

proof fn lemma_starts_ordered(messages: Seq<MessageView>, i: int, j: int)
    requires
        0 <= i <= j <= messages.len(),
    ensures
        block_start(messages, i) <= block_start(messages, j),
{
    assert(messages.take(j).take(i) =~= messages.take(i));
    lemma_flat_prefix(messages.take(j), i);
}

/// The boundaries stand in order, each once, and are those before the messages that are user
/// prompts.
pub proof fn law_boundaries(messages: Seq<MessageView>, upto: int)
    requires
        0 <= upto <= messages.len(),
    ensures
        forall|i: int, j: int|
            0 <= i < j < boundaries(messages, upto).len() ==> (#[trigger] boundaries(
                messages,
                upto,
            )[i]) < (#[trigger] boundaries(messages, upto)[j]),
        forall|pos: int|
            boundaries(messages, upto).contains(pos) <==> exists|ix: int|
                0 <= ix < upto && (#[trigger] boundary(messages, ix)) == Some(pos),
    decreases upto,
{
    if upto > 0 {
        law_boundaries(messages, upto - 1);
        let earlier = boundaries(messages, upto - 1);
        let all = boundaries(messages, upto);
        if let Some(pos) = boundary(messages, upto - 1) {
            lemma_boundary_in_range(messages, upto - 1);
            assert forall|k: int| 0 <= k < earlier.len() implies (#[trigger] earlier[k]) <= pos by {
                assert(earlier.contains(earlier[k]));
                let ix = choose|ix: int|
                    0 <= ix < upto - 1 && (#[trigger] boundary(messages, ix)) == Some(earlier[k]);
                lemma_starts_ordered(messages, ix, upto - 1);
                lemma_boundary_in_range(messages, ix);
                lemma_snapped_monotonic(
                    flat(messages),
                    block_start(messages, ix) - 1,
                    block_start(messages, upto - 1) - 1,
                );
            }
            assert forall|i: int, j: int| 0 <= i < j < all.len() implies (#[trigger] all[i]) < (
            #[trigger] all[j]) by {
                if j < earlier.len() {
                    assert(earlier[i] < earlier[j]);
                } else {
                    assert(all[j] == pos);
                    assert(earlier[i] <= earlier.last());
                    assert(earlier.last() <= pos);
                    if i < earlier.len() - 1 {
                        assert(earlier[i] < earlier[earlier.len() - 1]);
                    }
                }
            }
            assert forall|p: int| all.contains(p) <==> exists|ix: int|
                0 <= ix < upto && (#[trigger] boundary(messages, ix)) == Some(p) by {
                if all.contains(p) {
                    if p == pos {
                        assert(boundary(messages, upto - 1) == Some(p));
                    } else {
                        let k = choose|k: int| 0 <= k < all.len() && all[k] == p;
                        assert(earlier[k] == p);
                        assert(earlier.contains(p));
                    }
                }
                if exists|ix: int| 0 <= ix < upto && (#[trigger] boundary(messages, ix)) == Some(p) {
                    let ix = choose|ix: int|
                        0 <= ix < upto && (#[trigger] boundary(messages, ix)) == Some(p);
                    if ix < upto - 1 {
                        assert(earlier.contains(p));
                        let k = choose|k: int| 0 <= k < earlier.len() && earlier[k] == p;
                        assert(all[k] == p);
                    } else {
                        assert(all.last() == p);
                    }
                }
            }
        } else {
            assert forall|p: int| all.contains(p) <==> exists|ix: int|
                0 <= ix < upto && (#[trigger] boundary(messages, ix)) == Some(p) by {
                if exists|ix: int| 0 <= ix < upto && (#[trigger] boundary(messages, ix)) == Some(p) {
                    let ix = choose|ix: int|
                        0 <= ix < upto && (#[trigger] boundary(messages, ix)) == Some(p);
                    assert(ix < upto - 1);
                }
            }
        }
    }
}

/// The positions before user prompts on which a conversation can be anchored.
pub open spec fn is_boundary(messages: Seq<MessageView>, pos: int) -> bool {
    exists|ix: int| (#[trigger] boundary(messages, ix)) == Some(pos)
}

/// Whether there is at most one boundary after `pos`.
pub open spec fn is_recent(messages: Seq<MessageView>, pos: int) -> bool {
    forall|p: int, q: int|
        #[trigger] is_boundary(messages, p) && #[trigger] is_boundary(messages, q) && pos < p && pos
            < q ==> p == q
}

proof fn lemma_recent_is_kept(messages: Seq<MessageView>, pos: int)
    requires
        is_boundary(messages, pos),
        is_recent(messages, pos),
    ensures
        kept_boundaries(messages).contains(pos),
{
    let count = messages.len() as int;
    law_boundaries(messages, count);
    let all = boundaries(messages, count);
    let ix = choose|ix: int| (#[trigger] boundary(messages, ix)) == Some(pos);
    assert(0 <= ix < count);
    assert(all.contains(pos));
    let k = choose|k: int| 0 <= k < all.len() && all[k] == pos;
    if k < all.len() - 2 {
        let p = all[k + 1];
        let q = all[k + 2];
        assert(all.contains(p));
        assert(all.contains(q));
        assert(is_boundary(messages, p)) by {
            let i = choose|i: int| 0 <= i < count && (#[trigger] boundary(messages, i)) == Some(p);
        }
        assert(is_boundary(messages, q)) by {
            let i = choose|i: int| 0 <= i < count && (#[trigger] boundary(messages, i)) == Some(q);
        }
        assert(pos < p && p < q);
        assert(false);
    }
    let kept = kept_boundaries(messages);
    assert(kept[k - (all.len() - kept.len())] == pos);
}

/// With caching, the two most recent turn boundaries carry a breakpoint, however many blocks
/// follow them.
pub proof fn law_recent_boundaries_are_marked<T>(
    request: LanguageModelRequest<T>,
    model: Seq<char>,
    default_temperature: T,
    max_output_tokens: u64,
    mode: AnthropicModelMode,
    cache_mode: AnthropicPromptCacheMode,
    pos: int,
)
    requires
        caching(request.messages@, cache_mode),
        is_boundary(conversation(request.messages@, cache_mode), pos),
        is_recent(conversation(request.messages@, cache_mode), pos),
    ensures
        flat(
            anthropic_request(
                request,
                model,
                default_temperature,
                max_output_tokens,
                mode,
                cache_mode,
            ).messages,
        )[pos].mark() == Some(short_lived()),
{
    let messages = conversation(request.messages@, cache_mode);
    lemma_recent_is_kept(messages, pos);
    let ix = choose|ix: int| (#[trigger] boundary(messages, ix)) == Some(pos);
    lemma_boundary_in_range(messages, ix);
    lemma_flat_with_marks(messages, breakpoints(messages));
    assert(breakpoints(messages).contains(pos));
}

proof fn lemma_snapped_of_prefix(
    short: Seq<RequestContentView>,
    long: Seq<RequestContentView>,
    pos: int,
)
    requires
        short.is_prefix_of(long),
        pos < short.len(),
    ensures
        snapped(short, pos) == snapped(long, pos),
    decreases pos + 1,
{
    if pos >= 0 {
        assert(short[pos] == long[pos]);
        lemma_snapped_of_prefix(short, long, pos - 1);
    }
}

proof fn lemma_boundary_survives(
    messages: Seq<LanguageModelRequestMessage>,
    message: LanguageModelRequestMessage,
    cache_mode: AnthropicPromptCacheMode,
    ix: int,
)
    requires
        boundary(conversation(messages, cache_mode), ix) is Some,
    ensures
        boundary(conversation(messages.push(message), cache_mode), ix) == boundary(
            conversation(messages, cache_mode),
            ix,
        ),
{
    let before = conversation(messages, cache_mode);
    let after = conversation(messages.push(message), cache_mode);
    assert(messages.push(message).drop_last() =~= messages);
    law_conversation_only_grows(messages, seq![message], cache_mode);
    assert(messages + seq![message] =~= messages.push(message));
    assert(after.len() >= before.len());
    assert(after[ix - 1] == before[ix - 1]);
    assert(after.take(ix) =~= before.take(ix));
    assert(is_user_prompt(after[ix])) by {
        let j = choose|j: int|
            0 <= j < before[ix].content.len() && (#[trigger] before[ix].content[j]) is Text;
        assert(after[ix].content[j] == before[ix].content[j]);
    }
    lemma_boundary_in_range(before, ix);
    lemma_snapped_of_prefix(flat(before), flat(after), block_start(before, ix) - 1);
}

/// A turn boundary is a stable position: whatever messages are appended, it stays a boundary, and
/// the blocks up to it stay the same.
pub proof fn law_boundary_is_stable(
    messages: Seq<LanguageModelRequestMessage>,
    later: Seq<LanguageModelRequestMessage>,
    cache_mode: AnthropicPromptCacheMode,
    pos: int,
)
    requires
        is_boundary(conversation(messages, cache_mode), pos),
    ensures
        is_boundary(conversation(messages + later, cache_mode), pos),
        flat(conversation(messages + later, cache_mode)).take(pos + 1) == flat(
            conversation(messages, cache_mode),
        ).take(pos + 1),
    decreases later.len(),
{
    if later.len() > 0 {
        let front = messages + later.drop_last();
        law_boundary_is_stable(messages, later.drop_last(), cache_mode, pos);
        assert(front.push(later.last()) =~= messages + later);
        let ix = choose|ix: int|
            (#[trigger] boundary(conversation(front, cache_mode), ix)) == Some(pos);
        lemma_boundary_survives(front, later.last(), cache_mode, ix);
        law_conversation_only_grows(messages, later, cache_mode);
        let before = flat(conversation(messages, cache_mode));
        let after = flat(conversation(messages + later, cache_mode));
        let first = choose|first: int|
            (#[trigger] boundary(conversation(messages, cache_mode), first)) == Some(pos);
        lemma_boundary_in_range(conversation(messages, cache_mode), first);
        assert(after.take(pos + 1) =~= before.take(pos + 1)) by {
            assert(before =~= after.subrange(0, before.len() as int));
        }
    } else {
        assert(messages + later =~= messages);
    }
}

/// A request whose conversation continues an earlier one reads it back: a boundary of the earlier
/// conversation carries a breakpoint again, at the same position and after the same blocks, as
/// long as no more than one boundary has come after it.
pub proof fn law_boundary_is_marked_again<T>(
    request: LanguageModelRequest<T>,
    model: Seq<char>,
    default_temperature: T,
    max_output_tokens: u64,
    mode: AnthropicModelMode,
    cache_mode: AnthropicPromptCacheMode,
    earlier: int,
    pos: int,
)
    requires
        caching(request.messages@, cache_mode),
        0 <= earlier <= request.messages@.len(),
        is_boundary(conversation(request.messages@.take(earlier), cache_mode), pos),
        is_recent(conversation(request.messages@, cache_mode), pos),
    ensures
        flat(
            anthropic_request(
                request,
                model,
                default_temperature,
                max_output_tokens,
                mode,
                cache_mode,
            ).messages,
        )[pos].mark() == Some(short_lived()),
        flat(conversation(request.messages@, cache_mode)).take(pos + 1) == flat(
            conversation(request.messages@.take(earlier), cache_mode),
        ).take(pos + 1),
{
    let messages = request.messages@.take(earlier);
    let later = request.messages@.skip(earlier);
    assert(messages + later =~= request.messages@);
    law_boundary_is_stable(messages, later, cache_mode, pos);
    law_recent_boundaries_are_marked(
        request,
        model,
        default_temperature,
        max_output_tokens,
        mode,
        cache_mode,
        pos,
    );
}

/// Breakpoints change nothing but breakpoints: without them the messages that are sent are those
/// of the conversation, role by role and block by block.
pub proof fn law_marking_keeps_messages<T>(
    request: LanguageModelRequest<T>,
    model: Seq<char>,
    default_temperature: T,
    max_output_tokens: u64,
    mode: AnthropicModelMode,
    cache_mode: AnthropicPromptCacheMode,
)
    ensures
        ({
            let sent = anthropic_request(
                request,
                model,
                default_temperature,
                max_output_tokens,
                mode,
                cache_mode,
            ).messages;
            let messages = conversation(request.messages@, cache_mode);
            &&& sent.len() == messages.len()
            &&& forall|i: int|
                0 <= i < messages.len() ==> (#[trigger] sent[i]).role == messages[i].role
                    && sent[i].content.len() == messages[i].content.len()
            &&& forall|i: int, j: int|
                0 <= i < messages.len() && 0 <= j < messages[i].content.len() ==> (
                #[trigger] sent[i].content[j]).with_mark(None) == messages[i].content[j].with_mark(
                    None,
                )
        }),
{
}

/// In legacy mode a message that wants caching carries exactly one breakpoint, on the last of its
/// blocks that can hold one, if any can; a message that does not want caching carries none.
pub proof fn law_legacy_marks_last_block(message: LanguageModelRequestMessage)
    ensures
        ({
            let blocks = converted(message.content@);
            let sent = message_blocks(message, AnthropicPromptCacheMode::Legacy);
            &&& sent.len() == blocks.len()
            &&& forall|k: int|
                0 <= k < sent.len() ==> (#[trigger] sent[k]).mark() == if message.cache
                    && snapped(blocks, blocks.len() - 1) == Some(k) {
                    Some(short_lived())
                } else {
                    None
                }
        }),
{
    let blocks = converted(message.content@);
    lemma_converted(message.content@);
    lemma_snapped(blocks, blocks.len() - 1);
    let sent = message_blocks(message, AnthropicPromptCacheMode::Legacy);
    assert forall|k: int| 0 <= k < sent.len() implies (#[trigger] sent[k]).mark()
        == if message.cache && snapped(blocks, blocks.len() - 1) == Some(k) {
        Some(short_lived())
    } else {
        None
    } by {
        let _ = blocks[k];
    }
}

} // verus!
