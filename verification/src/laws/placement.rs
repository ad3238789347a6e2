//! Laws of where cache breakpoints are, over roles and blocks.

use vstd::prelude::*;

use crate::anthropic::{
    AnthropicModelMode,
    CacheControl,
    CacheControlType,
    Message,
    Request,
    RequestContent,
    Role,
};
use crate::cache::{
    mark_last_cacheable_content,
    place_conversation_breakpoints,
    set_cache_control,
};
use crate::completion::AnthropicPromptCacheMode;
use crate::language_model::{LanguageModelRequest, LanguageModelRequestMessage};

verus! {

use crate::anthropic::{blocks_view, messages_view, MessageView, RequestContentView};
use crate::cache::{
    boundaries,
    boundary,
    breakpoints,
    flat,
    kept_boundaries,
    last_marked,
    lemma_flat_prefix,
    lemma_snapped,
    snapped,
    with_marks,
};
use crate::completion::{caching, conversation, converted};
use crate::laws::breakpoints::{law_boundaries, lemma_flat_with_marks};
use crate::laws::content::{
    becomes,
    law_content_is_converted,
    said,
    said_in,
    same_content,
    same_conversation,
    takes_part,
};
use crate::laws::conversation::{
    all_contributed,
    contributed,
    law_conversation_blocks,
    law_conversation_keeps_blocks,
    lemma_converted,
};

/// Whether the block can hold a breakpoint: texts, images, tool uses and tool results can, and
/// thinking cannot, redacted or not.
pub open spec fn can_hold(block: RequestContentView) -> bool {
    match block {
        RequestContentView::Text { .. } => true,
        RequestContentView::Image { .. } => true,
        RequestContentView::ToolUse { .. } => true,
        RequestContentView::ToolResult { .. } => true,
        RequestContentView::Thinking { .. } => false,
        RequestContentView::RedactedThinking { .. } => false,
    }
}

/// The breakpoint that is on the block.
pub open spec fn breakpoint_on(block: RequestContentView) -> Option<CacheControl> {
    match block {
        RequestContentView::Text { cache_control, .. } => cache_control,
        RequestContentView::Thinking { cache_control, .. } => cache_control,
        RequestContentView::RedactedThinking { .. } => None,
        RequestContentView::Image { cache_control, .. } => cache_control,
        RequestContentView::ToolUse { cache_control, .. } => cache_control,
        RequestContentView::ToolResult { cache_control, .. } => cache_control,
    }
}

/// The breakpoint with the short default lifetime.
pub open spec fn short_breakpoint() -> Option<CacheControl> {
    Some(CacheControl { cache_type: CacheControlType::Ephemeral, ttl: None })
}

/// All blocks of a conversation, one message after the other.
pub open spec fn all_blocks(messages: Seq<MessageView>) -> Seq<RequestContentView>
    decreases messages.len(),
{
    if messages.len() == 0 {
        Seq::empty()
    } else {
        all_blocks(messages.drop_last()) + messages.last().content
    }
}

/// How many blocks stand before message `ix`.
pub open spec fn blocks_before(messages: Seq<MessageView>, ix: int) -> int {
    all_blocks(messages.take(ix)).len() as int
}

/// Whether `pos` is the last position before `end` whose block can hold a breakpoint.
pub open spec fn last_holder(blocks: Seq<RequestContentView>, end: int, pos: int) -> bool {
    &&& 0 <= pos < end <= blocks.len()
    &&& can_hold(blocks[pos])
    &&& forall|k: int| pos < k < end ==> !can_hold(#[trigger] blocks[k])
}

/// Whether the user says something in the message: there is a text in it, at any place, and not
/// only the results of tools.
pub open spec fn user_speaks(message: MessageView) -> bool {
    &&& message.role == Role::User
    &&& exists|j: int| 0 <= j < message.content.len() && (#[trigger] message.content[j]) is Text
}

/// Whether a turn begins with message `ix`, and `pos` is the last position before it whose block
/// can hold a breakpoint.
pub open spec fn ends_before(messages: Seq<MessageView>, ix: int, pos: int) -> bool {
    &&& 0 < ix < messages.len()
    &&& user_speaks(messages[ix])
    &&& messages[ix - 1].content.len() > 0
    &&& last_holder(all_blocks(messages), blocks_before(messages, ix), pos)
}

/// Whether a turn ends at `pos`: the next one begins after it, and no block between them can hold
/// a breakpoint.
pub open spec fn turn_end(messages: Seq<MessageView>, pos: int) -> bool {
    exists|ix: int| #[trigger] ends_before(messages, ix, pos)
}

/// Whether no more than one turn ends after `pos`.
pub open spec fn among_last_two(messages: Seq<MessageView>, pos: int) -> bool {
    forall|p: int, q: int|
        #[trigger] turn_end(messages, p) && #[trigger] turn_end(messages, q) && pos < p && pos < q
            ==> p == q
}

/// Whether the block at `pos` is one to put a breakpoint on: the last of the conversation that can
/// hold one, or one of the last two at which a turn ends.
pub open spec fn to_be_marked(messages: Seq<MessageView>, pos: int) -> bool {
    ||| last_holder(all_blocks(messages), all_blocks(messages).len() as int, pos)
    ||| turn_end(messages, pos) && among_last_two(messages, pos)
}

proof fn lemma_flat(messages: Seq<MessageView>)
    ensures
        flat(messages) == all_blocks(messages),
    decreases messages.len(),
{
    if messages.len() > 0 {
        lemma_flat(messages.drop_last());
    }
}

proof fn lemma_snapped_is_last_holder(blocks: Seq<RequestContentView>, end: int, pos: int)
    requires
        end <= blocks.len(),
    ensures
        snapped(blocks, end - 1) == Some(pos) <==> last_holder(blocks, end, pos),
{
    lemma_snapped(blocks, end - 1);
    assert forall|k: int| 0 <= k < blocks.len() implies can_hold(#[trigger] blocks[k])
        == blocks[k].markable() by {}
    if last_holder(blocks, end, pos) {
        assert(blocks[pos].markable());
        if let Some(k) = snapped(blocks, end - 1) {
            if k < pos {
                assert(!blocks[pos].markable());
            } else if pos < k {
                assert(!can_hold(blocks[k]));
            }
        }
    }
}

proof fn lemma_boundary(messages: Seq<MessageView>, ix: int, pos: int)
    ensures
        boundary(messages, ix) == Some(pos) <==> ends_before(messages, ix, pos),
{
    if 0 < ix < messages.len() {
        lemma_flat(messages);
        lemma_flat(messages.take(ix));
        lemma_flat_prefix(messages, ix);
        lemma_snapped_is_last_holder(all_blocks(messages), blocks_before(messages, ix), pos);
    }
}

proof fn lemma_kept_is_among_last_two(messages: Seq<MessageView>, pos: int)
    ensures
        kept_boundaries(messages).contains(pos) <==> (turn_end(messages, pos) && among_last_two(
            messages,
            pos,
        )),
{
    let count = messages.len() as int;
    let all = boundaries(messages, count);
    let kept = kept_boundaries(messages);
    let skipped = all.len() - kept.len();
    law_boundaries(messages, count);
    assert forall|p: int| all.contains(p) <==> turn_end(messages, p) by {
        if all.contains(p) {
            let ix = choose|ix: int|
                0 <= ix < count && (#[trigger] boundary(messages, ix)) == Some(p);
            lemma_boundary(messages, ix, p);
        }
        if turn_end(messages, p) {
            let ix = choose|ix: int| #[trigger] ends_before(messages, ix, p);
            lemma_boundary(messages, ix, p);
            assert(0 <= ix < count && boundary(messages, ix) == Some(p));
        }
    }
    if kept.contains(pos) {
        let k = choose|k: int| 0 <= k < kept.len() && kept[k] == pos;
        assert(all[k + skipped] == pos);
        assert(all.contains(pos));
        assert forall|p: int, q: int|
            #[trigger] turn_end(messages, p) && #[trigger] turn_end(messages, q) && pos < p && pos
                < q implies p == q by {
            let i = choose|i: int| 0 <= i < all.len() && all[i] == p;
            let j = choose|j: int| 0 <= j < all.len() && all[j] == q;
            if i < k + skipped {
                assert(all[i] < all[k + skipped]);
            }
            if j < k + skipped {
                assert(all[j] < all[k + skipped]);
            }
        }
    }
    if turn_end(messages, pos) && among_last_two(messages, pos) {
        let k = choose|k: int| 0 <= k < all.len() && all[k] == pos;
        if k < all.len() - 2 {
            let p = all[k + 1];
            let q = all[k + 2];
            assert(all.contains(p));
            assert(all.contains(q));
            assert(turn_end(messages, p) && turn_end(messages, q));
            assert(pos < p && p < q);
            assert(false);
        }
        assert(kept[k - skipped] == pos);
    }
}

proof fn lemma_breakpoints(messages: Seq<MessageView>, pos: int)
    ensures
        breakpoints(messages).contains(pos) <==> to_be_marked(messages, pos),
{
    lemma_flat(messages);
    lemma_snapped_is_last_holder(flat(messages), flat(messages).len() as int, pos);
    lemma_kept_is_among_last_two(messages, pos);
}

/// Whether `after` is the conversation `before` with a short-lived breakpoint on each block that is
/// to be marked. All other blocks keep what they had, and nothing but breakpoints changes.
pub open spec fn marked(before: Seq<MessageView>, after: Seq<MessageView>) -> bool {
    &&& same_conversation(before, after)
    &&& all_blocks(after).len() == all_blocks(before).len()
    &&& forall|p: int|
        0 <= p < all_blocks(before).len() ==> {
            let block = #[trigger] all_blocks(after)[p];
            &&& same_content(all_blocks(before)[p], block)
            &&& breakpoint_on(block) == if to_be_marked(before, p) {
                short_breakpoint()
            } else {
                breakpoint_on(all_blocks(before)[p])
            }
        }
}

/// Placing breakpoints on a conversation puts a short-lived one on the last block that can hold
/// one and on the last two such blocks at which a turn ends, that is on the last before a message
/// in which the user says something, whatever else stands in that message.
pub proof fn law_breakpoints_are_placed(messages: &mut Vec<Message>)
    requires
        call_ensures(place_conversation_breakpoints, (messages,), ()),
    ensures
        marked(messages_view(old(messages)@), messages_view(final(messages)@)),
{
    lemma_marked(messages_view(old(messages)@));
}

proof fn lemma_marked(messages: Seq<MessageView>)
    ensures
        marked(messages, with_marks(messages, breakpoints(messages))),
{
    let placed = with_marks(messages, breakpoints(messages));
    lemma_flat(messages);
    lemma_flat(placed);
    lemma_flat_with_marks(messages, breakpoints(messages));
    assert forall|p: int| 0 <= p < all_blocks(messages).len() implies {
        let block = #[trigger] all_blocks(placed)[p];
        &&& same_content(all_blocks(messages)[p], block)
        &&& breakpoint_on(block) == if to_be_marked(messages, p) {
            short_breakpoint()
        } else {
            breakpoint_on(all_blocks(messages)[p])
        }
    } by {
        lemma_breakpoints(messages, p);
        assert(flat(placed)[p] == all_blocks(placed)[p]);
        if to_be_marked(messages, p) {
            lemma_marked_can_hold(messages, p);
        }
    }
}

proof fn lemma_marked_can_hold(messages: Seq<MessageView>, pos: int)
    requires
        to_be_marked(messages, pos),
    ensures
        0 <= pos < all_blocks(messages).len(),
        can_hold(all_blocks(messages)[pos]),
{
    if turn_end(messages, pos) {
        let ix = choose|ix: int| #[trigger] ends_before(messages, ix, pos);
    }
}

/// A block that can hold a breakpoint then has the one that is put on it and is otherwise the
/// same; one that cannot stays as it is, and the caller is told.
pub proof fn law_breakpoint_on_block(
    block: &mut RequestContent,
    mark: Option<CacheControl>,
    set: bool,
)
    requires
        call_ensures(set_cache_control, (block, mark), set),
    ensures
        set == can_hold(old(block)@),
        same_content(old(block)@, final(block)@),
        breakpoint_on(final(block)@) == if can_hold(old(block)@) {
            mark
        } else {
            breakpoint_on(old(block)@)
        },
{
}

/// Whether `after` are the blocks `before` with the breakpoint on the last one that can hold one,
/// and everything else as it was.
pub open spec fn marked_at_end(
    before: Seq<RequestContentView>,
    mark: CacheControl,
    after: Seq<RequestContentView>,
) -> bool {
    &&& after.len() == before.len()
    &&& forall|k: int|
        0 <= k < before.len() ==> {
            &&& same_content(before[k], #[trigger] after[k])
            &&& breakpoint_on(after[k]) == if last_holder(before, before.len() as int, k) {
                Some(mark)
            } else {
                breakpoint_on(before[k])
            }
        }
}

/// Marking the last block of some puts the breakpoint on the last one that can hold one, and
/// leaves everything else as it is.
pub proof fn law_last_block_is_marked(blocks: &mut [RequestContent], mark: CacheControl)
    requires
        call_ensures(mark_last_cacheable_content, (blocks, mark), ()),
    ensures
        marked_at_end(blocks_view(old(blocks)@), mark, blocks_view(final(blocks)@)),
{
    lemma_marked_at_end(blocks_view(old(blocks)@), mark);
}

proof fn lemma_marked_at_end(blocks: Seq<RequestContentView>, mark: CacheControl)
    ensures
        marked_at_end(blocks, mark, last_marked(blocks, mark)),
{
    lemma_snapped(blocks, blocks.len() - 1);
    let after = last_marked(blocks, mark);
    assert forall|k: int| 0 <= k < blocks.len() implies {
        &&& same_content(blocks[k], #[trigger] after[k])
        &&& breakpoint_on(after[k]) == if last_holder(blocks, blocks.len() as int, k) {
            Some(mark)
        } else {
            breakpoint_on(blocks[k])
        }
    } by {
        lemma_snapped_is_last_holder(blocks, blocks.len() as int, k);
    }
}

/// Whether the request wants its conversation cached automatically: the mode says so, and a
/// message that is not skipped wants it, whoever says it.
pub open spec fn wants_caching(
    messages: Seq<LanguageModelRequestMessage>,
    cache_mode: AnthropicPromptCacheMode,
) -> bool {
    &&& cache_mode == AnthropicPromptCacheMode::Automatic
    &&& exists|i: int|
        0 <= i < messages.len() && (#[trigger] messages[i]).cache && !messages[i].contents_empty
}

proof fn lemma_blocks_of_same(a: Seq<MessageView>, b: Seq<MessageView>)
    requires
        same_conversation(a, b),
    ensures
        all_blocks(a).len() == all_blocks(b).len(),
        forall|k: int|
            0 <= k < all_blocks(a).len() ==> same_content(
                #[trigger] all_blocks(a)[k],
                all_blocks(b)[k],
            ),
    decreases a.len(),
{
    if a.len() > 0 {
        let last = a.len() - 1;
        lemma_same_beginning(a, b, last);
        assert(a.take(last) =~= a.drop_last());
        assert(b.take(last) =~= b.drop_last());
        lemma_blocks_of_same(a.drop_last(), b.drop_last());
        let n = all_blocks(a.drop_last()).len() as int;
        assert(a[last].role == b[last].role);
        assert forall|k: int| 0 <= k < all_blocks(a).len() implies same_content(
            #[trigger] all_blocks(a)[k],
            all_blocks(b)[k],
        ) by {
            if k < n {
                assert(all_blocks(a)[k] == all_blocks(a.drop_last())[k]);
                assert(all_blocks(b)[k] == all_blocks(b.drop_last())[k]);
            } else {
                assert(all_blocks(a)[k] == a[last].content[k - n]);
                assert(all_blocks(b)[k] == b[last].content[k - n]);
            }
        }
    }
}

proof fn lemma_same_beginning(a: Seq<MessageView>, b: Seq<MessageView>, ix: int)
    requires
        same_conversation(a, b),
        0 <= ix <= a.len(),
    ensures
        same_conversation(a.take(ix), b.take(ix)),
{
    assert forall|i: int| 0 <= i < ix implies (#[trigger] a.take(ix)[i]).role == b.take(ix)[i].role
        && a.take(ix)[i].content.len() == b.take(ix)[i].content.len() by {
        assert(a[i].role == b[i].role);
    }
    assert forall|i: int, j: int|
        0 <= i < ix && 0 <= j < a.take(ix)[i].content.len() implies same_content(
        #[trigger] a.take(ix)[i].content[j],
        b.take(ix)[i].content[j],
    ) by {
        assert(same_content(a[i].content[j], b[i].content[j]));
    }
}

proof fn lemma_same_ends(a: Seq<MessageView>, b: Seq<MessageView>, ix: int, pos: int)
    requires
        same_conversation(a, b),
        ends_before(a, ix, pos),
    ensures
        ends_before(b, ix, pos),
{
    lemma_blocks_of_same(a, b);
    lemma_same_beginning(a, b, ix);
    lemma_blocks_of_same(a.take(ix), b.take(ix));
    lemma_same_holder(all_blocks(a), all_blocks(b), blocks_before(a, ix), pos);
    assert(a[ix].role == b[ix].role);
    assert(a[ix - 1].content.len() == b[ix - 1].content.len());
    let j = choose|j: int| 0 <= j < a[ix].content.len() && (#[trigger] a[ix].content[j]) is Text;
    assert(same_content(a[ix].content[j], b[ix].content[j]));
    assert(b[ix].content[j] is Text);
}

proof fn lemma_same_holder(
    a: Seq<RequestContentView>,
    b: Seq<RequestContentView>,
    end: int,
    pos: int,
)
    requires
        a.len() == b.len(),
        forall|k: int| 0 <= k < a.len() ==> same_content(#[trigger] a[k], b[k]),
        end <= a.len(),
    ensures
        last_holder(a, end, pos) == last_holder(b, end, pos),
{
    assert forall|k: int| 0 <= k < a.len() implies can_hold(#[trigger] a[k]) == can_hold(b[k]) by {
        assert(same_content(a[k], b[k]));
    }
    if last_holder(a, end, pos) {
        assert forall|k: int| pos < k < end implies !can_hold(#[trigger] b[k]) by {
            assert(!can_hold(a[k]));
        }
    }
    if last_holder(b, end, pos) {
        assert forall|k: int| pos < k < end implies !can_hold(#[trigger] a[k]) by {
            assert(!can_hold(b[k]));
        }
    }
}

proof fn lemma_same_is_symmetric(a: Seq<MessageView>, b: Seq<MessageView>)
    requires
        same_conversation(a, b),
    ensures
        same_conversation(b, a),
{
    assert forall|i: int| 0 <= i < b.len() implies (#[trigger] b[i]).role == a[i].role
        && b[i].content.len() == a[i].content.len() by {
        assert(a[i].role == b[i].role);
    }
    assert forall|i: int, j: int| 0 <= i < b.len() && 0 <= j < b[i].content.len() implies
        same_content(#[trigger] b[i].content[j], a[i].content[j]) by {
        assert(a[i].content.len() == b[i].content.len());
        assert(same_content(a[i].content[j], b[i].content[j]));
    }
}

/// Which blocks are to be marked does not depend on the breakpoints that are there.
proof fn lemma_same_to_be_marked(a: Seq<MessageView>, b: Seq<MessageView>, pos: int)
    requires
        same_conversation(a, b),
    ensures
        to_be_marked(a, pos) == to_be_marked(b, pos),
{
    lemma_same_is_symmetric(a, b);
    lemma_blocks_of_same(a, b);
    lemma_same_holder(all_blocks(a), all_blocks(b), all_blocks(a).len() as int, pos);
    assert forall|p: int| #[trigger] turn_end(a, p) == turn_end(b, p) by {
        if turn_end(a, p) {
            let ix = choose|ix: int| #[trigger] ends_before(a, ix, p);
            lemma_same_ends(a, b, ix, p);
        }
        if turn_end(b, p) {
            let ix = choose|ix: int| #[trigger] ends_before(b, ix, p);
            lemma_same_ends(b, a, ix, p);
        }
    }
    if among_last_two(a, pos) {
        assert forall|p: int, q: int|
            #[trigger] turn_end(b, p) && #[trigger] turn_end(b, q) && pos < p && pos < q implies p
            == q by {
            assert(turn_end(a, p) && turn_end(a, q));
        }
    }
    if among_last_two(b, pos) {
        assert forall|p: int, q: int|
            #[trigger] turn_end(a, p) && #[trigger] turn_end(a, q) && pos < p && pos < q implies p
            == q by {
            assert(turn_end(b, p) && turn_end(b, q));
        }
    }
}

/// With automatic caching, where a message wants it, the conversation that is sent carries a
/// short-lived breakpoint on the last block that can hold one and on the last two such blocks at
/// which a turn ends, and on no other. Without it, outside legacy mode, it carries none.
pub proof fn law_conversation_breakpoints<T>(
    request: LanguageModelRequest<T>,
    model: String,
    default_temperature: T,
    max_output_tokens: u64,
    mode: AnthropicModelMode,
    cache_mode: AnthropicPromptCacheMode,
    result: Request<T>,
)
    requires
        becomes(
            request,
            model,
            default_temperature,
            max_output_tokens,
            mode,
            cache_mode,
            result,
        ),
        cache_mode != AnthropicPromptCacheMode::Legacy,
    ensures
        ({
            let sent = result@.messages;
            let blocks = all_blocks(sent);
            forall|p: int|
                0 <= p < blocks.len() ==> breakpoint_on(#[trigger] blocks[p]) == if wants_caching(
                    request.messages@,
                    cache_mode,
                ) && to_be_marked(sent, p) {
                    short_breakpoint()
                } else {
                    None
                }
        }),
{
    let messages = conversation(request.messages@, cache_mode);
    let sent = result@.messages;
    law_conversation_blocks(request.messages@, cache_mode);
    lemma_flat(messages);
    lemma_marked(messages);
    assert(caching(request.messages@, cache_mode) == wants_caching(request.messages@, cache_mode));
    let blocks = all_blocks(sent);
    assert forall|p: int| 0 <= p < blocks.len() implies breakpoint_on(#[trigger] blocks[p])
        == if wants_caching(request.messages@, cache_mode) && to_be_marked(sent, p) {
        short_breakpoint()
    } else {
        None
    } by {
        if caching(request.messages@, cache_mode) {
            lemma_same_to_be_marked(messages, sent, p);
            assert(all_blocks(sent).len() == all_blocks(messages).len());
        }
        let block = flat(messages)[p];
        assert(block.mark() is None);
        assert(breakpoint_on(all_blocks(messages)[p]) is None);
    }
}

/// Each message of the user with a text in it, at any place and with any blocks around it, but for
/// the first message, ends a turn: where that is one of the last two ends, the last block before
/// the message that can hold a breakpoint is given one.
pub proof fn law_user_text_ends_a_turn(messages: &mut Vec<Message>, ix: int, j: int, pos: int)
    requires
        call_ensures(place_conversation_breakpoints, (messages,), ()),
        ({
            let before = messages_view(old(messages)@);
            let blocks = all_blocks(before);
            &&& 0 < ix < before.len()
            &&& before[ix].role == Role::User
            &&& 0 <= j < before[ix].content.len()
            &&& before[ix].content[j] is Text
            &&& before[ix - 1].content.len() > 0
            &&& 0 <= pos < blocks_before(before, ix)
            &&& can_hold(blocks[pos])
            &&& forall|k: int| pos < k < blocks_before(before, ix) ==> !can_hold(#[trigger] blocks[k])
            &&& among_last_two(before, pos)
        }),
    ensures
        breakpoint_on(all_blocks(messages_view(final(messages)@))[pos]) == short_breakpoint(),
{
    let before = messages_view(old(messages)@);
    lemma_marked(before);
    lemma_flat(before);
    lemma_flat(before.take(ix));
    lemma_flat_prefix(before, ix);
    assert(user_speaks(before[ix]));
    assert(ends_before(before, ix, pos));
    assert(to_be_marked(before, pos));
}

proof fn lemma_contributed(
    messages: Seq<LanguageModelRequestMessage>,
    cache_mode: AnthropicPromptCacheMode,
    ix: int,
)
    requires
        0 <= ix < messages.len(),
    ensures
        ({
            let start = said(messages.take(ix)).len() as int;
            let blocks = contributed(messages[ix], cache_mode);
            &&& blocks.len() == said_in(messages[ix]).len()
            &&& start + blocks.len() <= all_contributed(messages, cache_mode).len()
            &&& forall|k: int|
                0 <= k < blocks.len() ==> #[trigger] blocks[k] == all_contributed(
                    messages,
                    cache_mode,
                )[start + k]
        }),
    decreases messages.len(),
{
    let last = messages.len() - 1;
    let front = messages.drop_last();
    assert(front =~= messages.take(last));
    lemma_contributed_len(messages[ix], cache_mode);
    if ix < last {
        lemma_contributed(front, cache_mode, ix);
        assert(front.take(ix) =~= messages.take(ix));
        let start = said(messages.take(ix)).len() as int;
        let blocks = contributed(messages[ix], cache_mode);
        assert forall|k: int| 0 <= k < blocks.len() implies #[trigger] blocks[k]
            == all_contributed(messages, cache_mode)[start + k] by {
            assert(blocks[k] == all_contributed(front, cache_mode)[start + k]);
        }
    } else {
        lemma_all_contributed_len(front, cache_mode);
    }
}

proof fn lemma_contributed_len(
    message: LanguageModelRequestMessage,
    cache_mode: AnthropicPromptCacheMode,
)
    ensures
        contributed(message, cache_mode).len() == said_in(message).len(),
{
    let blocks = converted(message.content@);
    law_content_is_converted(message.content@);
    lemma_snapped(blocks, blocks.len() - 1);
}

proof fn lemma_all_contributed_len(
    messages: Seq<LanguageModelRequestMessage>,
    cache_mode: AnthropicPromptCacheMode,
)
    ensures
        all_contributed(messages, cache_mode).len() == said(messages).len(),
    decreases messages.len(),
{
    if messages.len() > 0 {
        lemma_all_contributed_len(messages.drop_last(), cache_mode);
        lemma_contributed_len(messages.last(), cache_mode);
    }
}

/// In legacy mode each message stands for itself: of the blocks that it contributes, those from
/// `start` on, the last one that can hold a breakpoint carries a short-lived one if the message
/// wants caching, and no other carries any.
pub proof fn law_legacy_breakpoints<T>(
    request: LanguageModelRequest<T>,
    model: String,
    default_temperature: T,
    max_output_tokens: u64,
    mode: AnthropicModelMode,
    result: Request<T>,
    ix: int,
)
    requires
        becomes(
            request,
            model,
            default_temperature,
            max_output_tokens,
            mode,
            AnthropicPromptCacheMode::Legacy,
            result,
        ),
        0 <= ix < request.messages@.len(),
    ensures
        ({
            let sent = all_blocks(
                result@.messages,
            );
            let message = request.messages@[ix];
            let start = said(request.messages@.take(ix)).len() as int;
            let end = start + said_in(message).len();
            &&& end <= sent.len()
            &&& forall|p: int|
                start <= p < end ==> breakpoint_on(#[trigger] sent[p]) == if message.cache
                    && last_holder(sent, end, p) {
                    short_breakpoint()
                } else {
                    None
                }
        }),
{
    let cache_mode = AnthropicPromptCacheMode::Legacy;
    let messages = conversation(request.messages@, cache_mode);
    let sent = all_blocks(messages);
    let message = request.messages@[ix];
    let start = said(request.messages@.take(ix)).len() as int;
    let end = start + said_in(message).len();
    lemma_flat(messages);
    law_conversation_keeps_blocks(request.messages@, cache_mode);
    lemma_contributed(request.messages@, cache_mode, ix);
    let blocks = contributed(message, cache_mode);
    assert forall|p: int| start <= p < end implies breakpoint_on(#[trigger] sent[p])
        == if message.cache && last_holder(sent, end, p) {
        short_breakpoint()
    } else {
        None
    } by {
        let k = p - start;
        let plain = converted(message.content@);
        assert(blocks[k] == sent[p]);
        assert(takes_part(message));
        lemma_converted(message.content@);
        law_content_is_converted(message.content@);
        assert(plain[k].mark() is None);
        if message.cache {
            lemma_marked_at_end(
                plain,
                CacheControl { cache_type: CacheControlType::Ephemeral, ttl: None },
            );
            assert forall|i: int| 0 <= i < plain.len() implies can_hold(#[trigger] plain[i])
                == can_hold(sent[start + i]) by {
                assert(same_content(plain[i], blocks[i]));
                assert(blocks[i] == sent[start + i]);
            }
            if last_holder(plain, plain.len() as int, k) {
                assert forall|q: int| p < q < end implies !can_hold(#[trigger] sent[q]) by {
                    assert(!can_hold(plain[q - start]));
                }
            }
            if last_holder(sent, end, p) {
                assert forall|i: int| k < i < plain.len() implies !can_hold(#[trigger] plain[i]) by {
                    assert(!can_hold(sent[start + i]));
                }
            }
        }
    }
}

} // verus!
