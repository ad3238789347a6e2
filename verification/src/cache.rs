//! Cache breakpoints: which blocks of a conversation carry one, and how a block is marked.

use vstd::prelude::*;

use crate::anthropic::{CacheControl, CacheControlType, Message, RequestContent, Role};

verus! {

use crate::anthropic::{blocks_view, messages_view, MessageView, RequestContentView};

/// How many conversation cache breakpoints to place. Anthropic allows 4 cache
/// breakpoints per request; one is reserved for the long-lived tools/system
/// anchor, leaving three for the conversation, spent on the conversation tail
/// plus the most recent stable turn boundaries.
pub const CONVERSATION_CACHE_BREAKPOINTS: usize = 3;

/// The marker of a conversation breakpoint: an ephemeral entry with the short default lifetime.
pub open spec fn short_lived() -> CacheControl {
    CacheControl { cache_type: CacheControlType::Ephemeral, ttl: None }
}

impl RequestContentView {
    /// Whether the block can hold a breakpoint. Thinking blocks, redacted or not, cannot.
    pub open spec fn markable(self) -> bool {
        !(self is Thinking) && !(self is RedactedThinking)
    }

    /// The breakpoint on the block.
    pub open spec fn mark(self) -> Option<CacheControl> {
        match self {
            RequestContentView::Text { cache_control, .. } => cache_control,
            RequestContentView::Thinking { cache_control, .. } => cache_control,
            RequestContentView::RedactedThinking { .. } => None,
            RequestContentView::Image { cache_control, .. } => cache_control,
            RequestContentView::ToolUse { cache_control, .. } => cache_control,
            RequestContentView::ToolResult { cache_control, .. } => cache_control,
        }
    }

    /// The block with `mark` in place of its breakpoint, where it can hold one.
    pub open spec fn with_mark(self, mark: Option<CacheControl>) -> RequestContentView {
        match self {
            RequestContentView::Text { text, .. } => RequestContentView::Text {
                text,
                cache_control: mark,
            },
            RequestContentView::Image { source, .. } => RequestContentView::Image {
                source,
                cache_control: mark,
            },
            RequestContentView::ToolUse { id, name, input, .. } => RequestContentView::ToolUse {
                id,
                name,
                input,
                cache_control: mark,
            },
            RequestContentView::ToolResult { tool_use_id, is_error, content, .. } =>
                RequestContentView::ToolResult {
                tool_use_id,
                is_error,
                content,
                cache_control: mark,
            },
            _ => self,
        }
    }
}

/// The nearest position at or before `pos` whose block can hold a breakpoint.
pub open spec fn snapped(blocks: Seq<RequestContentView>, pos: int) -> Option<int>
    decreases pos + 1,
{
    if pos < 0 {
        None
    } else if pos < blocks.len() && blocks[pos].markable() {
        Some(pos)
    } else {
        snapped(blocks, pos - 1)
    }
}

/// The blocks with `mark` on the last one that can hold a breakpoint.
pub open spec fn last_marked(
    blocks: Seq<RequestContentView>,
    mark: CacheControl,
) -> Seq<RequestContentView> {
    match snapped(blocks, blocks.len() - 1) {
        Some(pos) => blocks.update(pos, blocks[pos].with_mark(Some(mark))),
        None => blocks,
    }
}

/// All blocks of a conversation in order. A position in it is the absolute position of a block.
pub open spec fn flat(messages: Seq<MessageView>) -> Seq<RequestContentView>
    decreases messages.len(),
{
    if messages.len() == 0 {
        Seq::empty()
    } else {
        flat(messages.drop_last()) + messages.last().content
    }
}

/// The absolute position of the first block of message `ix`.
pub open spec fn block_start(messages: Seq<MessageView>, ix: int) -> int {
    flat(messages.take(ix)).len() as int
}

/// Whether the message is a prompt that the user wrote, and not only the results of tools.
pub open spec fn is_user_prompt(message: MessageView) -> bool {
    message.role == Role::User && exists|j: int|
        0 <= j < message.content.len() && (#[trigger] message.content[j]) is Text
}

/// The stable boundary before message `ix`, where that message is a user prompt: the last block
/// of the message before it, snapped onto a block that can hold a breakpoint.
pub open spec fn boundary(messages: Seq<MessageView>, ix: int) -> Option<int> {
    if 0 < ix < messages.len() && is_user_prompt(messages[ix]) && messages[ix - 1].content.len()
        > 0 {
        snapped(flat(messages), block_start(messages, ix) - 1)
    } else {
        None
    }
}

/// The distinct boundaries before the first `upto` messages, in order.
pub open spec fn boundaries(messages: Seq<MessageView>, upto: int) -> Seq<int>
    decreases upto,
{
    if upto <= 0 {
        Seq::empty()
    } else {
        let earlier = boundaries(messages, upto - 1);
        match boundary(messages, upto - 1) {
            Some(pos) => if earlier.len() > 0 && earlier.last() == pos {
                earlier
            } else {
                earlier.push(pos)
            },
            None => earlier,
        }
    }
}

/// The most recent boundaries, as many as there are breakpoints beside the one for the tail.
pub open spec fn kept_boundaries(messages: Seq<MessageView>) -> Seq<int> {
    let all = boundaries(messages, messages.len() as int);
    let kept = CONVERSATION_CACHE_BREAKPOINTS - 1;
    if all.len() <= kept {
        all
    } else {
        all.skip(all.len() - kept)
    }
}

/// The position of the last block that can hold a breakpoint.
pub open spec fn tail(messages: Seq<MessageView>) -> Option<int> {
    snapped(flat(messages), flat(messages).len() - 1)
}

/// The absolute positions that carry a conversation breakpoint: the tail and the most recent
/// boundaries.
pub open spec fn breakpoints(messages: Seq<MessageView>) -> Set<int> {
    Set::new(|pos: int| tail(messages) == Some(pos) || kept_boundaries(messages).contains(pos))
}

/// The message with a short-lived breakpoint on each block whose absolute position is in `marks`;
/// its first block stands at `start`.
pub open spec fn message_with_marks(message: MessageView, start: int, marks: Set<int>) -> MessageView {
    MessageView {
        role: message.role,
        content: Seq::new(
            message.content.len(),
            |j: int|
                if marks.contains(start + j) {
                    message.content[j].with_mark(Some(short_lived()))
                } else {
                    message.content[j]
                },
        ),
    }
}

/// The messages with a short-lived breakpoint on each block whose absolute position is in
/// `marks`.
pub open spec fn with_marks(messages: Seq<MessageView>, marks: Set<int>) -> Seq<MessageView> {
    Seq::new(
        messages.len(),
        |i: int| message_with_marks(messages[i], block_start(messages, i), marks),
    )
}

/// Puts `cache_control` on the block, if the block can hold one, and says whether it can.
pub fn set_cache_control(content: &mut RequestContent, cache_control: Option<CacheControl>) -> (set:
    bool)
    ensures
        set == old(content)@.markable(),
        final(content)@ == old(content)@.with_mark(cache_control),
{
    match content {
        // Anthropic rejects `cache_control` on (redacted) thinking blocks
        // ("Extra inputs are not permitted"), so these can't hold a breakpoint.
        RequestContent::RedactedThinking { .. } | RequestContent::Thinking { .. } => false,
        RequestContent::Text { cache_control: target, .. } => {
            *target = cache_control;
            true
        },
        RequestContent::Image { cache_control: target, .. } => {
            *target = cache_control;
            true
        },
        RequestContent::ToolUse { cache_control: target, .. } => {
            *target = cache_control;
            true
        },
        RequestContent::ToolResult { cache_control: target, .. } => {
            *target = cache_control;
            true
        },
    }
}

/// Marks the last block that can hold a breakpoint, if there is one.
pub fn mark_last_cacheable_content(content: &mut [RequestContent], cache_control: CacheControl)
    ensures
        blocks_view(final(content)@) == last_marked(blocks_view(old(content)@), cache_control),
{
    let ghost before = blocks_view(content@);
    let mut ix: usize = content.len();
    while ix > 0
        invariant
            ix <= content.len(),
            before == blocks_view(old(content)@),
            blocks_view(content@) == before,
            snapped(before, ix - 1) == snapped(before, before.len() - 1),
        decreases ix,
    {
        ix = ix - 1;
        assert(before[ix as int] == content@[ix as int]@);
        if set_cache_control(&mut content[ix], Some(cache_control)) {
            assert(blocks_view(content@) =~= last_marked(before, cache_control));
            return;
        }
        assert(blocks_view(content@) =~= before);
    }
    assert(snapped(before, -1) is None);
}

proof fn lemma_flat_next(messages: Seq<MessageView>, ix: int)
    requires
        0 <= ix < messages.len(),
    ensures
        flat(messages.take(ix + 1)) == flat(messages.take(ix)) + messages[ix].content,
        block_start(messages, ix + 1) == block_start(messages, ix) + messages[ix].content.len(),
{
    assert(messages.take(ix + 1).drop_last() =~= messages.take(ix));
    assert(messages.take(ix + 1).last() == messages[ix]);
}

/// The blocks of the first messages are a beginning of the blocks of all messages.
pub proof fn lemma_flat_prefix(messages: Seq<MessageView>, ix: int)
    requires
        0 <= ix <= messages.len(),
    ensures
        flat(messages.take(ix)).len() <= flat(messages).len(),
        flat(messages.take(ix)) == flat(messages).take(flat(messages.take(ix)).len() as int),
    decreases messages.len() - ix,
{
    if ix < messages.len() {
        lemma_flat_prefix(messages, ix + 1);
        lemma_flat_next(messages, ix);
        let short = flat(messages.take(ix));
        let long = flat(messages.take(ix + 1));
        assert(short =~= long.take(short.len() as int));
        assert(short =~= flat(messages).take(short.len() as int));
    } else {
        assert(messages.take(ix) =~= messages);
        assert(flat(messages).take(flat(messages).len() as int) =~= flat(messages));
    }
}

/// Block `j` of message `ix` stands `j` positions after the start of the message.
pub proof fn lemma_flat_index(messages: Seq<MessageView>, ix: int, j: int)
    requires
        0 <= ix < messages.len(),
        0 <= j < messages[ix].content.len(),
    ensures
        0 <= block_start(messages, ix) + j < flat(messages).len(),
        flat(messages)[block_start(messages, ix) + j] == messages[ix].content[j],
{
    lemma_flat_next(messages, ix);
    lemma_flat_prefix(messages, ix + 1);
    let pos = block_start(messages, ix) + j;
    let upto = flat(messages.take(ix + 1));
    assert(upto[pos] == flat(messages).take(upto.len() as int)[pos]);
}

/// A later message starts where an earlier one ends, or after it.
pub proof fn lemma_block_start_monotonic(messages: Seq<MessageView>, i: int, k: int)
    requires
        0 <= i < k <= messages.len(),
    ensures
        block_start(messages, i) + messages[i].content.len() <= block_start(messages, k),
    decreases k - i,
{
    lemma_flat_next(messages, k - 1);
    if i < k - 1 {
        lemma_block_start_monotonic(messages, i, k - 1);
    }
}

/// What the snapped position is: the nearest one at or before `pos` that can hold a breakpoint.
pub proof fn lemma_snapped(blocks: Seq<RequestContentView>, pos: int)
    requires
        pos < blocks.len(),
    ensures
        match snapped(blocks, pos) {
            Some(k) => {
                &&& 0 <= k <= pos
                &&& blocks[k].markable()
                &&& forall|i: int| k < i <= pos ==> !(#[trigger] blocks[i]).markable()
            },
            None => forall|i: int| 0 <= i <= pos ==> !(#[trigger] blocks[i]).markable(),
        },
    decreases pos + 1,
{
    if pos >= 0 && !blocks[pos].markable() {
        lemma_snapped(blocks, pos - 1);
    }
}

/// The nearest position at or before `pos` whose block can hold a breakpoint.
fn snap(
    markable: &Vec<bool>,
    pos: usize,
    Ghost(blocks): Ghost<Seq<RequestContentView>>,
) -> (found: Option<usize>)
    requires
        markable@.len() == blocks.len(),
        forall|p: int| 0 <= p < blocks.len() ==> markable@[p] == (#[trigger] blocks[p]).markable(),
        pos < blocks.len(),
    ensures
        found is Some <==> snapped(blocks, pos as int) is Some,
        found is Some ==> found->0 == snapped(blocks, pos as int)->0 && found->0 <= pos,
{
    assert(pos < markable.len());
    let mut ix: usize = pos + 1;
    while ix > 0
        invariant
            ix <= pos + 1,
            markable@.len() == blocks.len(),
            forall|p: int|
                0 <= p < blocks.len() ==> markable@[p] == (#[trigger] blocks[p]).markable(),
            pos < blocks.len(),
            snapped(blocks, ix - 1) == snapped(blocks, pos as int),
        decreases ix,
    {
        ix = ix - 1;
        assert(markable@[ix as int] == blocks[ix as int].markable());
        if markable[ix] {
            return Some(ix);
        }
    }
    assert(snapped(blocks, -1) is None);
    None
}

/// Whether the message is a prompt that the user wrote.
fn prompts(message: &Message) -> (prompt: bool)
    ensures
        prompt == is_user_prompt(message@),
{
    if message.role != Role::User {
        return false;
    }
    let mut j: usize = 0;
    while j < message.content.len()
        invariant
            message.role == Role::User,
            j <= message.content@.len(),
            forall|k: int| 0 <= k < j ==> !((#[trigger] message@.content[k]) is Text),
        decreases message.content@.len() - j,
    {
        let ghost block = message@.content[j as int];
        assert(block == message.content@[j as int]@);
        if let RequestContent::Text { .. } = &message.content[j] {
            return true;
        }
        j = j + 1;
    }
    false
}

proof fn lemma_mark_one(
    original: Seq<MessageView>,
    marks: Set<int>,
    before: Seq<MessageView>,
    after: Seq<MessageView>,
    i: int,
    j: int,
)
    requires
        before == with_marks(original, marks),
        0 <= i < original.len(),
        0 <= j < original[i].content.len(),
        after == before.update(
            i,
            MessageView {
                role: before[i].role,
                content: before[i].content.update(
                    j,
                    before[i].content[j].with_mark(Some(short_lived())),
                ),
            },
        ),
    ensures
        after == with_marks(original, marks.insert(block_start(original, i) + j)),
{
    let pos = block_start(original, i) + j;
    let wanted = with_marks(original, marks.insert(pos));
    assert forall|k: int| 0 <= k < original.len() implies after[k] == wanted[k] by {
        if k < i {
            lemma_block_start_monotonic(original, k, i);
        } else if i < k {
            lemma_block_start_monotonic(original, i, k);
        }
        assert(after[k].content =~= wanted[k].content);
        assert(after[k] =~= wanted[k]);
    }
    assert(after =~= wanted);
}

/// The stable boundaries of the conversation, in order and each once: the tail of the turn before
/// each user prompt, snapped onto a block that can hold a breakpoint.
fn stable_boundaries(
    messages: &Vec<Message>,
    markable: &Vec<bool>,
    message_start: &Vec<usize>,
) -> (found: Vec<usize>)
    requires
        markable@.len() == flat(messages_view(messages@)).len(),
        forall|p: int|
            0 <= p < markable@.len() ==> markable@[p] == (#[trigger] flat(
                messages_view(messages@),
            )[p]).markable(),
        message_start@.len() == messages@.len(),
        forall|i: int|
            0 <= i < messages@.len() ==> (#[trigger] message_start@[i]) == block_start(
                messages_view(messages@),
                i,
            ),
    ensures
        found@.map_values(|pos: usize| pos as int) == boundaries(
            messages_view(messages@),
            messages@.len() as int,
        ),
        forall|k: int| 0 <= k < found@.len() ==> (#[trigger] found@[k]) < markable@.len(),
{
    let ghost view = messages_view(messages@);
    let total = markable.len();
    let mut found: Vec<usize> = Vec::new();
    let mut ix: usize = 0;
    while ix < messages.len()
        invariant
            view == messages_view(messages@),
            ix <= messages@.len(),
            total == markable@.len(),
            markable@.len() == flat(view).len(),
            forall|p: int|
                0 <= p < markable@.len() ==> markable@[p] == (#[trigger] flat(view)[p]).markable(),
            message_start@.len() == messages@.len(),
            forall|i: int|
                0 <= i < messages@.len() ==> (#[trigger] message_start@[i]) == block_start(view, i),
            found@.map_values(|pos: usize| pos as int) == boundaries(view, ix as int),
            forall|k: int| 0 <= k < found@.len() ==> (#[trigger] found@[k]) < markable@.len(),
        decreases messages@.len() - ix,
    {
        assert(view[ix as int] == messages@[ix as int]@);
        if ix > 0 && prompts(&messages[ix]) {
            let previous: usize = ix - 1;
            let size = messages[previous].content.len();
            assert(view[previous as int].content.len() == size);
            if size > 0 {
                proof {
                    lemma_flat_next(view, previous as int);
                    lemma_flat_index(view, previous as int, size - 1);
                }
                assert(message_start@[previous as int] == block_start(view, previous as int));
                let previous_tail: usize = message_start[previous] + (size - 1);
                assert(boundary(view, ix as int) == snapped(flat(view), previous_tail as int));
                if let Some(pos) = snap(markable, previous_tail, Ghost(flat(view))) {
                    let count = found.len();
                    if count == 0 || found[count - 1] != pos {
                        found.push(pos);
                    }
                    assert(found@.map_values(|pos: usize| pos as int) =~= boundaries(
                        view,
                        ix + 1,
                    ));
                }
            }
        }
        ix = ix + 1;
    }
    found
}

/// What is to be known of the blocks of a conversation to place breakpoints on them.
struct BlockIndex {
    /// Whether the block at an absolute position can hold a breakpoint.
    markable: Vec<bool>,
    /// The message and the place in it of the block at an absolute position.
    addresses: Vec<(usize, usize)>,
    /// The first absolute position of each message.
    message_start: Vec<usize>,
}

impl BlockIndex {
    /// Whether this is the index of `messages`.
    spec fn indexes(&self, messages: Seq<MessageView>) -> bool {
        &&& self.markable@.len() == flat(messages).len()
        &&& self.addresses@.len() == flat(messages).len()
        &&& forall|p: int|
            0 <= p < flat(messages).len() ==> self.markable@[p] == (#[trigger] flat(
                messages,
            )[p]).markable()
        &&& addressed(self.addresses@, messages)
        &&& self.message_start@.len() == messages.len()
        &&& forall|i: int|
            0 <= i < messages.len() ==> (#[trigger] self.message_start@[i]) == block_start(
                messages,
                i,
            )
    }
}

/// Goes through the blocks of a conversation once.
fn index_blocks(messages: &Vec<Message>) -> (index: BlockIndex)
    ensures
        index.indexes(messages_view(messages@)),
{
    let ghost view = messages_view(messages@);
    let mut markable: Vec<bool> = Vec::new();
    let mut addresses: Vec<(usize, usize)> = Vec::new();
    let mut message_start: Vec<usize> = Vec::new();
    let mut ix: usize = 0;
    assert(flat(view.take(0)) =~= Seq::empty());
    while ix < messages.len()
        invariant
            view == messages_view(messages@),
            ix <= messages@.len(),
            message_start@.len() == ix,
            forall|i: int| 0 <= i < ix ==> (#[trigger] message_start@[i]) == block_start(view, i),
            markable@.len() == addresses@.len(),
            markable@ == flat(view.take(ix as int)).map_values(
                |block: RequestContentView| block.markable(),
            ),
            addressed(addresses@, view),
        decreases messages@.len() - ix,
    {
        message_start.push(markable.len());
        let ghost size = view[ix as int].content.len();
        assert(view[ix as int] == messages@[ix as int]@);
        let mut j: usize = 0;
        assert(view[ix as int].content.take(0) =~= Seq::empty());
        while j < messages[ix].content.len()
            invariant
                view == messages_view(messages@),
                ix < messages@.len(),
                view[ix as int] == messages@[ix as int]@,
                size == view[ix as int].content.len(),
                j <= size,
                markable@.len() == addresses@.len(),
                markable@ == (flat(view.take(ix as int)) + view[ix as int].content.take(
                    j as int,
                )).map_values(|block: RequestContentView| block.markable()),
                addressed(addresses@, view),
            decreases size - j,
        {
            let ghost done = flat(view.take(ix as int)) + view[ix as int].content.take(j as int);
            let block = &messages[ix].content[j];
            assert(block@ == view[ix as int].content[j as int]);
            let can_hold = match block {
                RequestContent::Text { .. }
                | RequestContent::Image { .. }
                | RequestContent::ToolUse { .. }
                | RequestContent::ToolResult { .. } => true,
                _ => false,
            };
            markable.push(can_hold);
            addresses.push((ix, j));
            proof {
                let next = flat(view.take(ix as int)) + view[ix as int].content.take(j + 1);
                assert(next =~= done.push(block@));
                assert(markable@ =~= next.map_values(
                    |block: RequestContentView| block.markable(),
                ));
            }
            j = j + 1;
        }
        proof {
            lemma_flat_next(view, ix as int);
            assert(view[ix as int].content.take(j as int) =~= view[ix as int].content);
        }
        ix = ix + 1;
    }
    proof {
        assert(view.take(ix as int) =~= view);
        assert forall|p: int| 0 <= p < markable@.len() implies markable@[p] == (#[trigger] flat(
            view,
        )[p]).markable() by {}
    }
    BlockIndex { markable, addresses, message_start }
}

/// Place short-TTL conversation breakpoints on stable turn boundaries plus
/// the conversation tail.
///
/// A turn boundary, the last block of the assistant/tool message before a
/// real user prompt, is a byte-stable absolute position: later turns are
/// only appended after it, so its prefix never changes and a breakpoint there
/// re-lands on the exact block (and prefix hash) an earlier request wrote.
/// That lets a turn which appends a large batch of parallel tool calls read
/// the whole prior conversation through a boundary instead of rewriting it.
///
/// The *last few* boundaries are kept, not just the most recent one, because
/// Anthropic's cache has read-after-write latency: an entry written by the
/// immediately-preceding request is not yet readable by the very next request.
/// An older boundary is already committed, so it reliably reads the bulk of
/// the conversation; only the newest, not-yet-committed blocks are re-created,
/// and they read back a turn later.
pub fn place_conversation_breakpoints(messages: &mut Vec<Message>)
    ensures
        messages_view(final(messages)@) == with_marks(
            messages_view(old(messages)@),
            breakpoints(messages_view(old(messages)@)),
        ),
{
    let ghost view = messages_view(messages@);

    // Thinking blocks can't hold a breakpoint, so track which absolute
    // positions are markable and snap each target onto the nearest markable
    // block at or before it.
    let BlockIndex { markable, addresses, message_start } = index_blocks(messages);
    let count = addresses.len();
    if count == 0 {
        proof {
            lemma_nothing_to_mark(view);
        }
        return;
    }
    if let Some(last) = snap(&markable, count - 1, Ghost(flat(view))) {
        let found = stable_boundaries(messages, &markable, &message_start);

        // Reserve one breakpoint for the conversation tail (so the newest
        // blocks are written for a later turn to read) and spend the rest on
        // the most recent boundaries.
        let kept = CONVERSATION_CACHE_BREAKPOINTS - 1;
        let first = if found.len() > kept {
            found.len() - kept
        } else {
            0
        };
        let ghost all = boundaries(view, view.len() as int);
        let ghost mut marks: Set<int> = Set::empty();
        proof {
            lemma_no_marks(view);
        }
        let mut k: usize = first;
        while k < found.len()
            invariant
                view == messages_view(old(messages)@),
                messages_view(messages@) == with_marks(view, marks),
                first <= k <= found@.len(),
                found@.map_values(|pos: usize| pos as int) == all,
                forall|k: int| 0 <= k < found@.len() ==> (#[trigger] found@[k]) < addresses@.len(),
                addressed(addresses@, view),
                forall|pos: int|
                    marks.contains(pos) <==> exists|i: int|
                        first <= i < k && (#[trigger] all[i]) == pos,
            decreases found@.len() - k,
        {
            mark(messages, &addresses, found[k], Ghost(view), Ghost(marks));
            proof {
                let earlier = marks;
                let pos = found@[k as int] as int;
                marks = marks.insert(pos);
                assert(all[k as int] == pos);
                assert forall|p: int| marks.contains(p) implies exists|i: int|
                    first <= i < k + 1 && (#[trigger] all[i]) == p by {
                    if p != pos {
                        assert(earlier.contains(p));
                    }
                }
            }
            k = k + 1;
        }
        mark(messages, &addresses, last, Ghost(view), Ghost(marks));
        proof {
            lemma_kept(view, marks, first as int);
            assert(marks.insert(last as int) =~= breakpoints(view));
        }
    } else {
        proof {
            lemma_nothing_to_mark(view);
        }
    }
}

/// Each address is that of the block at the position where it stands.
spec fn addressed(addresses: Seq<(usize, usize)>, messages: Seq<MessageView>) -> bool {
    forall|p: int|
        0 <= p < addresses.len() ==> {
            let (i, j) = #[trigger] addresses[p];
            i < messages.len() && j < messages[i as int].content.len() && p == block_start(
                messages,
                i as int,
            ) + j
        }
}

/// Marks the block at `pos`.
fn mark(
    messages: &mut Vec<Message>,
    addresses: &Vec<(usize, usize)>,
    pos: usize,
    Ghost(view): Ghost<Seq<MessageView>>,
    Ghost(marks): Ghost<Set<int>>,
)
    requires
        addressed(addresses@, view),
        pos < addresses@.len(),
        messages_view(old(messages)@) == with_marks(view, marks),
    ensures
        messages_view(final(messages)@) == with_marks(view, marks.insert(pos as int)),
{
    let (i, j) = addresses[pos];
    let ghost before = messages_view(messages@);
    assert(addresses@[pos as int] == (i, j));
    assert(before.len() == view.len());
    assert(before[i as int] == messages@[i as int]@);
    assert(before[i as int].content.len() == view[i as int].content.len());
    set_cache_control(
        &mut messages[i].content[j],
        Some(CacheControl { cache_type: CacheControlType::Ephemeral, ttl: None }),
    );
    proof {
        let after = messages_view(messages@);
        let content = before[i as int].content.update(
            j as int,
            before[i as int].content[j as int].with_mark(Some(short_lived())),
        );
        assert(after[i as int].content =~= content);
        assert(after =~= before.update(
            i as int,
            MessageView { role: before[i as int].role, content },
        ));
        lemma_mark_one(view, marks, before, after, i as int, j as int);
    }
}

proof fn lemma_no_marks(messages: Seq<MessageView>)
    ensures
        with_marks(messages, Set::empty()) == messages,
{
    let same = with_marks(messages, Set::empty());
    assert forall|i: int| 0 <= i < messages.len() implies same[i] == messages[i] by {
        assert(same[i].content =~= messages[i].content);
    }
    assert(same =~= messages);
}

/// Where no block can hold a breakpoint there is none.
proof fn lemma_nothing_to_mark(messages: Seq<MessageView>)
    requires
        tail(messages) is None,
    ensures
        with_marks(messages, breakpoints(messages)) == messages,
{
    lemma_snapped(flat(messages), flat(messages).len() - 1);
    lemma_no_boundaries(messages, messages.len() as int);
    assert(breakpoints(messages) =~= Set::empty());
    lemma_no_marks(messages);
}

proof fn lemma_no_boundaries(messages: Seq<MessageView>, upto: int)
    requires
        forall|i: int| 0 <= i < flat(messages).len() ==> !(#[trigger] flat(messages)[i]).markable(),
        upto <= messages.len(),
    ensures
        boundaries(messages, upto) == Seq::<int>::empty(),
    decreases upto,
{
    if upto > 0 {
        lemma_no_boundaries(messages, upto - 1);
        let ix = upto - 1;
        lemma_flat_prefix(messages, ix);
        lemma_snapped(flat(messages), block_start(messages, ix) - 1);
    }
}

proof fn lemma_kept(messages: Seq<MessageView>, marks: Set<int>, first: int)
    requires
        ({
            let all = boundaries(messages, messages.len() as int);
            &&& first == if all.len() > CONVERSATION_CACHE_BREAKPOINTS - 1 {
                all.len() - (CONVERSATION_CACHE_BREAKPOINTS - 1)
            } else {
                0
            }
            &&& forall|pos: int|
                marks.contains(pos) <==> exists|i: int|
                    first <= i < all.len() && (#[trigger] all[i]) == pos
        }),
    ensures
        forall|pos: int| marks.contains(pos) <==> kept_boundaries(messages).contains(pos),
{
    let all = boundaries(messages, messages.len() as int);
    let chosen = kept_boundaries(messages);
    assert forall|pos: int| marks.contains(pos) <==> chosen.contains(pos) by {
        if marks.contains(pos) {
            let i = choose|i: int| first <= i < all.len() && (#[trigger] all[i]) == pos;
            assert(chosen[i - first] == pos);
        }
        if chosen.contains(pos) {
            let i = choose|i: int| 0 <= i < chosen.len() && chosen[i] == pos;
            assert(all[i + first] == pos);
        }
    }
}

} // verus!
