//! Laws of what comes of a streamed response, event by event and as a whole.

use vstd::prelude::*;

use crate::anthropic::{ContentDelta, Event, ResponseContent, Usage};
use crate::event_mapper::LanguageModelCompletionError;
use crate::language_model::{StopReason, TokenUsage};

verus! {

use crate::event_mapper::{
    after_event,
    after_items,
    complete_events,
    item_yields,
    joined,
    partial_events,
    parts_of_stream,
    stop_reason_named,
    stream_yields,
    token_usage,
    updated_usage,
    MapperView,
    RawToolUseView,
};
use crate::json::document_in;
use crate::language_model::{CompletionEventView, ToolUseView};
use crate::laws::events::{
    after_events,
    begins_call,
    begins_or_ends,
    law_arguments_are_gathered,
    pieces,
};
use crate::text::trimmed;

/// The text that comes with what a stream yields: the beginning of a block of text, or more of it.
pub open spec fn text_in<E>(item: Result<Event, E>) -> Seq<char> {
    match item {
        Ok(Event::ContentBlockStart { content_block: ResponseContent::Text { text }, .. }) => text@,
        Ok(Event::ContentBlockDelta { delta: ContentDelta::TextDelta { text }, .. }) => text@,
        _ => Seq::empty(),
    }
}

/// The thinking that comes with what a stream yields.
pub open spec fn thinking_in<E>(item: Result<Event, E>) -> Seq<char> {
    match item {
        Ok(Event::ContentBlockStart { content_block: ResponseContent::Thinking { thinking }, .. }) =>
            thinking@,
        Ok(Event::ContentBlockDelta { delta: ContentDelta::ThinkingDelta { thinking }, .. }) =>
            thinking@,
        _ => Seq::empty(),
    }
}

/// The texts that come with a stream, put together.
pub open spec fn all_text_in<E>(stream: Seq<Result<Event, E>>) -> Seq<char>
    decreases stream.len(),
{
    if stream.len() == 0 {
        Seq::empty()
    } else {
        all_text_in(stream.drop_last()) + text_in(stream.last())
    }
}

/// The thinking that comes with a stream, put together.
pub open spec fn all_thinking_in<E>(stream: Seq<Result<Event, E>>) -> Seq<char>
    decreases stream.len(),
{
    if stream.len() == 0 {
        Seq::empty()
    } else {
        all_thinking_in(stream.drop_last()) + thinking_in(stream.last())
    }
}

/// The text of an item of a completion.
pub open spec fn text_of<E>(
    item: Result<CompletionEventView, LanguageModelCompletionError<E>>,
) -> Seq<char> {
    match item {
        Ok(CompletionEventView::Text(text)) => text,
        _ => Seq::empty(),
    }
}

/// The thinking of an item of a completion.
pub open spec fn thinking_of<E>(
    item: Result<CompletionEventView, LanguageModelCompletionError<E>>,
) -> Seq<char> {
    match item {
        Ok(CompletionEventView::Thinking { text, .. }) => text,
        _ => Seq::empty(),
    }
}

/// The texts of the items of a completion, put together.
pub open spec fn all_text_of<E>(
    items: Seq<Result<CompletionEventView, LanguageModelCompletionError<E>>>,
) -> Seq<char>
    decreases items.len(),
{
    if items.len() == 0 {
        Seq::empty()
    } else {
        all_text_of(items.drop_last()) + text_of(items.last())
    }
}

/// The thinking of the items of a completion, put together.
pub open spec fn all_thinking_of<E>(
    items: Seq<Result<CompletionEventView, LanguageModelCompletionError<E>>>,
) -> Seq<char>
    decreases items.len(),
{
    if items.len() == 0 {
        Seq::empty()
    } else {
        all_thinking_of(items.drop_last()) + thinking_of(items.last())
    }
}

/// Whether the event brings content that is passed on as it comes: a piece of text or thinking, a
/// signature or redacted thinking.
pub open spec fn brings_content(event: Event) -> bool {
    match event {
        Event::ContentBlockStart { content_block, .. } => !(content_block is ToolUse),
        Event::ContentBlockDelta { delta, .. } => !(delta is InputJsonDelta),
        _ => false,
    }
}

/// Whether `out` says what the event brings, character by character.
pub open spec fn passes_on(event: Event, out: CompletionEventView) -> bool {
    match event {
        Event::ContentBlockStart { content_block, .. } => match content_block {
            ResponseContent::Text { text } => out is Text && out->Text_0 == text@,
            ResponseContent::Thinking { thinking } => out is Thinking && out->text == thinking@
                && out->signature is None,
            ResponseContent::RedactedThinking { data } => out is RedactedThinking && out->data
                == data@,
            ResponseContent::ToolUse { .. } => false,
        },
        Event::ContentBlockDelta { delta, .. } => match delta {
            ContentDelta::TextDelta { text } => out is Text && out->Text_0 == text@,
            ContentDelta::ThinkingDelta { thinking } => out is Thinking && out->text == thinking@
                && out->signature is None,
            ContentDelta::SignatureDelta { signature } => out is Thinking && out->text.len() == 0
                && out->signature == Some(signature@),
            ContentDelta::InputJsonDelta { .. } => false,
        },
        _ => false,
    }
}

/// Content comes through as it is and at once: an event that brings any gives one event, which
/// says the same.
pub proof fn law_content_is_passed_on<
    E,
    F: Fn(&str) -> String,
    P: Fn(&str) -> Result<serde_json::Value, String>,
>(
    state: MapperView,
    event: Event,
    fix_streamed_json: F,
    parse_tool_arguments: P,
    items: Seq<Result<CompletionEventView, LanguageModelCompletionError<E>>>,
)
    requires
        brings_content(event),
        item_yields(state, Ok::<Event, E>(event), fix_streamed_json, parse_tool_arguments, items),
    ensures
        items.len() == 1,
        items[0] is Ok,
        passes_on(event, items[0]->Ok_0),
        after_event(state, event) == state,
{
}

/// Whether the tool call shows this id, this name and these arguments, and whether they are
/// complete.
pub open spec fn shows_call(
    tool_use: ToolUseView,
    call: RawToolUseView,
    input: serde_json::Value,
    complete: bool,
) -> bool {
    &&& tool_use.id == call.id
    &&& tool_use.name == call.name
    &&& tool_use.raw_input == call.input_json
    &&& tool_use.input == input
    &&& tool_use.is_input_complete == complete
    &&& tool_use.thought_signature is None
}

/// What is shown of a tool call while its arguments arrive: the call with what its arguments could
/// be read as so far, and nothing where they could not be read.
pub proof fn law_partial_tool_use(tool_use: RawToolUseView, document: Option<serde_json::Value>)
    ensures
        ({
            let events = partial_events(tool_use, document);
            match document {
                Some(input) => {
                    &&& events.len() == 1
                    &&& events[0] is Ok
                    &&& events[0]->Ok_0 is ToolUse
                    &&& shows_call(events[0]->Ok_0->ToolUse_0, tool_use, input, false)
                },
                None => events.len() == 0,
            }
        }),
{
}

/// What comes of a tool call when its arguments are complete: the call with what they were read
/// as, or else the arguments as they came, without the whitespace around them, and why they could
/// not be read.
pub proof fn law_complete_tool_use(
    tool_use: RawToolUseView,
    parsed: Result<serde_json::Value, String>,
)
    ensures
        ({
            let events = complete_events(tool_use, parsed);
            &&& events.len() == 1
            &&& events[0] is Ok
            &&& match parsed {
                Ok(input) => {
                    &&& events[0]->Ok_0 is ToolUse
                    &&& shows_call(events[0]->Ok_0->ToolUse_0, tool_use, input, true)
                },
                Err(error) => events[0]->Ok_0 == (CompletionEventView::ToolUseJsonParseError {
                    id: tool_use.id,
                    tool_name: tool_use.name,
                    raw_input: trimmed(tool_use.input_json),
                    json_parse_error: error@,
                }),
            }
        }),
{
}

/// While a tool call is running, a piece of its arguments shows the call with all the pieces that
/// have arrived, as `fix_streamed_json` completes them and they can then be read; where they
/// cannot it shows nothing.
pub proof fn law_running_call_is_shown<
    E,
    F: Fn(&str) -> String,
    P: Fn(&str) -> Result<serde_json::Value, String>,
>(
    state: MapperView,
    start: Event,
    between: Seq<Event>,
    index: usize,
    id: Seq<char>,
    name: Seq<char>,
    partial_json: String,
    fix_streamed_json: F,
    parse_tool_arguments: P,
    items: Seq<Result<CompletionEventView, LanguageModelCompletionError<E>>>,
)
    requires
        begins_call(start, index, id, name),
        forall|i: int| 0 <= i < between.len() ==> !begins_or_ends(#[trigger] between[i], index),
        item_yields(
            after_events(after_event(state, start), between),
            Ok::<Event, E>(
                Event::ContentBlockDelta {
                    index,
                    delta: ContentDelta::InputJsonDelta { partial_json },
                },
            ),
            fix_streamed_json,
            parse_tool_arguments,
            items,
        ),
    ensures
        exists|so_far: &str, fixed: String|
            {
                &&& so_far@ == pieces(between, index) + partial_json@
                &&& #[trigger] call_ensures(fix_streamed_json, (so_far,), fixed)
                &&& match document_in(fixed@) {
                    Some(input) => {
                        &&& items.len() == 1
                        &&& items[0] is Ok
                        &&& items[0]->Ok_0 is ToolUse
                        &&& shows_call(
                            items[0]->Ok_0->ToolUse_0,
                            RawToolUseView { id, name, input_json: so_far@ },
                            input,
                            false,
                        )
                    },
                    None => items.len() == 0,
                }
            },
{
    law_arguments_are_gathered(after_event(state, start), between, index);
    assert(Seq::<char>::empty() + pieces(between, index) =~= pieces(between, index));
}

/// When a tool call ends, the pieces of its arguments, put together and without the whitespace
/// around them, are what `parse_tool_arguments` is handed. Where it can read them the call comes
/// out complete, with its id, its name and the pieces as they arrived; where it cannot, that is
/// reported, with what was handed over.
pub proof fn law_ended_call_is_reported<
    E,
    F: Fn(&str) -> String,
    P: Fn(&str) -> Result<serde_json::Value, String>,
>(
    state: MapperView,
    start: Event,
    between: Seq<Event>,
    index: usize,
    id: Seq<char>,
    name: Seq<char>,
    fix_streamed_json: F,
    parse_tool_arguments: P,
    items: Seq<Result<CompletionEventView, LanguageModelCompletionError<E>>>,
)
    requires
        begins_call(start, index, id, name),
        forall|i: int| 0 <= i < between.len() ==> !begins_or_ends(#[trigger] between[i], index),
        item_yields(
            after_events(after_event(state, start), between),
            Ok::<Event, E>(Event::ContentBlockStop { index }),
            fix_streamed_json,
            parse_tool_arguments,
            items,
        ),
    ensures
        items.len() == 1,
        items[0] is Ok,
        exists|arguments: &str, parsed: Result<serde_json::Value, String>|
            {
                &&& arguments@ == trimmed(pieces(between, index))
                &&& #[trigger] call_ensures(parse_tool_arguments, (arguments,), parsed)
                &&& match parsed {
                    Ok(input) => {
                        &&& items[0]->Ok_0 is ToolUse
                        &&& shows_call(
                            items[0]->Ok_0->ToolUse_0,
                            RawToolUseView { id, name, input_json: pieces(between, index) },
                            input,
                            true,
                        )
                    },
                    Err(error) => items[0]->Ok_0 == (CompletionEventView::ToolUseJsonParseError {
                        id,
                        tool_name: name,
                        raw_input: arguments@,
                        json_parse_error: error@,
                    }),
                }
            },
{
    law_arguments_are_gathered(after_event(state, start), between, index);
    assert(Seq::<char>::empty() + pieces(between, index) =~= pieces(between, index));
}

/// Whether `count` is the count that was reported: the new one, or else the one before, or else
/// none, which is zero.
pub open spec fn counts(count: u64, new: Option<u64>, before: Option<u64>) -> bool {
    match (new, before) {
        (Some(new), _) => count == new,
        (None, Some(before)) => count == before,
        (None, None) => count == 0,
    }
}

/// Whether the usage says of each kind of token what was last reported.
pub open spec fn tells_usage(usage: TokenUsage, new: Usage, before: Usage) -> bool {
    &&& counts(usage.input_tokens, new.input_tokens, before.input_tokens)
    &&& counts(usage.output_tokens, new.output_tokens, before.output_tokens)
    &&& counts(
        usage.cache_creation_input_tokens,
        new.cache_creation_input_tokens,
        before.cache_creation_input_tokens,
    )
    &&& counts(
        usage.cache_read_input_tokens,
        new.cache_read_input_tokens,
        before.cache_read_input_tokens,
    )
}

/// Whether `after` is the count that is known when `new` is reported after `before`.
pub open spec fn is_newest(after: Option<u64>, new: Option<u64>, before: Option<u64>) -> bool {
    if new is Some {
        after == new
    } else {
        after == before
    }
}

/// A newer count takes the place of an older one, be it greater or smaller, a count that is not
/// reported stays as it was, and one that never was is told as zero.
pub proof fn law_newest_counts(before: Usage, new: Usage)
    ensures
        ({
            let after = updated_usage(before, new);
            &&& is_newest(after.input_tokens, new.input_tokens, before.input_tokens)
            &&& is_newest(after.output_tokens, new.output_tokens, before.output_tokens)
            &&& is_newest(
                after.cache_creation_input_tokens,
                new.cache_creation_input_tokens,
                before.cache_creation_input_tokens,
            )
            &&& is_newest(
                after.cache_read_input_tokens,
                new.cache_read_input_tokens,
                before.cache_read_input_tokens,
            )
            &&& tells_usage(token_usage(after), new, before)
            &&& tells_usage(token_usage(before), before, before)
        }),
{
}

/// A message that starts tells its usage and then its id. A message that goes on tells its usage.
pub proof fn law_usage_is_told<
    E,
    F: Fn(&str) -> String,
    P: Fn(&str) -> Result<serde_json::Value, String>,
>(
    state: MapperView,
    event: Event,
    fix_streamed_json: F,
    parse_tool_arguments: P,
    items: Seq<Result<CompletionEventView, LanguageModelCompletionError<E>>>,
)
    requires
        event is MessageStart || event is MessageDelta,
        item_yields(state, Ok::<Event, E>(event), fix_streamed_json, parse_tool_arguments, items),
    ensures
        items[0] is Ok,
        items[0]->Ok_0 is UsageUpdate,
        match event {
            Event::MessageStart { message } => {
                &&& items.len() == 2
                &&& tells_usage(items[0]->Ok_0->UsageUpdate_0, message.usage, state.usage)
                &&& items[1] is Ok
                &&& items[1]->Ok_0 is StartMessage
                &&& items[1]->Ok_0->message_id == message.id@
            },
            Event::MessageDelta { usage, .. } => {
                &&& items.len() == 1
                &&& tells_usage(items[0]->Ok_0->UsageUpdate_0, usage, state.usage)
            },
            _ => true,
        },
{
}

/// Whether the event has anything to say beside its effect on the tool call that it belongs to.
pub open spec fn says_nothing(state: MapperView, event: Event) -> bool {
    match event {
        Event::ContentBlockStart { content_block, .. } => content_block is ToolUse,
        Event::ContentBlockDelta { index, delta } => delta is InputJsonDelta
            && !state.tool_uses.contains_key(index),
        Event::ContentBlockStop { index } => !state.tool_uses.contains_key(index),
        Event::Ping => true,
        _ => false,
    }
}

/// The end of a message says why it came to its end; an error of the API and a failure of the
/// stream are passed on, each as what it is; and the beginning of a tool call, an event of a call
/// that is not running and a ping say nothing.
pub proof fn law_other_events<
    E,
    F: Fn(&str) -> String,
    P: Fn(&str) -> Result<serde_json::Value, String>,
>(
    state: MapperView,
    item: Result<Event, E>,
    fix_streamed_json: F,
    parse_tool_arguments: P,
    items: Seq<Result<CompletionEventView, LanguageModelCompletionError<E>>>,
)
    requires
        item_yields(state, item, fix_streamed_json, parse_tool_arguments, items),
    ensures
        match item {
            Ok(Event::MessageStop) => items.len() == 1 && items[0] == Ok::<
                _,
                LanguageModelCompletionError<E>,
            >(CompletionEventView::Stop(state.stop_reason)),
            Ok(Event::Error { error }) => items.len() == 1 && items[0] == Err::<
                CompletionEventView,
                _,
            >(LanguageModelCompletionError::<E>::Api(error)),
            Ok(event) => says_nothing(state, event) ==> items.len() == 0,
            Err(error) => items.len() == 1 && items[0] == Err::<CompletionEventView, _>(
                LanguageModelCompletionError::Stream(error),
            ),
        },
{
}

/// The known reasons to stop and their names.
pub open spec fn reason_has_name(reason: StopReason, name: Seq<char>) -> bool {
    match reason {
        StopReason::EndTurn => name == "end_turn"@,
        StopReason::MaxTokens => name == "max_tokens"@,
        StopReason::ToolUse => name == "tool_use"@,
        StopReason::Refusal => name == "refusal"@,
    }
}

/// A reason to stop is known by its name, and by no other.
pub proof fn law_stop_reasons_have_names(name: Seq<char>, reason: StopReason)
    ensures
        stop_reason_named(name) == Some(reason) <==> reason_has_name(reason, name),
{
    reveal_strlit("end_turn");
    reveal_strlit("max_tokens");
    reveal_strlit("tool_use");
    reveal_strlit("refusal");
    assert("end_turn"@[0] != "tool_use"@[0]);
    assert("max_tokens"@.len() == 10 && "refusal"@.len() == 7 && "end_turn"@.len() == 8
        && "tool_use"@.len() == 8);
}

/// The name of the reason to stop that the event brings.
pub open spec fn reason_in(event: Event) -> Option<Seq<char>> {
    match event {
        Event::MessageDelta { delta, .. } => match delta.stop_reason {
            Some(name) => Some(name@),
            None => None,
        },
        _ => None,
    }
}

/// What an event changes. A reason to stop takes the place of the one before, and counts as the
/// end of the turn where its name is not known; newer counts take the place of older ones; and the
/// running tool calls change only in the block that the event belongs to.
pub proof fn law_state_after_event(state: MapperView, event: Event, index: usize)
    ensures
        ({
            let after = after_event(state, event);
            &&& match reason_in(event) {
                Some(name) => reason_has_name(after.stop_reason, name) || (after.stop_reason
                    == StopReason::EndTurn && forall|reason: StopReason|
                    !#[trigger] reason_has_name(reason, name)),
                None => after.stop_reason == state.stop_reason,
            }
            &&& match event {
                Event::MessageStart { message } => tells_usage(
                    token_usage(after.usage),
                    message.usage,
                    state.usage,
                ),
                Event::MessageDelta { usage, .. } => tells_usage(
                    token_usage(after.usage),
                    usage,
                    state.usage,
                ),
                _ => after.usage == state.usage,
            }
            &&& match event {
                Event::ContentBlockStart {
                    index: at,
                    content_block: ResponseContent::ToolUse { id, name, .. },
                } if at == index => {
                    &&& after.tool_uses.contains_key(index)
                    &&& after.tool_uses[index].id == id@
                    &&& after.tool_uses[index].name == name@
                    &&& after.tool_uses[index].input_json.len() == 0
                },
                Event::ContentBlockDelta {
                    index: at,
                    delta: ContentDelta::InputJsonDelta { partial_json },
                } if at == index && state.tool_uses.contains_key(index) => {
                    &&& after.tool_uses.contains_key(index)
                    &&& after.tool_uses[index].id == state.tool_uses[index].id
                    &&& after.tool_uses[index].name == state.tool_uses[index].name
                    &&& after.tool_uses[index].input_json == state.tool_uses[index].input_json
                        + partial_json@
                },
                Event::ContentBlockStop { index: at } if at == index =>
                    !after.tool_uses.contains_key(index),
                _ => {
                    &&& after.tool_uses.contains_key(index) == state.tool_uses.contains_key(index)
                    &&& state.tool_uses.contains_key(index) ==> after.tool_uses[index]
                        == state.tool_uses[index]
                },
            }
        }),
{
    if let Some(name) = reason_in(event) {
        assert forall|reason: StopReason| #[trigger] reason_has_name(reason, name) implies
            stop_reason_named(name) == Some(reason) by {
            law_stop_reasons_have_names(name, reason);
        }
        if stop_reason_named(name) is Some {
            law_stop_reasons_have_names(name, stop_reason_named(name)->0);
        }
    }
}

/// The message ends for the last reason that the stream brought: where event `last` brings one and
/// no later event does, the end of the message names that one, and the end of the turn where it is
/// not known.
pub proof fn law_last_reason_is_told(state: MapperView, events: Seq<Event>, last: int)
    requires
        0 <= last < events.len(),
        reason_in(events[last]) is Some,
        forall|i: int| last < i < events.len() ==> reason_in(#[trigger] events[i]) is None,
    ensures
        ({
            let told = after_events(state, events).stop_reason;
            let name = reason_in(events[last])->0;
            reason_has_name(told, name) || (told == StopReason::EndTurn && forall|
                reason: StopReason,
            |
                !#[trigger] reason_has_name(reason, name))
        }),
    decreases events.len(),
{
    let earlier = events.drop_last();
    law_state_after_event(after_events(state, earlier), events.last(), 0);
    if last < events.len() - 1 {
        assert forall|i: int| last < i < earlier.len() implies reason_in(#[trigger] earlier[i])
            is None by {
            assert(earlier[i] == events[i]);
        }
        assert(earlier[last] == events[last]);
        assert(reason_in(events[events.len() - 1]) is None);
        law_last_reason_is_told(state, earlier, last);
    }
}

/// The usage that the event reports, if it reports any.
pub open spec fn usage_in(event: Event) -> Option<Usage> {
    match event {
        Event::MessageStart { message } => Some(message.usage),
        Event::MessageDelta { usage, .. } => Some(usage),
        _ => None,
    }
}

/// The kinds of tokens that are counted.
pub ghost enum TokenKind {
    Input,
    Output,
    CacheCreation,
    CacheRead,
}

/// The count of tokens of this kind.
pub open spec fn count_of(usage: Usage, kind: TokenKind) -> Option<u64> {
    match kind {
        TokenKind::Input => usage.input_tokens,
        TokenKind::Output => usage.output_tokens,
        TokenKind::CacheCreation => usage.cache_creation_input_tokens,
        TokenKind::CacheRead => usage.cache_read_input_tokens,
    }
}

/// Whether the event reports a count of this kind.
pub open spec fn reports_count(event: Event, kind: TokenKind) -> bool {
    usage_in(event) is Some && count_of(usage_in(event)->0, kind) is Some
}

/// The count of each kind is the last that was reported: where event `last` reports one and no
/// later event does, it is that one, whatever was reported before; where none does, it stays.
pub proof fn law_last_count_holds(
    state: MapperView,
    events: Seq<Event>,
    kind: TokenKind,
    last: int,
)
    requires
        -1 <= last < events.len(),
        last >= 0 ==> reports_count(events[last], kind),
        forall|i: int| last < i < events.len() ==> !reports_count(#[trigger] events[i], kind),
    ensures
        count_of(after_events(state, events).usage, kind) == if last >= 0 {
            count_of(usage_in(events[last])->0, kind)
        } else {
            count_of(state.usage, kind)
        },
    decreases events.len(),
{
    if events.len() > 0 {
        let earlier = events.drop_last();
        let n = earlier.len() as int;
        assert(events[n] == events.last());
        if last < n {
            assert forall|i: int| last < i < earlier.len() implies !reports_count(
                #[trigger] earlier[i],
                kind,
            ) by {
                assert(earlier[i] == events[i]);
            }
            if last >= 0 {
                assert(earlier[last] == events[last]);
            }
            assert(!reports_count(events[n], kind));
            law_last_count_holds(state, earlier, kind, last);
        }
    }
}

proof fn lemma_out_concatenated<E>(
    first: Seq<Result<CompletionEventView, LanguageModelCompletionError<E>>>,
    second: Seq<Result<CompletionEventView, LanguageModelCompletionError<E>>>,
)
    ensures
        all_text_of(first + second) == all_text_of(first) + all_text_of(second),
        all_thinking_of(first + second) == all_thinking_of(first) + all_thinking_of(second),
    decreases second.len(),
{
    if second.len() == 0 {
        assert(first + second =~= first);
        assert(all_text_of(first) + all_text_of(second) =~= all_text_of(first));
        assert(all_thinking_of(first) + all_thinking_of(second) =~= all_thinking_of(first));
    } else {
        lemma_out_concatenated(first, second.drop_last());
        assert((first + second).drop_last() =~= first + second.drop_last());
        assert(all_text_of(first + second) =~= all_text_of(first) + all_text_of(second));
        assert(all_thinking_of(first + second) =~= all_thinking_of(first) + all_thinking_of(
            second,
        ));
    }
}

proof fn lemma_text_of_item<
    E,
    F: Fn(&str) -> String,
    P: Fn(&str) -> Result<serde_json::Value, String>,
>(
    state: MapperView,
    item: Result<Event, E>,
    fix_streamed_json: F,
    parse_tool_arguments: P,
    items: Seq<Result<CompletionEventView, LanguageModelCompletionError<E>>>,
)
    requires
        item_yields(state, item, fix_streamed_json, parse_tool_arguments, items),
    ensures
        all_text_of(items) == text_in(item),
        all_thinking_of(items) == thinking_in(item),
{
    reveal_with_fuel(all_text_of, 3);
    reveal_with_fuel(all_thinking_of, 3);
    if items.len() == 1 {
        assert(items.drop_last() =~= Seq::empty());
        assert(all_text_of(items) =~= text_of(items[0]));
        assert(all_thinking_of(items) =~= thinking_of(items[0]));
    } else if items.len() == 2 {
        assert(items.drop_last().drop_last() =~= Seq::empty());
        assert(all_text_of(items) =~= text_of(items[0]) + text_of(items[1]));
        assert(all_thinking_of(items) =~= thinking_of(items[0]) + thinking_of(items[1]));
    }
    assert(items.len() <= 2);
    assert(all_text_of(items) =~= text_in(item));
    assert(all_thinking_of(items) =~= thinking_in(item));
}

/// The answer comes through whole: the texts that come out of a stream, put together, are the
/// texts that came with it, put together, character by character; and so it is with the thinking.
pub proof fn law_answer_comes_through<
    E,
    F: Fn(&str) -> String,
    P: Fn(&str) -> Result<serde_json::Value, String>,
>(
    state: MapperView,
    stream: Seq<Result<Event, E>>,
    fix_streamed_json: F,
    parse_tool_arguments: P,
    items: Seq<Result<CompletionEventView, LanguageModelCompletionError<E>>>,
)
    requires
        stream_yields(state, stream, fix_streamed_json, parse_tool_arguments, items),
    ensures
        all_text_of(items) == all_text_in(stream),
        all_thinking_of(items) == all_thinking_in(stream),
{
    let parts = choose|parts: Seq<Seq<Result<CompletionEventView, LanguageModelCompletionError<E>>>>|
        #[trigger] parts_of_stream(state, stream, fix_streamed_json, parse_tool_arguments, parts)
            && items == joined(parts);
    lemma_parts_come_through(state, stream, fix_streamed_json, parse_tool_arguments, parts);
}

proof fn lemma_parts_come_through<
    E,
    F: Fn(&str) -> String,
    P: Fn(&str) -> Result<serde_json::Value, String>,
>(
    state: MapperView,
    stream: Seq<Result<Event, E>>,
    fix_streamed_json: F,
    parse_tool_arguments: P,
    parts: Seq<Seq<Result<CompletionEventView, LanguageModelCompletionError<E>>>>,
)
    requires
        parts_of_stream(state, stream, fix_streamed_json, parse_tool_arguments, parts),
    ensures
        all_text_of(joined(parts)) == all_text_in(stream),
        all_thinking_of(joined(parts)) == all_thinking_in(stream),
    decreases stream.len(),
{
    if stream.len() > 0 {
        let earlier = stream.drop_last();
        let n = earlier.len() as int;
        let shorter = parts.drop_last();
        assert forall|i: int| 0 <= i < earlier.len() implies item_yields(
            after_items(state, earlier.take(i)),
            earlier[i],
            fix_streamed_json,
            parse_tool_arguments,
            #[trigger] shorter[i],
        ) by {
            assert(shorter[i] == parts[i]);
            assert(earlier.take(i) =~= stream.take(i));
        }
        lemma_parts_come_through(
            state,
            earlier,
            fix_streamed_json,
            parse_tool_arguments,
            shorter,
        );
        assert(parts[n] == parts.last());
        lemma_text_of_item(
            after_items(state, stream.take(n)),
            stream[n],
            fix_streamed_json,
            parse_tool_arguments,
            parts[n],
        );
        lemma_out_concatenated(joined(shorter), parts.last());
    }
}

} // verus!
