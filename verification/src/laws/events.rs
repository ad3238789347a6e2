//! Laws of the events of a completion.

use vstd::prelude::*;

use crate::anthropic::{ContentDelta, Event, ResponseContent, Usage};
use crate::event_mapper::LanguageModelCompletionError;
use crate::language_model::StopReason;

verus! {

use crate::anthropic::no_usage;
use crate::event_mapper::{
    after_event,
    after_item,
    after_items,
    emitted,
    item_yields,
    joined,
    parts_of_stream,
    step_of,
    stop_reason_named,
    stream_failure,
    stream_yields,
    updated_usage,
    MapperView,
    MapStepView,
    RawToolUseView,
};
use crate::language_model::CompletionEventView;

/// The state after a sequence of events.
pub open spec fn after_events(state: MapperView, events: Seq<Event>) -> MapperView
    decreases events.len(),
{
    if events.len() == 0 {
        state
    } else {
        after_event(after_events(state, events.drop_last()), events.last())
    }
}

/// Whether the event begins or ends the tool call in block `index`.
pub open spec fn begins_or_ends(event: Event, index: usize) -> bool {
    match event {
        Event::ContentBlockStart { index: at, content_block } => at == index
            && content_block is ToolUse,
        Event::ContentBlockStop { index: at } => at == index,
        _ => false,
    }
}

/// Whether the event begins a tool call with this id and name in block `index`.
pub open spec fn begins_call(event: Event, index: usize, id: Seq<char>, name: Seq<char>) -> bool {
    match event {
        Event::ContentBlockStart {
            index: at,
            content_block: ResponseContent::ToolUse { id: call_id, name: call_name, .. },
        } => at == index && call_id@ == id && call_name@ == name,
        _ => false,
    }
}

/// Whether the event brings a piece of the arguments of the tool call in block `index`, or ends
/// it.
pub open spec fn continues_or_ends(event: Event, index: usize) -> bool {
    match event {
        Event::ContentBlockDelta { index: at, delta } => at == index && delta is InputJsonDelta,
        Event::ContentBlockStop { index: at } => at == index,
        _ => false,
    }
}

/// The piece of the arguments of the tool call in block `index` that the event brings.
pub open spec fn piece(event: Event, index: usize) -> Seq<char> {
    match event {
        Event::ContentBlockDelta { index: at, delta: ContentDelta::InputJsonDelta { partial_json } }
            if at == index => partial_json@,
        _ => Seq::empty(),
    }
}

/// The pieces of the arguments of the tool call in block `index`, put together.
pub open spec fn pieces(events: Seq<Event>, index: usize) -> Seq<char>
    decreases events.len(),
{
    if events.len() == 0 {
        Seq::empty()
    } else {
        pieces(events.drop_last(), index) + piece(events.last(), index)
    }
}

/// A tool call that has begun gathers its arguments piece by piece, in order and with nothing from
/// other blocks, until it ends.
pub proof fn law_arguments_are_gathered(state: MapperView, events: Seq<Event>, index: usize)
    requires
        state.tool_uses.contains_key(index),
        forall|i: int| 0 <= i < events.len() ==> !begins_or_ends(#[trigger] events[i], index),
    ensures
        after_events(state, events).tool_uses.contains_key(index),
        after_events(state, events).tool_uses[index] == (RawToolUseView {
            id: state.tool_uses[index].id,
            name: state.tool_uses[index].name,
            input_json: state.tool_uses[index].input_json + pieces(events, index),
        }),
    decreases events.len(),
{
    if events.len() > 0 {
        assert forall|i: int| 0 <= i < events.drop_last().len() implies !begins_or_ends(
            #[trigger] events.drop_last()[i],
            index,
        ) by {
            assert(events[i] == events.drop_last()[i]);
        }
        law_arguments_are_gathered(state, events.drop_last(), index);
        assert(!begins_or_ends(events[events.len() - 1], index));
        let before = after_events(state, events.drop_last()).tool_uses[index].input_json;
        assert(before + piece(events.last(), index) =~= state.tool_uses[index].input_json + pieces(
            events,
            index,
        ));
        assert(before + Seq::<char>::empty() =~= before);
    } else {
        let input = state.tool_uses[index].input_json;
        assert(input + pieces(events, index) =~= input);
    }
}

/// A tool call comes out whole: from its beginning to its end, whatever comes between in other
/// blocks, it ends with its id, its name and the pieces of its arguments put together. After that
/// the call is forgotten.
pub proof fn law_tool_call_comes_out_whole(
    state: MapperView,
    start: Event,
    between: Seq<Event>,
    stop: Event,
    index: usize,
    id: Seq<char>,
    name: Seq<char>,
)
    requires
        begins_call(start, index, id, name),
        forall|i: int| 0 <= i < between.len() ==> !begins_or_ends(#[trigger] between[i], index),
        stop == (Event::ContentBlockStop { index }),
    ensures
        step_of(after_events(after_event(state, start), between), stop) == MapStepView::Complete(
            RawToolUseView { id, name, input_json: pieces(between, index) },
        ),
        !after_event(
            after_events(after_event(state, start), between),
            stop,
        ).tool_uses.contains_key(index),
{
    let begun = after_event(state, start);
    law_arguments_are_gathered(begun, between, index);
    assert(Seq::<char>::empty() + pieces(between, index) =~= pieces(between, index));
}

/// While a tool call is running, each piece of its arguments shows the call with all the pieces
/// that have arrived so far.
pub proof fn law_partial_call_shows_what_has_arrived(
    state: MapperView,
    start: Event,
    between: Seq<Event>,
    delta: Event,
    index: usize,
    id: Seq<char>,
    name: Seq<char>,
)
    requires
        begins_call(start, index, id, name),
        forall|i: int| 0 <= i < between.len() ==> !begins_or_ends(#[trigger] between[i], index),
        delta is ContentBlockDelta,
        continues_or_ends(delta, index),
    ensures
        step_of(after_events(after_event(state, start), between), delta) == MapStepView::Partial(
            RawToolUseView { id, name, input_json: pieces(between.push(delta), index) },
        ),
{
    law_arguments_are_gathered(after_event(state, start), between, index);
    assert(between.push(delta).drop_last() =~= between);
    assert(Seq::<char>::empty() + pieces(between, index) =~= pieces(between, index));
}

/// A piece of arguments, or an end, that belongs to no tool call that has begun says nothing and
/// changes nothing.
pub proof fn law_unknown_tool_call_is_ignored(state: MapperView, event: Event, index: usize)
    requires
        !state.tool_uses.contains_key(index),
        continues_or_ends(event, index),
    ensures
        after_event(state, event) == state,
        step_of(state, event) == MapStepView::Emit(Seq::empty()),
{
    assert(state.tool_uses.remove(index) =~= state.tool_uses);
}

/// Events that bring content, an error or nothing leave the token counts and the stop reason as
/// they were.
pub proof fn law_content_keeps_counts(state: MapperView, event: Event)
    requires
        !(event is MessageStart) && !(event is MessageDelta),
    ensures
        after_event(state, event).usage == state.usage,
        after_event(state, event).stop_reason == state.stop_reason,
{
}

/// An update with nothing reported changes nothing, the same update twice is the same as once, and
/// updates can be put together before they are made.
pub proof fn law_usage_updates(usage: Usage, new: Usage, newer: Usage)
    ensures
        updated_usage(usage, no_usage()) == usage,
        updated_usage(no_usage(), new) == new,
        updated_usage(updated_usage(usage, new), new) == updated_usage(usage, new),
        updated_usage(updated_usage(usage, new), newer) == updated_usage(
            usage,
            updated_usage(new, newer),
        ),
{
}

/// The counts that the event reports.
pub open spec fn reported_usage(event: Event) -> Usage {
    match event {
        Event::MessageStart { message } => message.usage,
        Event::MessageDelta { usage, .. } => usage,
        _ => no_usage(),
    }
}

/// All that the events report, the later counts in place of the earlier.
pub open spec fn all_reported_usage(events: Seq<Event>) -> Usage
    decreases events.len(),
{
    if events.len() == 0 {
        no_usage()
    } else {
        updated_usage(all_reported_usage(events.drop_last()), reported_usage(events.last()))
    }
}

/// The token counts are, each for itself, the last that were reported.
pub proof fn law_usage_is_the_last_reported(state: MapperView, events: Seq<Event>)
    ensures
        after_events(state, events).usage == updated_usage(
            state.usage,
            all_reported_usage(events),
        ),
    decreases events.len(),
{
    if events.len() > 0 {
        law_usage_is_the_last_reported(state, events.drop_last());
    }
}

/// The stop reason that the event brings. One that is not known counts as the end of the turn.
pub open spec fn brought_stop_reason(event: Event) -> Option<StopReason> {
    match event {
        Event::MessageDelta { delta, .. } => match delta.stop_reason {
            Some(name) => match stop_reason_named(name@) {
                Some(reason) => Some(reason),
                None => Some(StopReason::EndTurn),
            },
            None => None,
        },
        _ => None,
    }
}

/// The last stop reason that the events bring, or `reason` where they bring none.
pub open spec fn last_stop_reason(reason: StopReason, events: Seq<Event>) -> StopReason
    decreases events.len(),
{
    if events.len() == 0 {
        reason
    } else {
        match brought_stop_reason(events.last()) {
            Some(brought) => brought,
            None => last_stop_reason(reason, events.drop_last()),
        }
    }
}

proof fn lemma_last_stop_reason(state: MapperView, events: Seq<Event>)
    ensures
        after_events(state, events).stop_reason == last_stop_reason(state.stop_reason, events),
    decreases events.len(),
{
    if events.len() > 0 {
        lemma_last_stop_reason(state, events.drop_last());
    }
}

/// The end of a message reports the last stop reason that was brought, and where none was, that of
/// the state before, which is the end of the turn for a new mapper.
pub proof fn law_stop_reports_last_reason(state: MapperView, events: Seq<Event>)
    ensures
        step_of(after_events(state, events), Event::MessageStop) == emitted(
            CompletionEventView::Stop(last_stop_reason(state.stop_reason, events)),
        ),
{
    lemma_last_stop_reason(state, events);
}

/// The events that a stream yields, without its failures.
pub open spec fn received<E>(stream: Seq<Result<Event, E>>) -> Seq<Event>
    decreases stream.len(),
{
    if stream.len() == 0 {
        Seq::empty()
    } else {
        match stream.last() {
            Ok(event) => received(stream.drop_last()).push(event),
            Err(_) => received(stream.drop_last()),
        }
    }
}

/// Failures of the stream leave no trace in the state: it is the one after the events alone.
pub proof fn law_failures_leave_no_trace<E>(state: MapperView, stream: Seq<Result<Event, E>>)
    ensures
        after_items(state, stream) == after_events(state, received(stream)),
    decreases stream.len(),
{
    if stream.len() > 0 {
        law_failures_leave_no_trace(state, stream.drop_last());
        if let Ok(event) = stream.last() {
            let shorter = received(stream.drop_last());
            assert(shorter.push(event).drop_last() =~= shorter);
        }
    }
}

/// What comes of a stream that yields a single thing is what comes of that thing.
pub proof fn law_stream_of_one<
    E,
    F: Fn(&str) -> String,
    P: Fn(&str) -> Result<serde_json::Value, String>,
>(
    state: MapperView,
    item: Result<Event, E>,
    fix_streamed_json: F,
    parse_tool_arguments: P,
    items: Seq<Result<CompletionEventView, LanguageModelCompletionError<E>>>,
)
    ensures
        after_items(state, seq![item]) == after_item(state, item),
        stream_yields(state, seq![item], fix_streamed_json, parse_tool_arguments, items)
            <==> item_yields(state, item, fix_streamed_json, parse_tool_arguments, items),
{
    let stream = seq![item];
    assert(stream.drop_last() =~= Seq::empty());
    assert(stream.take(0) =~= Seq::empty());
    assert(after_items(state, stream.take(0)) == state);
    reveal_with_fuel(joined, 2);
    if item_yields(state, item, fix_streamed_json, parse_tool_arguments, items) {
        let parts = seq![items];
        assert(parts_of_stream(state, stream, fix_streamed_json, parse_tool_arguments, parts));
        assert(parts.drop_last() =~= Seq::empty());
        assert(joined(parts) =~= items);
    }
    if stream_yields(state, stream, fix_streamed_json, parse_tool_arguments, items) {
        let parts = choose|parts: Seq<Seq<Result<CompletionEventView, LanguageModelCompletionError<E>>>>|
            #[trigger] parts_of_stream(
                state,
                stream,
                fix_streamed_json,
                parse_tool_arguments,
                parts,
            ) && items == joined(parts);
        assert(parts.drop_last() =~= Seq::empty());
        assert(joined(parts) =~= parts[0]);
    }
}

proof fn lemma_joined_concatenated<T>(first: Seq<Seq<T>>, second: Seq<Seq<T>>)
    ensures
        joined(first + second) == joined(first) + joined(second),
    decreases second.len(),
{
    if second.len() == 0 {
        assert(first + second =~= first);
        assert(joined(first) + joined(second) =~= joined(first));
    } else {
        lemma_joined_concatenated(first, second.drop_last());
        assert((first + second).drop_last() =~= first + second.drop_last());
        assert(joined(first + second) =~= joined(first) + joined(second));
    }
}

/// The state after one stream and then another is the one after the second, from where the first
/// has left it.
pub proof fn law_state_is_carried_on<E>(
    state: MapperView,
    first: Seq<Result<Event, E>>,
    second: Seq<Result<Event, E>>,
)
    ensures
        after_items(state, first + second) == after_items(after_items(state, first), second),
    decreases second.len(),
{
    if second.len() == 0 {
        assert(first + second =~= first);
    } else {
        law_state_is_carried_on(state, first, second.drop_last());
        assert((first + second).drop_last() =~= first + second.drop_last());
    }
}

/// What comes of a stream that goes on as another is what comes of the first and then what comes
/// of the second, with the mapper carried through; it is nothing else.
pub proof fn law_streams_concatenate<
    E,
    F: Fn(&str) -> String,
    P: Fn(&str) -> Result<serde_json::Value, String>,
>(
    state: MapperView,
    first: Seq<Result<Event, E>>,
    second: Seq<Result<Event, E>>,
    fix_streamed_json: F,
    parse_tool_arguments: P,
    items: Seq<Result<CompletionEventView, LanguageModelCompletionError<E>>>,
)
    ensures
        stream_yields(state, first + second, fix_streamed_json, parse_tool_arguments, items)
            <==> exists|
            of_first: Seq<Result<CompletionEventView, LanguageModelCompletionError<E>>>,
            of_second: Seq<Result<CompletionEventView, LanguageModelCompletionError<E>>>,
        |
            {
                &&& #[trigger] stream_yields(
                    state,
                    first,
                    fix_streamed_json,
                    parse_tool_arguments,
                    of_first,
                )
                &&& #[trigger] stream_yields(
                    after_items(state, first),
                    second,
                    fix_streamed_json,
                    parse_tool_arguments,
                    of_second,
                )
                &&& items == of_first + of_second
            },
{
    if stream_yields(state, first + second, fix_streamed_json, parse_tool_arguments, items) {
        let parts = choose|parts: Seq<Seq<Result<CompletionEventView, LanguageModelCompletionError<E>>>>|
            #[trigger] parts_of_stream(
                state,
                first + second,
                fix_streamed_json,
                parse_tool_arguments,
                parts,
            ) && items == joined(parts);
        lemma_parts_come_apart(
            state,
            first,
            second,
            fix_streamed_json,
            parse_tool_arguments,
            parts,
        );
        let left = parts.take(first.len() as int);
        let right = parts.skip(first.len() as int);
        assert(left + right =~= parts);
        lemma_joined_concatenated(left, right);
        assert(stream_yields(
            state,
            first,
            fix_streamed_json,
            parse_tool_arguments,
            joined(left),
        ));
        assert(stream_yields(
            after_items(state, first),
            second,
            fix_streamed_json,
            parse_tool_arguments,
            joined(right),
        ));
    }
    assert forall|
        of_first: Seq<Result<CompletionEventView, LanguageModelCompletionError<E>>>,
        of_second: Seq<Result<CompletionEventView, LanguageModelCompletionError<E>>>,
    |
        {
            &&& #[trigger] stream_yields(
                state,
                first,
                fix_streamed_json,
                parse_tool_arguments,
                of_first,
            )
            &&& #[trigger] stream_yields(
                after_items(state, first),
                second,
                fix_streamed_json,
                parse_tool_arguments,
                of_second,
            )
            &&& items == of_first + of_second
        } implies stream_yields(
        state,
        first + second,
        fix_streamed_json,
        parse_tool_arguments,
        items,
    ) by {
        lemma_yields_join(
            state,
            first,
            second,
            fix_streamed_json,
            parse_tool_arguments,
            of_first,
            of_second,
        );
    }
}

proof fn lemma_parts_come_apart<
    E,
    F: Fn(&str) -> String,
    P: Fn(&str) -> Result<serde_json::Value, String>,
>(
    state: MapperView,
    first: Seq<Result<Event, E>>,
    second: Seq<Result<Event, E>>,
    fix_streamed_json: F,
    parse_tool_arguments: P,
    parts: Seq<Seq<Result<CompletionEventView, LanguageModelCompletionError<E>>>>,
)
    requires
        parts_of_stream(state, first + second, fix_streamed_json, parse_tool_arguments, parts),
    ensures
        parts_of_stream(
            state,
            first,
            fix_streamed_json,
            parse_tool_arguments,
            parts.take(first.len() as int),
        ),
        parts_of_stream(
            after_items(state, first),
            second,
            fix_streamed_json,
            parse_tool_arguments,
            parts.skip(first.len() as int),
        ),
{
    let n = first.len() as int;
    let stream = first + second;
    assert forall|i: int| 0 <= i < first.len() implies item_yields(
        after_items(state, first.take(i)),
        first[i],
        fix_streamed_json,
        parse_tool_arguments,
        #[trigger] parts.take(n)[i],
    ) by {
        assert(parts.take(n)[i] == parts[i]);
        assert(stream.take(i) =~= first.take(i));
    }
    assert forall|i: int| 0 <= i < second.len() implies item_yields(
        after_items(after_items(state, first), second.take(i)),
        second[i],
        fix_streamed_json,
        parse_tool_arguments,
        #[trigger] parts.skip(n)[i],
    ) by {
        assert(parts.skip(n)[i] == parts[n + i]);
        assert(stream.take(n + i) =~= first + second.take(i));
        law_state_is_carried_on(state, first, second.take(i));
    }
}

proof fn lemma_yields_join<
    E,
    F: Fn(&str) -> String,
    P: Fn(&str) -> Result<serde_json::Value, String>,
>(
    state: MapperView,
    first: Seq<Result<Event, E>>,
    second: Seq<Result<Event, E>>,
    fix_streamed_json: F,
    parse_tool_arguments: P,
    of_first: Seq<Result<CompletionEventView, LanguageModelCompletionError<E>>>,
    of_second: Seq<Result<CompletionEventView, LanguageModelCompletionError<E>>>,
)
    requires
        stream_yields(state, first, fix_streamed_json, parse_tool_arguments, of_first),
        stream_yields(
            after_items(state, first),
            second,
            fix_streamed_json,
            parse_tool_arguments,
            of_second,
        ),
    ensures
        stream_yields(
            state,
            first + second,
            fix_streamed_json,
            parse_tool_arguments,
            of_first + of_second,
        ),
{
    let left = choose|parts: Seq<Seq<Result<CompletionEventView, LanguageModelCompletionError<E>>>>|
        #[trigger] parts_of_stream(
            state,
            first,
            fix_streamed_json,
            parse_tool_arguments,
            parts,
        ) && of_first == joined(parts);
    let right = choose|parts: Seq<Seq<Result<CompletionEventView, LanguageModelCompletionError<E>>>>|
        #[trigger] parts_of_stream(
            after_items(state, first),
            second,
            fix_streamed_json,
            parse_tool_arguments,
            parts,
        ) && of_second == joined(parts);
    let n = first.len() as int;
    let stream = first + second;
    let parts = left + right;
    lemma_joined_concatenated(left, right);
    assert forall|i: int| 0 <= i < stream.len() implies item_yields(
        after_items(state, stream.take(i)),
        stream[i],
        fix_streamed_json,
        parse_tool_arguments,
        #[trigger] parts[i],
    ) by {
        if i < n {
            assert(parts[i] == left[i]);
            assert(stream.take(i) =~= first.take(i));
        } else {
            assert(parts[i] == right[i - n]);
            assert(stream.take(i) =~= first + second.take(i - n));
            law_state_is_carried_on(state, first, second.take(i - n));
        }
    }
    assert(parts_of_stream(state, stream, fix_streamed_json, parse_tool_arguments, parts));
}

/// A failure of the stream stands alone. What comes of a stream with a failure between `before`
/// and `after` is what comes of the same stream without it, and the failure itself, once, after
/// all that comes of `before`; the state is left the same.
pub proof fn law_failure_stands_alone<
    E,
    F: Fn(&str) -> String,
    P: Fn(&str) -> Result<serde_json::Value, String>,
>(
    state: MapperView,
    before: Seq<Result<Event, E>>,
    error: E,
    after: Seq<Result<Event, E>>,
    fix_streamed_json: F,
    parse_tool_arguments: P,
    items: Seq<Result<CompletionEventView, LanguageModelCompletionError<E>>>,
)
    ensures
        after_items(state, before.push(Err(error)) + after) == after_items(state, before + after),
        stream_yields(
            state,
            before.push(Err(error)) + after,
            fix_streamed_json,
            parse_tool_arguments,
            items,
        ) <==> exists|
            of_before: Seq<Result<CompletionEventView, LanguageModelCompletionError<E>>>,
            of_after: Seq<Result<CompletionEventView, LanguageModelCompletionError<E>>>,
        |
            {
                &&& #[trigger] stream_yields(
                    state,
                    before,
                    fix_streamed_json,
                    parse_tool_arguments,
                    of_before,
                )
                &&& #[trigger] stream_yields(
                    after_items(state, before),
                    after,
                    fix_streamed_json,
                    parse_tool_arguments,
                    of_after,
                )
                &&& stream_yields(
                    state,
                    before + after,
                    fix_streamed_json,
                    parse_tool_arguments,
                    of_before + of_after,
                )
                &&& items == of_before + stream_failure(error) + of_after
            },
{
    let failure = seq![Err::<Event, E>(error)];
    let failed = before.push(Err(error));
    assert(failed =~= before + failure);
    law_state_is_carried_on(state, before, failure);
    law_state_is_carried_on(state, failed, after);
    law_state_is_carried_on(state, before, after);
    let midway = after_items(state, before);
    law_stream_of_one(
        midway,
        Err::<Event, E>(error),
        fix_streamed_json,
        parse_tool_arguments,
        stream_failure(error),
    );
    assert(after_items(state, failed) == midway);
    if stream_yields(state, failed + after, fix_streamed_json, parse_tool_arguments, items) {
        law_streams_concatenate(
            state,
            failed,
            after,
            fix_streamed_json,
            parse_tool_arguments,
            items,
        );
        let (of_failed, of_after) = choose|
            of_failed: Seq<Result<CompletionEventView, LanguageModelCompletionError<E>>>,
            of_after: Seq<Result<CompletionEventView, LanguageModelCompletionError<E>>>,
        |
            {
                &&& #[trigger] stream_yields(
                    state,
                    failed,
                    fix_streamed_json,
                    parse_tool_arguments,
                    of_failed,
                )
                &&& #[trigger] stream_yields(
                    midway,
                    after,
                    fix_streamed_json,
                    parse_tool_arguments,
                    of_after,
                )
                &&& items == of_failed + of_after
            };
        law_streams_concatenate(
            state,
            before,
            failure,
            fix_streamed_json,
            parse_tool_arguments,
            of_failed,
        );
        let (of_before, of_failure) = choose|
            of_before: Seq<Result<CompletionEventView, LanguageModelCompletionError<E>>>,
            of_failure: Seq<Result<CompletionEventView, LanguageModelCompletionError<E>>>,
        |
            {
                &&& #[trigger] stream_yields(
                    state,
                    before,
                    fix_streamed_json,
                    parse_tool_arguments,
                    of_before,
                )
                &&& #[trigger] stream_yields(
                    midway,
                    failure,
                    fix_streamed_json,
                    parse_tool_arguments,
                    of_failure,
                )
                &&& of_failed == of_before + of_failure
            };
        law_stream_of_one(
            midway,
            Err::<Event, E>(error),
            fix_streamed_json,
            parse_tool_arguments,
            of_failure,
        );
        lemma_yields_join(
            state,
            before,
            after,
            fix_streamed_json,
            parse_tool_arguments,
            of_before,
            of_after,
        );
    }
    assert forall|
        of_before: Seq<Result<CompletionEventView, LanguageModelCompletionError<E>>>,
        of_after: Seq<Result<CompletionEventView, LanguageModelCompletionError<E>>>,
    |
        {
            &&& #[trigger] stream_yields(
                state,
                before,
                fix_streamed_json,
                parse_tool_arguments,
                of_before,
            )
            &&& #[trigger] stream_yields(
                midway,
                after,
                fix_streamed_json,
                parse_tool_arguments,
                of_after,
            )
            &&& items == of_before + stream_failure(error) + of_after
        } implies stream_yields(
        state,
        failed + after,
        fix_streamed_json,
        parse_tool_arguments,
        items,
    ) by {
        lemma_yields_join(
            state,
            before,
            failure,
            fix_streamed_json,
            parse_tool_arguments,
            of_before,
            stream_failure(error),
        );
        lemma_yields_join(
            state,
            failed,
            after,
            fix_streamed_json,
            parse_tool_arguments,
            of_before + stream_failure(error),
            of_after,
        );
    }
}

} // verus!
