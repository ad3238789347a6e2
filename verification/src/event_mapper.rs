//! From the events of a streamed response to the events of a completion.
//!
//! A tool call arrives in pieces: its beginning, then its arguments as pieces of JSON text, then
//! its end. [`AnthropicEventMapper`] holds what has arrived so far.

use vstd::prelude::*;

use std::collections::HashMap;

use crate::anthropic::{ApiError, ContentDelta, Event, ResponseContent, Usage};
use crate::json::read_document;
use crate::language_model::{
    LanguageModelCompletionEvent,
    LanguageModelToolUse,
    StopReason,
    TokenUsage,
};
use crate::text::{same_text, trim};

verus! {

use crate::anthropic::no_usage;
use crate::json::document_in;
use crate::language_model::{CompletionEventView, ToolUseView};
use crate::text::trimmed;

/// A tool call of which the arguments are still arriving.
#[derive(Debug)]
pub struct RawToolUse {
    pub id: String,
    pub name: String,
    pub input_json: String,
}

/// What a [`RawToolUse`] says.
#[verifier::ext_equal]
pub ghost struct RawToolUseView {
    pub id: Seq<char>,
    pub name: Seq<char>,
    pub input_json: Seq<char>,
}

impl View for RawToolUse {
    type V = RawToolUseView;

    open spec fn view(&self) -> RawToolUseView {
        RawToolUseView { id: self.id@, name: self.name@, input_json: self.input_json@ }
    }
}

/// What has arrived so far of a streamed response.
#[derive(Debug)]
pub struct AnthropicEventMapper {
    tool_uses_by_index: HashMap<usize, RawToolUse>,
    usage: Usage,
    stop_reason: StopReason,
}

/// The state of an [`AnthropicEventMapper`]: the tool calls that have begun and not ended, by the
/// index of their block, the token counts that were last reported, and why the message ended.
#[verifier::ext_equal]
pub ghost struct MapperView {
    pub tool_uses: Map<usize, RawToolUseView>,
    pub usage: Usage,
    pub stop_reason: StopReason,
}

impl View for AnthropicEventMapper {
    type V = MapperView;

    closed spec fn view(&self) -> MapperView {
        MapperView {
            tool_uses: self.tool_uses_by_index@.map_values(|tool_use: RawToolUse| tool_use@),
            usage: self.usage,
            stop_reason: self.stop_reason,
        }
    }
}

/// The count that was reported last.
pub open spec fn latest(count: Option<u64>, new: Option<u64>) -> Option<u64> {
    match new {
        Some(new) => Some(new),
        None => count,
    }
}

/// The usage with the counts of `new` wherever it has them.
pub open spec fn updated_usage(usage: Usage, new: Usage) -> Usage {
    Usage {
        input_tokens: latest(usage.input_tokens, new.input_tokens),
        output_tokens: latest(usage.output_tokens, new.output_tokens),
        cache_creation_input_tokens: latest(
            usage.cache_creation_input_tokens,
            new.cache_creation_input_tokens,
        ),
        cache_read_input_tokens: latest(usage.cache_read_input_tokens, new.cache_read_input_tokens),
    }
}

/// A count that was not reported is zero.
pub open spec fn count_or_zero(count: Option<u64>) -> u64 {
    match count {
        Some(count) => count,
        None => 0,
    }
}

/// The usage as a completion reports it.
pub open spec fn token_usage(usage: Usage) -> TokenUsage {
    TokenUsage {
        input_tokens: count_or_zero(usage.input_tokens),
        output_tokens: count_or_zero(usage.output_tokens),
        cache_creation_input_tokens: count_or_zero(usage.cache_creation_input_tokens),
        cache_read_input_tokens: count_or_zero(usage.cache_read_input_tokens),
    }
}

/// The stop reason of that name.
pub open spec fn stop_reason_named(name: Seq<char>) -> Option<StopReason> {
    if name == "end_turn"@ {
        Some(StopReason::EndTurn)
    } else if name == "max_tokens"@ {
        Some(StopReason::MaxTokens)
    } else if name == "tool_use"@ {
        Some(StopReason::ToolUse)
    } else if name == "refusal"@ {
        Some(StopReason::Refusal)
    } else {
        None
    }
}

/// Updates usage data by preferring counts from `new`.
pub fn update_usage(usage: &mut Usage, new: &Usage)
    ensures
        *final(usage) == updated_usage(*old(usage), *new),
{
    if let Some(input_tokens) = new.input_tokens {
        usage.input_tokens = Some(input_tokens);
    }
    if let Some(output_tokens) = new.output_tokens {
        usage.output_tokens = Some(output_tokens);
    }
    if let Some(cache_creation_input_tokens) = new.cache_creation_input_tokens {
        usage.cache_creation_input_tokens = Some(cache_creation_input_tokens);
    }
    if let Some(cache_read_input_tokens) = new.cache_read_input_tokens {
        usage.cache_read_input_tokens = Some(cache_read_input_tokens);
    }
}

fn or_zero(count: Option<u64>) -> (number: u64)
    ensures
        number == count_or_zero(count),
{
    match count {
        Some(count) => count,
        None => 0,
    }
}

/// The usage as a completion reports it: a count that was not reported is zero.
pub fn convert_usage(usage: &Usage) -> (converted: TokenUsage)
    ensures
        converted == token_usage(*usage),
{
    TokenUsage {
        input_tokens: or_zero(usage.input_tokens),
        output_tokens: or_zero(usage.output_tokens),
        cache_creation_input_tokens: or_zero(usage.cache_creation_input_tokens),
        cache_read_input_tokens: or_zero(usage.cache_read_input_tokens),
    }
}

/// The stop reason of that name, if it is known.
pub fn find_stop_reason(name: &str) -> (found: Option<StopReason>)
    ensures
        found == stop_reason_named(name@),
{
    if same_text(name, "end_turn") {
        Some(StopReason::EndTurn)
    } else if same_text(name, "max_tokens") {
        Some(StopReason::MaxTokens)
    } else if same_text(name, "tool_use") {
        Some(StopReason::ToolUse)
    } else if same_text(name, "refusal") {
        Some(StopReason::Refusal)
    } else {
        None
    }
}

impl AnthropicEventMapper {
    /// A mapper for a new response.
    pub fn new() -> (mapper: Self)
        ensures
            mapper@ == (MapperView {
                tool_uses: Map::empty(),
                usage: no_usage(),
                stop_reason: StopReason::EndTurn,
            }),
    {
        let mapper = Self {
            tool_uses_by_index: HashMap::new(),
            usage: Usage::default(),
            stop_reason: StopReason::EndTurn,
        };
        assert(mapper@.tool_uses =~= Map::empty());
        mapper
    }
}

/// One event of a completion, or an error that the API reported.
pub type MappedEvent = Result<LanguageModelCompletionEvent, ApiError>;

/// What a sequence of mapped events says.
pub open spec fn mapped_view(mapped: Seq<MappedEvent>) -> Seq<Result<CompletionEventView, ApiError>> {
    mapped.map_values(|event: MappedEvent| match event {
        Ok(event) => Ok(event@),
        Err(error) => Err(error),
    })
}

/// What comes of an event.
#[derive(Debug)]
pub enum MapStep {
    /// These events.
    Emit(Vec<MappedEvent>),
    /// What [`partial_tool_use`] makes of the arguments that have arrived so far.
    Partial(RawToolUse),
    /// What [`complete_tool_use`] makes of the arguments, which are now complete.
    Complete(RawToolUse),
}

/// What a [`MapStep`] says.
#[verifier::ext_equal]
pub ghost enum MapStepView {
    Emit(Seq<Result<CompletionEventView, ApiError>>),
    Partial(RawToolUseView),
    Complete(RawToolUseView),
}

impl View for MapStep {
    type V = MapStepView;

    open spec fn view(&self) -> MapStepView {
        match self {
            MapStep::Emit(events) => MapStepView::Emit(mapped_view(events@)),
            MapStep::Partial(tool_use) => MapStepView::Partial(tool_use@),
            MapStep::Complete(tool_use) => MapStepView::Complete(tool_use@),
        }
    }
}

/// The state after an event.
pub open spec fn after_event(state: MapperView, event: Event) -> MapperView {
    match event {
        Event::ContentBlockStart {
            index,
            content_block: ResponseContent::ToolUse { id, name, .. },
        } => MapperView {
            tool_uses: state.tool_uses.insert(
                index,
                RawToolUseView { id: id@, name: name@, input_json: Seq::empty() },
            ),
            ..state
        },
        Event::ContentBlockDelta { index, delta: ContentDelta::InputJsonDelta { partial_json } } =>
            if state.tool_uses.contains_key(index) {
            MapperView {
                tool_uses: state.tool_uses.insert(
                    index,
                    extended(state.tool_uses[index], partial_json@),
                ),
                ..state
            }
        } else {
            state
        },
        Event::ContentBlockStop { index } => MapperView {
            tool_uses: state.tool_uses.remove(index),
            ..state
        },
        Event::MessageStart { message } => MapperView {
            usage: updated_usage(state.usage, message.usage),
            ..state
        },
        Event::MessageDelta { delta, usage } => MapperView {
            usage: updated_usage(state.usage, usage),
            stop_reason: match delta.stop_reason {
                Some(name) => match stop_reason_named(name@) {
                    Some(reason) => reason,
                    None => StopReason::EndTurn,
                },
                None => state.stop_reason,
            },
            ..state
        },
        _ => state,
    }
}

/// The tool call with one more piece of its arguments.
pub open spec fn extended(tool_use: RawToolUseView, partial_json: Seq<char>) -> RawToolUseView {
    RawToolUseView { input_json: tool_use.input_json + partial_json, ..tool_use }
}

/// What comes of an event.
pub open spec fn step_of(state: MapperView, event: Event) -> MapStepView {
    match event {
        Event::ContentBlockStart { content_block, .. } => match content_block {
            ResponseContent::Text { text } => emitted(CompletionEventView::Text(text@)),
            ResponseContent::Thinking { thinking } => emitted(
                CompletionEventView::Thinking { text: thinking@, signature: None },
            ),
            ResponseContent::RedactedThinking { data } => emitted(
                CompletionEventView::RedactedThinking { data: data@ },
            ),
            ResponseContent::ToolUse { .. } => MapStepView::Emit(Seq::empty()),
        },
        Event::ContentBlockDelta { index, delta } => match delta {
            ContentDelta::TextDelta { text } => emitted(CompletionEventView::Text(text@)),
            ContentDelta::ThinkingDelta { thinking } => emitted(
                CompletionEventView::Thinking { text: thinking@, signature: None },
            ),
            ContentDelta::SignatureDelta { signature } => emitted(
                CompletionEventView::Thinking { text: Seq::empty(), signature: Some(signature@) },
            ),
            ContentDelta::InputJsonDelta { partial_json } => if state.tool_uses.contains_key(
                index,
            ) {
                MapStepView::Partial(extended(state.tool_uses[index], partial_json@))
            } else {
                MapStepView::Emit(Seq::empty())
            },
        },
        Event::ContentBlockStop { index } => if state.tool_uses.contains_key(index) {
            MapStepView::Complete(state.tool_uses[index])
        } else {
            MapStepView::Emit(Seq::empty())
        },
        Event::MessageStart { message } => MapStepView::Emit(
            seq![
                Ok(
                    CompletionEventView::UsageUpdate(
                        token_usage(updated_usage(state.usage, message.usage)),
                    ),
                ),
                Ok(CompletionEventView::StartMessage { message_id: message.id@ }),
            ],
        ),
        Event::MessageDelta { usage, .. } => emitted(
            CompletionEventView::UsageUpdate(token_usage(updated_usage(state.usage, usage))),
        ),
        Event::MessageStop => emitted(CompletionEventView::Stop(state.stop_reason)),
        Event::Error { error } => MapStepView::Emit(seq![Err(error)]),
        Event::Ping => MapStepView::Emit(Seq::empty()),
    }
}

/// A single event.
pub open spec fn emitted(event: CompletionEventView) -> MapStepView {
    MapStepView::Emit(seq![Ok(event)])
}

fn emit(event: LanguageModelCompletionEvent) -> (step: MapStep)
    ensures
        step@ == emitted(event@),
{
    let events: Vec<MappedEvent> = vec![Ok(event)];
    assert(mapped_view(events@) =~= seq![Ok(event@)]);
    MapStep::Emit(events)
}

fn emit_nothing() -> (step: MapStep)
    ensures
        step@ == MapStepView::Emit(Seq::empty()),
{
    let events: Vec<MappedEvent> = Vec::new();
    assert(mapped_view(events@) =~= Seq::empty());
    MapStep::Emit(events)
}

impl AnthropicEventMapper {
    /// Takes in an event and says what comes of it.
    pub fn apply_event(&mut self, event: Event) -> (step: MapStep)
        ensures
            final(self)@ == after_event(old(self)@, event),
            step@ == step_of(old(self)@, event),
    {
        let ghost before = self@;
        match event {
            Event::ContentBlockStart { index, content_block } => match content_block {
                ResponseContent::Text { text } => emit(LanguageModelCompletionEvent::Text(text)),
                ResponseContent::Thinking { thinking } => emit(
                    LanguageModelCompletionEvent::Thinking { text: thinking, signature: None },
                ),
                ResponseContent::RedactedThinking { data } => emit(
                    LanguageModelCompletionEvent::RedactedThinking { data },
                ),
                ResponseContent::ToolUse { id, name, .. } => {
                    self.tool_uses_by_index.insert(
                        index,
                        RawToolUse { id, name, input_json: String::new() },
                    );
                    assert(self@.tool_uses =~= after_event(before, event).tool_uses);
                    emit_nothing()
                },
            },
            Event::ContentBlockDelta { index, delta } => match delta {
                ContentDelta::TextDelta { text } => emit(LanguageModelCompletionEvent::Text(text)),
                ContentDelta::ThinkingDelta { thinking } => emit(
                    LanguageModelCompletionEvent::Thinking { text: thinking, signature: None },
                ),
                ContentDelta::SignatureDelta { signature } => emit(
                    LanguageModelCompletionEvent::Thinking {
                        text: String::new(),
                        signature: Some(signature),
                    },
                ),
                ContentDelta::InputJsonDelta { partial_json } => {
                    match self.tool_uses_by_index.remove(&index) {
                        Some(mut tool_use) => {
                            tool_use.input_json.append(partial_json.as_str());
                            let so_far = RawToolUse {
                                id: tool_use.id.clone(),
                                name: tool_use.name.clone(),
                                input_json: tool_use.input_json.clone(),
                            };
                            self.tool_uses_by_index.insert(index, tool_use);
                            assert(self@.tool_uses =~= after_event(before, event).tool_uses);
                            MapStep::Partial(so_far)
                        },
                        None => {
                            assert(self@.tool_uses =~= before.tool_uses);
                            emit_nothing()
                        },
                    }
                },
            },
            Event::ContentBlockStop { index } => {
                let removed = self.tool_uses_by_index.remove(&index);
                assert(self@.tool_uses =~= before.tool_uses.remove(index));
                match removed {
                    Some(tool_use) => MapStep::Complete(tool_use),
                    None => emit_nothing(),
                }
            },
            Event::MessageStart { message } => {
                update_usage(&mut self.usage, &message.usage);
                let events: Vec<MappedEvent> = vec![
                    Ok(LanguageModelCompletionEvent::UsageUpdate(convert_usage(&self.usage))),
                    Ok(LanguageModelCompletionEvent::StartMessage { message_id: message.id }),
                ];
                assert(mapped_view(events@) =~= step_of(before, event)->Emit_0);
                MapStep::Emit(events)
            },
            Event::MessageDelta { delta, usage } => {
                update_usage(&mut self.usage, &usage);
                if let Some(stop_reason) = &delta.stop_reason {
                    self.stop_reason = match find_stop_reason(stop_reason.as_str()) {
                        Some(reason) => reason,
                        None => StopReason::EndTurn,
                    };
                }
                emit(LanguageModelCompletionEvent::UsageUpdate(convert_usage(&self.usage)))
            },
            Event::MessageStop => emit(LanguageModelCompletionEvent::Stop(self.stop_reason)),
            Event::Error { error } => {
                let events: Vec<MappedEvent> = vec![Err(error)];
                assert(mapped_view(events@) =~= seq![Err(error)]);
                MapStep::Emit(events)
            },
            Event::Ping => emit_nothing(),
        }
    }
}

/// The tool call as far as its arguments have arrived, where they can be read: `document` is what
/// they were read as.
pub open spec fn partial_events(
    tool_use: RawToolUseView,
    document: Option<serde_json::Value>,
) -> Seq<Result<CompletionEventView, ApiError>> {
    match document {
        Some(input) => seq![
            Ok(
                CompletionEventView::ToolUse(
                    ToolUseView {
                        id: tool_use.id,
                        name: tool_use.name,
                        raw_input: tool_use.input_json,
                        input,
                        is_input_complete: false,
                        thought_signature: None,
                    },
                ),
            ),
        ],
        None => Seq::empty(),
    }
}

/// The tool call with all its arguments, or why they cannot be read: `parsed` is what they were
/// read as.
pub open spec fn complete_events(
    tool_use: RawToolUseView,
    parsed: Result<serde_json::Value, String>,
) -> Seq<Result<CompletionEventView, ApiError>> {
    seq![
        Ok(
            match parsed {
                Ok(input) => CompletionEventView::ToolUse(
                    ToolUseView {
                        id: tool_use.id,
                        name: tool_use.name,
                        raw_input: tool_use.input_json,
                        input,
                        is_input_complete: true,
                        thought_signature: None,
                    },
                ),
                Err(error) => CompletionEventView::ToolUseJsonParseError {
                    id: tool_use.id,
                    tool_name: tool_use.name,
                    raw_input: trimmed(tool_use.input_json),
                    json_parse_error: error@,
                },
            },
        ),
    ]
}

/// The events for a tool call of which the arguments that have arrived so far were read as
/// `document`.
pub fn partial_tool_use(tool_use: RawToolUse, document: Option<serde_json::Value>) -> (events: Vec<
    MappedEvent,
>)
    ensures
        mapped_view(events@) == partial_events(tool_use@, document),
{
    match document {
        Some(input) => {
            let RawToolUse { id, name, input_json } = tool_use;
            let event = LanguageModelCompletionEvent::ToolUse(
                LanguageModelToolUse {
                    id,
                    name,
                    is_input_complete: false,
                    raw_input: input_json,
                    input,
                    thought_signature: None,
                },
            );
            let events: Vec<MappedEvent> = vec![Ok(event)];
            assert(mapped_view(events@) =~= partial_events(tool_use@, document));
            events
        },
        None => {
            let events: Vec<MappedEvent> = Vec::new();
            assert(mapped_view(events@) =~= Seq::empty());
            events
        },
    }
}

/// The events for a tool call of which the arguments that have arrived so far were made into
/// `fixed`, which is to be JSON.
pub fn read_partial_tool_use(tool_use: RawToolUse, fixed: &str) -> (events: Vec<MappedEvent>)
    ensures
        mapped_view(events@) == partial_events(tool_use@, document_in(fixed@)),
{
    let document = match read_document(fixed) {
        Ok(document) => Some(document),
        Err(_) => None,
    };
    partial_tool_use(tool_use, document)
}

/// The events for a tool call of which the arguments were read as `parsed`; an error is described
/// by its text.
pub fn complete_tool_use(tool_use: RawToolUse, parsed: Result<serde_json::Value, String>) -> (events:
    Vec<MappedEvent>)
    ensures
        mapped_view(events@) == complete_events(tool_use@, parsed),
{
    let RawToolUse { id, name, input_json } = tool_use;
    let event = match parsed {
        Ok(input) => LanguageModelCompletionEvent::ToolUse(
            LanguageModelToolUse {
                id,
                name,
                is_input_complete: true,
                input,
                raw_input: input_json,
                thought_signature: None,
            },
        ),
        Err(json_parse_error) => LanguageModelCompletionEvent::ToolUseJsonParseError {
            id,
            tool_name: name,
            raw_input: trim(input_json.as_str()),
            json_parse_error,
        },
    };
    let events: Vec<MappedEvent> = vec![Ok(event)];
    assert(mapped_view(events@) =~= complete_events(tool_use@, parsed));
    events
}

/// Whether `events` are what comes of the step, with `fix_streamed_json` and
/// `parse_tool_arguments` at work.
pub open spec fn carried_out<F: Fn(&str) -> String, P: Fn(&str) -> Result<serde_json::Value, String>>(
    step: MapStepView,
    fix_streamed_json: F,
    parse_tool_arguments: P,
    events: Seq<Result<CompletionEventView, ApiError>>,
) -> bool {
    match step {
        MapStepView::Emit(emitted) => events == emitted,
        MapStepView::Partial(tool_use) => exists|so_far: &str, fixed: String|
            {
                &&& so_far@ == tool_use.input_json
                &&& #[trigger] call_ensures(fix_streamed_json, (so_far,), fixed)
                &&& events == partial_events(tool_use, document_in(fixed@))
            },
        MapStepView::Complete(tool_use) => exists|
            arguments: &str,
            parsed: Result<serde_json::Value, String>,
        |
            {
                &&& arguments@ == trimmed(tool_use.input_json)
                &&& #[trigger] call_ensures(parse_tool_arguments, (arguments,), parsed)
                &&& events == complete_events(tool_use, parsed)
            },
    }
}

impl AnthropicEventMapper {
    /// Takes in an event and returns the events that come of it.
    ///
    /// `fix_streamed_json` makes JSON out of the beginning of a JSON text, e.g. by closing
    /// unclosed delimiters, so that a tool call can be shown with whatever has arrived so far.
    /// `parse_tool_arguments` reads the arguments of a tool call once they are complete.
    pub fn map_event<F, P>(
        &mut self,
        event: Event,
        fix_streamed_json: &F,
        parse_tool_arguments: &P,
    ) -> (events: Vec<MappedEvent>) where
        F: Fn(&str) -> String,
        P: Fn(&str) -> Result<serde_json::Value, String>,

        requires
            forall|text: &str| #[trigger] call_requires(*fix_streamed_json, (text,)),
            forall|text: &str| #[trigger] call_requires(*parse_tool_arguments, (text,)),
        ensures
            final(self)@ == after_event(old(self)@, event),
            carried_out(
                step_of(old(self)@, event),
                *fix_streamed_json,
                *parse_tool_arguments,
                mapped_view(events@),
            ),
    {
        match self.apply_event(event) {
            MapStep::Emit(events) => events,
            MapStep::Partial(tool_use) => {
                let fixed = fix_streamed_json(tool_use.input_json.as_str());
                read_partial_tool_use(tool_use, fixed.as_str())
            },
            MapStep::Complete(tool_use) => {
                let arguments = trim(tool_use.input_json.as_str());
                let parsed = parse_tool_arguments(arguments.as_str());
                complete_tool_use(tool_use, parsed)
            },
        }
    }
}

/// Why a completion has no event: the API reported an error, or the stream of events failed.
#[derive(Debug)]
pub enum LanguageModelCompletionError<E> {
    Api(ApiError),
    Stream(E),
}

/// One event of a completion, or why there is none.
pub type CompletionItem<E> = Result<
    LanguageModelCompletionEvent,
    LanguageModelCompletionError<E>,
>;

/// What a sequence of items says.
pub open spec fn items_view<E>(items: Seq<CompletionItem<E>>) -> Seq<
    Result<CompletionEventView, LanguageModelCompletionError<E>>,
> {
    items.map_values(|item: CompletionItem<E>| match item {
        Ok(event) => Ok(event@),
        Err(error) => Err(error),
    })
}

/// The mapped events as items.
pub open spec fn as_items<E>(events: Seq<Result<CompletionEventView, ApiError>>) -> Seq<
    Result<CompletionEventView, LanguageModelCompletionError<E>>,
> {
    events.map_values(|event: Result<CompletionEventView, ApiError>| match event {
        Ok(event) => Ok(event),
        Err(error) => Err(LanguageModelCompletionError::Api(error)),
    })
}

/// The single item that says that the stream of events failed.
pub open spec fn stream_failure<E>(error: E) -> Seq<
    Result<CompletionEventView, LanguageModelCompletionError<E>>,
> {
    seq![Err(LanguageModelCompletionError::Stream(error))]
}

/// The state after what the stream of events yields next: a failure of the stream leaves it as it
/// is.
pub open spec fn after_item<E>(state: MapperView, item: Result<Event, E>) -> MapperView {
    match item {
        Ok(event) => after_event(state, event),
        Err(_) => state,
    }
}

/// Whether `items` may come of what the stream of events yields next.
pub open spec fn item_yields<
    E,
    F: Fn(&str) -> String,
    P: Fn(&str) -> Result<serde_json::Value, String>,
>(
    state: MapperView,
    item: Result<Event, E>,
    fix_streamed_json: F,
    parse_tool_arguments: P,
    items: Seq<Result<CompletionEventView, LanguageModelCompletionError<E>>>,
) -> bool {
    match item {
        Ok(event) => exists|events: Seq<Result<CompletionEventView, ApiError>>| #[trigger]
            carried_out(step_of(state, event), fix_streamed_json, parse_tool_arguments, events)
                && items == as_items::<E>(events),
        Err(error) => items == stream_failure(error),
    }
}

/// The state after a sequence of what a stream of events yields.
pub open spec fn after_items<E>(state: MapperView, stream: Seq<Result<Event, E>>) -> MapperView
    decreases stream.len(),
{
    if stream.len() == 0 {
        state
    } else {
        after_item(after_items(state, stream.drop_last()), stream.last())
    }
}

/// Whether `parts[i]` may come of the `i`th of what a stream of events yields, for each `i`, with
/// the state carried from one to the next.
pub open spec fn parts_of_stream<
    E,
    F: Fn(&str) -> String,
    P: Fn(&str) -> Result<serde_json::Value, String>,
>(
    state: MapperView,
    stream: Seq<Result<Event, E>>,
    fix_streamed_json: F,
    parse_tool_arguments: P,
    parts: Seq<Seq<Result<CompletionEventView, LanguageModelCompletionError<E>>>>,
) -> bool {
    &&& parts.len() == stream.len()
    &&& forall|i: int|
        0 <= i < stream.len() ==> item_yields(
            after_items(state, stream.take(i)),
            stream[i],
            fix_streamed_json,
            parse_tool_arguments,
            #[trigger] parts[i],
        )
}

/// The parts, one after the other.
pub open spec fn joined<T>(parts: Seq<Seq<T>>) -> Seq<T>
    decreases parts.len(),
{
    if parts.len() == 0 {
        Seq::empty()
    } else {
        joined(parts.drop_last()) + parts.last()
    }
}

/// Whether `items` may come of a whole stream of events: the concatenation, in order, of what
/// comes of each of the things that it yields.
pub open spec fn stream_yields<
    E,
    F: Fn(&str) -> String,
    P: Fn(&str) -> Result<serde_json::Value, String>,
>(
    state: MapperView,
    stream: Seq<Result<Event, E>>,
    fix_streamed_json: F,
    parse_tool_arguments: P,
    items: Seq<Result<CompletionEventView, LanguageModelCompletionError<E>>>,
) -> bool {
    exists|parts: Seq<Seq<Result<CompletionEventView, LanguageModelCompletionError<E>>>>|
        #[trigger] parts_of_stream(state, stream, fix_streamed_json, parse_tool_arguments, parts)
            && items == joined(parts)
}

proof fn lemma_parts_grow<
    E,
    F: Fn(&str) -> String,
    P: Fn(&str) -> Result<serde_json::Value, String>,
>(
    state: MapperView,
    stream: Seq<Result<Event, E>>,
    upto: int,
    fix_streamed_json: F,
    parse_tool_arguments: P,
    parts: Seq<Seq<Result<CompletionEventView, LanguageModelCompletionError<E>>>>,
    part: Seq<Result<CompletionEventView, LanguageModelCompletionError<E>>>,
)
    requires
        0 <= upto < stream.len(),
        parts_of_stream(state, stream.take(upto), fix_streamed_json, parse_tool_arguments, parts),
        item_yields(
            after_items(state, stream.take(upto)),
            stream[upto],
            fix_streamed_json,
            parse_tool_arguments,
            part,
        ),
    ensures
        parts_of_stream(
            state,
            stream.take(upto + 1),
            fix_streamed_json,
            parse_tool_arguments,
            parts.push(part),
        ),
        after_items(state, stream.take(upto + 1)) == after_item(
            after_items(state, stream.take(upto)),
            stream[upto],
        ),
        joined(parts.push(part)) == joined(parts) + part,
{
    let longer = stream.take(upto + 1);
    assert(longer.drop_last() =~= stream.take(upto));
    assert(parts.push(part).drop_last() =~= parts);
    assert forall|i: int| 0 <= i < longer.len() implies item_yields(
        after_items(state, longer.take(i)),
        longer[i],
        fix_streamed_json,
        parse_tool_arguments,
        #[trigger] parts.push(part)[i],
    ) by {
        assert(longer.take(i) =~= stream.take(upto).take(i));
        if i < upto {
            assert(parts.push(part)[i] == parts[i]);
        } else {
            assert(longer.take(i) =~= stream.take(upto));
        }
    }
}

impl AnthropicEventMapper {
    /// Takes in what the stream of events yields next and returns what comes of it: the events
    /// that [`map_event`](Self::map_event) returns, or the failure of the stream.
    pub fn map_item<E, F, P>(
        &mut self,
        item: Result<Event, E>,
        fix_streamed_json: &F,
        parse_tool_arguments: &P,
    ) -> (items: Vec<CompletionItem<E>>) where
        F: Fn(&str) -> String,
        P: Fn(&str) -> Result<serde_json::Value, String>,

        requires
            forall|text: &str| #[trigger] call_requires(*fix_streamed_json, (text,)),
            forall|text: &str| #[trigger] call_requires(*parse_tool_arguments, (text,)),
        ensures
            final(self)@ == after_item(old(self)@, item),
            item_yields(
                old(self)@,
                item,
                *fix_streamed_json,
                *parse_tool_arguments,
                items_view(items@),
            ),
    {
        match item {
            Ok(event) => {
                let events = self.map_event(event, fix_streamed_json, parse_tool_arguments);
                let mut items: Vec<CompletionItem<E>> = Vec::new();
                let ghost wanted = as_items::<E>(mapped_view(events@));
                for event in it: events
                    invariant
                        it.seq() == events@,
                        wanted == as_items::<E>(mapped_view(events@)),
                        items@.len() == it.index(),
                        forall|k: int|
                            0 <= k < items@.len() ==> (#[trigger] items_view(items@)[k])
                                == wanted[k],
                {
                    let ghost before = items@;
                    items.push(
                        match event {
                            Ok(event) => Ok(event),
                            Err(error) => Err(LanguageModelCompletionError::Api(error)),
                        },
                    );
                    assert forall|k: int| 0 <= k < items@.len() implies (#[trigger] items_view(
                        items@,
                    )[k]) == wanted[k] by {
                        if k < before.len() {
                            assert(items_view(before)[k] == wanted[k]);
                        }
                    }
                }
                assert(items_view(items@) =~= wanted);
                items
            },
            Err(error) => {
                let items: Vec<CompletionItem<E>> = vec![
                    Err(LanguageModelCompletionError::Stream(error)),
                ];
                assert(items_view(items@) =~= stream_failure(error));
                items
            },
        }
    }
    /// Maps a whole stream of events, given as what it yields: each thing in turn, with one mapper
    /// carried through.
    pub fn map_stream<E, F, P>(
        self,
        events: Vec<Result<Event, E>>,
        fix_streamed_json: &F,
        parse_tool_arguments: &P,
    ) -> (items: Vec<CompletionItem<E>>) where
        F: Fn(&str) -> String,
        P: Fn(&str) -> Result<serde_json::Value, String>,

        requires
            forall|text: &str| #[trigger] call_requires(*fix_streamed_json, (text,)),
            forall|text: &str| #[trigger] call_requires(*parse_tool_arguments, (text,)),
        ensures
            stream_yields(
                self@,
                events@,
                *fix_streamed_json,
                *parse_tool_arguments,
                items_view(items@),
            ),
    {
        let ghost state = self@;
        let mut mapper = self;
        let mut items: Vec<CompletionItem<E>> = Vec::new();
        let ghost mut parts: Seq<
            Seq<Result<CompletionEventView, LanguageModelCompletionError<E>>>,
        > = Seq::empty();
        assert(items_view(items@) =~= joined(parts));
        for event in it: events
            invariant
                it.seq() == events@,
                forall|text: &str| #[trigger] call_requires(*fix_streamed_json, (text,)),
                forall|text: &str| #[trigger] call_requires(*parse_tool_arguments, (text,)),
                mapper@ == after_items(state, events@.take(it.index())),
                parts_of_stream(
                    state,
                    events@.take(it.index()),
                    *fix_streamed_json,
                    *parse_tool_arguments,
                    parts,
                ),
                items_view(items@) == joined(parts),
        {
            let ghost before = items@;
            let mut yielded = mapper.map_item(event, fix_streamed_json, parse_tool_arguments);
            proof {
                let part = items_view(yielded@);
                lemma_parts_grow(
                    state,
                    events@,
                    it.index(),
                    *fix_streamed_json,
                    *parse_tool_arguments,
                    parts,
                    part,
                );
                parts = parts.push(part);
                assert(items_view(before + yielded@) =~= items_view(before) + part);
            }
            items.append(&mut yielded);
        }
        assert(events@.take(events@.len() as int) =~= events@);
        items
    }
}

} // verus!
