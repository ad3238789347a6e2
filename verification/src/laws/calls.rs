//! Laws of calls: what is owed to whoever calls a function of the library.

use vstd::prelude::*;

use crate::anthropic::{ApiError, Event, Usage};
use crate::completion::AnthropicPromptCacheMode;
use crate::cpu_probe::{
    can_record,
    count,
    enabled,
    flush,
    record,
    time,
    Probe,
    Report,
    Timing,
};
use crate::echo_agent::{
    answer_to,
    extract_prompt_text,
    generate_markdown,
    generate_plain,
    is_blank,
    read_line,
    read_message,
    setting_or,
    BodyStream,
    EchoAction,
    EchoAgent,
    EchoSettings,
    Incoming,
    PromptBlock,
    StreamStep,
};
use crate::event_mapper::{
    complete_tool_use,
    convert_usage,
    find_stop_reason,
    partial_tool_use,
    read_partial_tool_use,
    update_usage,
    AnthropicEventMapper,
    CompletionItem,
    MapStep,
    MappedEvent,
    RawToolUse,
};
use crate::json::find_text_member;
use crate::language_model::{StopReason, TokenUsage};
use crate::number::{parse_number, push_decimal};
use crate::text::{is_white_space, same_text, text_order, trim, trim_end, TextOrder};

verus! {

use crate::cpu_probe::{
    recorded,
    reports,
    ProbeView,
};
use crate::echo_agent::{
    action_for,
    incoming_in,
    incoming_of,
    markdown,
    paragraph,
    prompt_text,
    prompt_view,
    stepped,
};
use crate::event_mapper::{
    after_event,
    after_item,
    as_items,
    carried_out,
    item_yields,
    items_view,
    mapped_view,
    stream_yields,
};
use crate::json::{addressed_by, document_in, member_of};
use crate::language_model::{option_text, CompletionEventView};
use crate::laws::agent::{is_repeated, is_text_under, law_answer};
use crate::laws::numbers::law_number_in_text;
use crate::laws::streams::{
    all_text_in,
    all_text_of,
    all_thinking_in,
    all_thinking_of,
    is_newest,
    law_answer_comes_through,
    law_newest_counts,
    law_stop_reasons_have_names,
    reason_has_name,
    shows_call,
    tells_usage,
};
use crate::laws::text::{blank, law_trimming, law_white_space, white_space_code_points};
use crate::number::{decimal, digits_value, number_in};
use crate::text::{text_before, trimmed, white_space};

/// Mapping what a stream yields next gives what comes of it, and leaves the mapper in the state
/// after it.
pub proof fn law_item_is_mapped<
    E,
    F: Fn(&str) -> String,
    P: Fn(&str) -> Result<serde_json::Value, String>,
>(
    mapper: &mut AnthropicEventMapper,
    item: Result<Event, E>,
    fix_streamed_json: &F,
    parse_tool_arguments: &P,
    items: Vec<CompletionItem<E>>,
)
    requires
        call_ensures(
            AnthropicEventMapper::map_item::<E, F, P>,
            (mapper, item, fix_streamed_json, parse_tool_arguments),
            items,
        ),
    ensures
        final(mapper)@ == after_item(old(mapper)@, item),
        item_yields(
            old(mapper)@,
            item,
            *fix_streamed_json,
            *parse_tool_arguments,
            items_view(items@),
        ),
{
}

/// Mapping an event gives what comes of it in a stream.
pub proof fn law_event_is_mapped<
    E,
    F: Fn(&str) -> String,
    P: Fn(&str) -> Result<serde_json::Value, String>,
>(
    mapper: &mut AnthropicEventMapper,
    event: Event,
    fix_streamed_json: &F,
    parse_tool_arguments: &P,
    events: Vec<MappedEvent>,
)
    requires
        call_ensures(
            AnthropicEventMapper::map_event::<F, P>,
            (mapper, event, fix_streamed_json, parse_tool_arguments),
            events,
        ),
    ensures
        final(mapper)@ == after_item(old(mapper)@, Ok::<Event, E>(event)),
        item_yields(
            old(mapper)@,
            Ok::<Event, E>(event),
            *fix_streamed_json,
            *parse_tool_arguments,
            as_items::<E>(mapped_view(events@)),
        ),
{
}

/// Carrying out what is said to come of an event gives what comes of it in a stream.
pub proof fn law_event_is_applied<
    E,
    F: Fn(&str) -> String,
    P: Fn(&str) -> Result<serde_json::Value, String>,
>(
    mapper: &mut AnthropicEventMapper,
    event: Event,
    step: MapStep,
    fix_streamed_json: F,
    parse_tool_arguments: P,
    events: Seq<Result<CompletionEventView, ApiError>>,
)
    requires
        call_ensures(AnthropicEventMapper::apply_event, (mapper, event), step),
        carried_out(step@, fix_streamed_json, parse_tool_arguments, events),
    ensures
        final(mapper)@ == after_event(old(mapper)@, event),
        item_yields(
            old(mapper)@,
            Ok::<Event, E>(event),
            fix_streamed_json,
            parse_tool_arguments,
            as_items::<E>(events),
        ),
{
}

/// Mapping a whole stream lets the answer through: the texts that come out, put together, are
/// those that came in, character by character, and so it is with the thinking.
pub proof fn law_stream_is_mapped<
    E,
    F: Fn(&str) -> String,
    P: Fn(&str) -> Result<serde_json::Value, String>,
>(
    mapper: AnthropicEventMapper,
    events: Vec<Result<Event, E>>,
    fix_streamed_json: &F,
    parse_tool_arguments: &P,
    items: Vec<CompletionItem<E>>,
)
    requires
        call_ensures(
            AnthropicEventMapper::map_stream::<E, F, P>,
            (mapper, events, fix_streamed_json, parse_tool_arguments),
            items,
        ),
    ensures
        stream_yields(
            mapper@,
            events@,
            *fix_streamed_json,
            *parse_tool_arguments,
            items_view(items@),
        ),
        all_text_of(items_view(items@)) == all_text_in(events@),
        all_thinking_of(items_view(items@)) == all_thinking_in(events@),
{
    law_answer_comes_through(
        mapper@,
        events@,
        *fix_streamed_json,
        *parse_tool_arguments,
        items_view(items@),
    );
}

/// A new mapper knows of no tool call and of no count, and ends its message as the end of the
/// turn.
pub proof fn law_new_mapper(mapper: AnthropicEventMapper, index: usize)
    requires
        call_ensures(AnthropicEventMapper::new, (), mapper),
    ensures
        !mapper@.tool_uses.contains_key(index),
        mapper@.usage.input_tokens is None,
        mapper@.usage.output_tokens is None,
        mapper@.usage.cache_creation_input_tokens is None,
        mapper@.usage.cache_read_input_tokens is None,
        mapper@.stop_reason == StopReason::EndTurn,
{
}

/// A newer count takes the place of an older one, and a count that is not reported stays.
pub proof fn law_usage_is_updated(usage: &mut Usage, new: &Usage)
    requires
        call_ensures(update_usage, (usage, new), ()),
    ensures
        is_newest(final(usage).input_tokens, new.input_tokens, old(usage).input_tokens),
        is_newest(final(usage).output_tokens, new.output_tokens, old(usage).output_tokens),
        is_newest(
            final(usage).cache_creation_input_tokens,
            new.cache_creation_input_tokens,
            old(usage).cache_creation_input_tokens,
        ),
        is_newest(
            final(usage).cache_read_input_tokens,
            new.cache_read_input_tokens,
            old(usage).cache_read_input_tokens,
        ),
{
    law_newest_counts(*old(usage), *new);
}

/// A count that was reported is told as it is, and one that was not as zero.
pub proof fn law_usage_is_converted(usage: &Usage, converted: TokenUsage)
    requires
        call_ensures(convert_usage, (usage,), converted),
    ensures
        tells_usage(converted, *usage, *usage),
{
    law_newest_counts(*usage, *usage);
}

/// A stop reason is found by its name, and by no other.
pub proof fn law_stop_reason_is_found(name: &str, found: Option<StopReason>, reason: StopReason)
    requires
        call_ensures(find_stop_reason, (name,), found),
    ensures
        found == Some(reason) <==> reason_has_name(reason, name@),
{
    law_stop_reasons_have_names(name@, reason);
}

/// Whether the one event shows the tool call.
pub open spec fn shows_one_call(
    events: Vec<MappedEvent>,
    tool_use: RawToolUse,
    input: serde_json::Value,
    complete: bool,
) -> bool {
    let shown = mapped_view(events@);
    &&& shown.len() == 1
    &&& shown[0] is Ok
    &&& shown[0]->Ok_0 is ToolUse
    &&& shows_call(shown[0]->Ok_0->ToolUse_0, tool_use@, input, complete)
}

/// A tool call of which the arguments are still arriving is shown with what they could be read as
/// so far, and not at all where they could not be.
pub proof fn law_arriving_call_is_shown(
    tool_use: RawToolUse,
    document: Option<serde_json::Value>,
    fixed: &str,
    events: Vec<MappedEvent>,
)
    requires
        call_ensures(partial_tool_use, (tool_use, document), events) || (document == document_in(
            fixed@,
        ) && call_ensures(read_partial_tool_use, (tool_use, fixed), events)),
    ensures
        match document {
            Some(input) => shows_one_call(events, tool_use, input, false),
            None => events@.len() == 0,
        },
{
    assert(mapped_view(events@).len() == events@.len());
}

/// A tool call of which the arguments are complete is shown with what they were read as, and else
/// it is said why they could not be read.
pub proof fn law_complete_call_is_shown(
    tool_use: RawToolUse,
    parsed: Result<serde_json::Value, String>,
    events: Vec<MappedEvent>,
)
    requires
        call_ensures(complete_tool_use, (tool_use, parsed), events),
    ensures
        match parsed {
            Ok(input) => shows_one_call(events, tool_use, input, true),
            Err(error) => {
                let shown = mapped_view(events@);
                &&& shown.len() == 1
                &&& shown[0] is Ok
                &&& shown[0]->Ok_0 == (CompletionEventView::ToolUseJsonParseError {
                    id: tool_use.id@,
                    tool_name: tool_use.name@,
                    raw_input: trimmed(tool_use.input_json@),
                    json_parse_error: error@,
                })
            },
        },
{
}

/// What a call that recorded an occurrence has done: where the probe is switched off, nothing;
/// where it is on, the occurrence is added, and after a second without a report all that was added
/// is reported and the probe starts anew.
pub open spec fn has_recorded(
    before: Option<Probe>,
    switched_on: bool,
    category: Seq<char>,
    elapsed: Option<u128>,
    opened: u128,
    now: u128,
    after: Option<Probe>,
    report: Option<Report>,
) -> bool {
    let since = match before {
        Some(probe) => probe@.last_flush,
        None => opened,
    };
    let held = match before {
        Some(probe) => probe@,
        None => ProbeView { last_flush: opened, stats: Map::empty() },
    };
    let stats = recorded(held, category, elapsed).stats;
    if !switched_on {
        after == before && report is None
    } else if now - since >= 1_000_000_000 {
        &&& report is Some
        &&& report->0.interval == now - since
        &&& reports(report->0.lines@, stats)
        &&& after is Some
        &&& after->0@.last_flush == now
        &&& after->0@.stats.dom() =~= Set::empty()
    } else {
        &&& report is None
        &&& after is Some
        &&& after->0@.last_flush == since
        &&& after->0@.stats == stats
    }
}

/// Recording, counting and finishing a measurement do the same, with the time that is given, with
/// none, and with the time that has gone by since the measurement began.
pub proof fn law_calls_record(
    slot: &mut Option<Probe>,
    switched_on: bool,
    category: &'static str,
    elapsed: Option<u128>,
    timing: Timing,
    stopped: u128,
    opened: u128,
    now: u128,
    report: Option<Report>,
)
    requires
        ({
            ||| call_ensures(record, (slot, switched_on, category, elapsed, opened, now), report)
            ||| elapsed is None && call_ensures(
                count,
                (slot, switched_on, category, opened, now),
                report,
            )
            ||| timing.category() == category@ && timing.start() <= stopped && elapsed == Some(
                (stopped - timing.start()) as u128,
            ) && call_ensures(
                Timing::finish,
                (timing, slot, switched_on, stopped, opened, now),
                report,
            )
        }),
    ensures
        has_recorded(
            *old(slot),
            switched_on,
            category@,
            elapsed,
            opened,
            now,
            *final(slot),
            report,
        ),
{
}

/// A measurement begins if and only if the probe is switched on, at the time it is begun, and has
/// run as long as has gone by since; not at all, where the clock went back.
pub proof fn law_timing(
    switched_on: bool,
    category: &'static str,
    start: u128,
    timing: Option<Timing>,
    now: u128,
    elapsed: u128,
)
    requires
        call_ensures(time, (switched_on, category, start), timing),
        switched_on ==> call_ensures(Timing::elapsed, (&timing->0, now), elapsed),
    ensures
        timing is Some <==> switched_on,
        switched_on ==> timing->0.category() == category@ && timing->0.start() == start,
        switched_on && start <= now ==> start + elapsed == now,
        switched_on && now < start ==> elapsed == 0,
{
}

/// The probe is switched on by any setting but none, an empty one and `0`.
pub proof fn law_switch(value: Option<&str>, on: bool)
    requires
        call_ensures(enabled, (value,), on),
    ensures
        value is None ==> !on,
        value is Some && value->0@.len() == 0 ==> !on,
        value is Some && value->0@ == seq!['0'] ==> !on,
        value is Some && value->0@.len() > 0 && value->0@ != seq!['0'] ==> on,
{
    reveal_strlit("0");
    assert("0"@ =~= seq!['0']);
}

/// Handing out what has accumulated reports all of it and leaves nothing.
pub proof fn law_flush(probe: &mut Probe, interval: u128, report: Report)
    requires
        call_ensures(flush, (probe, interval), report),
    ensures
        report.interval == interval,
        reports(report.lines@, old(probe)@.stats),
        final(probe)@.last_flush == old(probe)@.last_flush,
        final(probe)@.stats.dom() =~= Set::empty(),
{
}

/// An occurrence can be recorded if and only if the count of its category stays below 2^64 and the
/// time below 2^64 seconds.
pub proof fn law_can_record(
    probe: Probe,
    category: &str,
    elapsed: Option<u128>,
    timing: Timing,
    stopped: u128,
    fits: bool,
)
    requires
        ({
            ||| call_ensures(can_record, (&Some(probe), category, elapsed), fits)
            ||| timing.category() == category@ && timing.start() <= stopped && elapsed == Some(
                (stopped - timing.start()) as u128,
            ) && call_ensures(Timing::can_finish, (&timing, &Some(probe), stopped), fits)
        }),
        probe@.stats.dom().contains(category@),
    ensures
        ({
            let stats = probe@.stats[category@];
            let taken = if elapsed is Some {
                elapsed->0
            } else {
                0
            };
            fits <==> stats.count + 1 < 0x1_0000_0000_0000_0000 && stats.total + taken
                < 0x1_0000_0000_0000_0000int * 1_000_000_000int
        }),
{
}

/// The statistics of a category are read as the probe holds them.
pub proof fn law_stats(probe: Probe, category: &str, stats: crate::cpu_probe::CategoryStats)
    requires
        call_ensures(Probe::stats, (&probe, category), stats),
    ensures
        probe@.stats.dom().contains(category@) ==> stats == probe@.stats[category@],
        !probe@.stats.dom().contains(category@) ==> stats.count == 0 && stats.total == 0
            && stats.max == 0,
{
}

/// Trimming cuts off the whitespace at the ends, all of it, and nothing else.
pub proof fn law_trim(text: &str, trimmed_text: String, cut_end: String)
    requires
        call_ensures(trim, (text,), trimmed_text),
        call_ensures(trim_end, (text,), cut_end),
    ensures
        exists|before: Seq<char>, after: Seq<char>|
            text@ == #[trigger] (before + trimmed_text@ + after) && blank(before) && blank(after),
        exists|after: Seq<char>| text@ == #[trigger] (cut_end@ + after) && blank(after),
        trimmed_text@.len() > 0 ==> !white_space(trimmed_text@.first()) && !white_space(
            trimmed_text@.last(),
        ),
        cut_end@.len() > 0 ==> !white_space(cut_end@.last()),
{
    law_trimming(text@);
}

/// A character is whitespace if and only if Unicode says so.
pub proof fn law_is_white_space(c: char, white: bool)
    requires
        call_ensures(is_white_space, (c,), white),
    ensures
        white <==> white_space_code_points().contains(c as u32),
{
    law_white_space(c);
}

/// A text of digits is read as the number that they denote, if that is below 2^64, and every other
/// text that does not begin with a plus sign is read as no number; a number is appended in decimal
/// notation.
pub proof fn law_numbers_are_read_and_written(
    text: &str,
    read: Option<u64>,
    written: &mut String,
    number: u64,
)
    requires
        call_ensures(parse_number, (text,), read),
        call_ensures(push_decimal, (written, number), ()),
    ensures
        text@.len() > 0 && text@[0] != '+' ==> {
            &&& read is Some <==> (forall|k: int|
                0 <= k < text@.len() ==> '0' <= #[trigger] text@[k] <= '9') && digits_value(text@)
                < 0x1_0000_0000_0000_0000
            &&& read is Some ==> read->0 == digits_value(text@)
        },
        text@.len() == 0 ==> read is None,
        final(written)@ == old(written)@ + decimal(number as nat),
{
    law_number_in_text(text@);
    if text@.len() == 0 {
        assert(text@ =~= Seq::empty());
    }
}

/// Whether `number` is the number that a setting holds, or else its default.
pub open spec fn is_setting(value: Option<&str>, default: u64, number: u64) -> bool {
    if value is Some && number_in(value->0@) is Some {
        number_in(value->0@) == Some(number)
    } else {
        number == default
    }
}

/// The knobs of the agent are the numbers that they are set to, each at its own place; chunks and
/// repetitions are at least one. What is not set, or not to a number, has its default.
pub proof fn law_knobs(
    delay_ms: Option<&str>,
    chunk_chars: Option<&str>,
    repeat: Option<&str>,
    lines: Option<&str>,
    plain: Option<&str>,
    settings: EchoSettings,
    number: u64,
    value: Option<&str>,
    default: u64,
    held: u64,
)
    requires
        call_ensures(
            EchoSettings::read,
            (delay_ms, chunk_chars, repeat, lines, plain),
            settings,
        ),
        call_ensures(setting_or, (value, default), held),
    ensures
        is_setting(delay_ms, 20, settings.delay_ms),
        is_setting(chunk_chars, 6, number) ==> settings.chunk_chars == if number == 0 {
            1
        } else {
            number as usize
        },
        is_setting(repeat, 1, number) ==> settings.repeat == if number == 0 {
            1
        } else {
            number as usize
        },
        is_setting(lines, 0, number) ==> settings.lines == number as usize,
        is_setting(plain, 0, number) ==> (settings.plain <==> number != 0),
        is_setting(value, default, held),
{
}

/// What the agent answers with is the prompt, as often as it is to be echoed, with a blank line
/// between any two copies, or else a document of the size that is asked for.
pub proof fn law_answer_to_prompt(
    settings: EchoSettings,
    prompt: &str,
    body: String,
    document: String,
    sentences: String,
)
    requires
        call_ensures(answer_to, (&settings, prompt), body),
        call_ensures(generate_markdown, (settings.lines,), document),
        call_ensures(generate_plain, (settings.lines,), sentences),
    ensures
        document@ == markdown(settings.lines as nat),
        sentences@ == paragraph(settings.lines as nat),
        settings.lines > 0 ==> body@ == if settings.plain {
            sentences@
        } else {
            document@
        },
        settings.lines == 0 && settings.repeat > 0 && prompt@.len() > 0 ==> is_repeated(
            prompt@,
            settings.repeat as int,
            body@,
        ),
        settings.lines == 0 && settings.repeat == 1 && prompt@.len() == 0 ==> body@
            == "_(echo: empty prompt)_"@,
{
    law_answer(settings, prompt@);
}

/// The text of a prompt is that of its blocks.
pub proof fn law_prompt_is_extracted(blocks: &Vec<PromptBlock>, text: String)
    requires
        call_ensures(extract_prompt_text, (blocks,), text),
    ensures
        text@ == prompt_text(prompt_view(blocks@)),
{
}

/// A line is read as the message in it, the same as the message is read by itself; a line that is
/// blank is told as such.
pub proof fn law_line_is_taken_in(
    line: &str,
    read: Option<Incoming>,
    message: serde_json::Value,
    incoming: Incoming,
    line_is_blank: bool,
)
    requires
        call_ensures(read_line, (line,), read),
        call_ensures(read_message, (message,), incoming),
        call_ensures(is_blank, (line,), line_is_blank),
    ensures
        read is Some <==> incoming_in(line@) is Some,
        read is Some ==> read->0@ == incoming_in(line@)->0,
        incoming@ == incoming_of(message),
        !blank(line@) && document_in(line@) == Some(message) ==> read is Some && read->0@
            == incoming@,
        line_is_blank <==> blank(line@),
{
    crate::laws::agent::law_line_is_read(line@);
    law_trimming(line@);
    let (before, after) = choose|before: Seq<char>, after: Seq<char>|
        line@ == #[trigger] (before + trimmed(line@) + after) && blank(before) && blank(after);
    let n = before.len() as int;
    if trimmed(line@).len() == 0 {
        assert forall|k: int| 0 <= k < line@.len() implies white_space(#[trigger] line@[k]) by {
            if k < n {
                assert(line@[k] == before[k]);
            } else {
                assert(line@[k] == after[k - n]);
            }
        }
    } else {
        assert(line@[n] == trimmed(line@)[0]);
    }
}

/// The agent says what it does about a message, counts the sessions that it opens, and keeps its
/// settings.
pub proof fn law_message_is_handled(
    agent: &mut EchoAgent,
    incoming: &Incoming,
    action: EchoAction,
)
    requires
        call_ensures(EchoAgent::handle, (agent, incoming), action),
    ensures
        action@ == action_for(*old(agent), incoming@),
        final(agent).settings == old(agent).settings,
        action@ is OpenSession ==> final(agent).session_counter == old(agent).session_counter + 1,
        !(action@ is OpenSession) ==> final(agent).session_counter == old(agent).session_counter,
{
}

/// What a message is for is told by its method.
pub proof fn law_messages_are_told_apart(
    incoming: Incoming,
    cancels: bool,
    prompts: bool,
    opens: bool,
)
    requires
        call_ensures(Incoming::is_cancel, (&incoming,), cancels),
        call_ensures(Incoming::is_prompt, (&incoming,), prompts),
        call_ensures(Incoming::opens_session, (&incoming,), opens),
    ensures
        cancels <==> incoming.method is Some && incoming.method->0@ == "session/cancel"@,
        prompts <==> incoming.method is Some && incoming.method->0@ == "session/prompt"@,
        opens <==> incoming.method is Some && incoming.method->0@ == "session/new"@,
{
}

/// A stream begins with the whole body, and each step takes it on.
pub proof fn law_stream_begins_and_goes_on(
    body: &str,
    chunk_chars: usize,
    begun: BodyStream,
    stream: &mut BodyStream,
    cancelled: bool,
    step: StreamStep,
)
    requires
        call_ensures(BodyStream::new, (body, chunk_chars), begun),
        call_ensures(BodyStream::step, (stream, cancelled), step),
    ensures
        begun.rest() == body@,
        begun.chunk_chars() == chunk_chars,
        stepped(*old(stream), cancelled, step@, *final(stream)),
{
}

/// What is found in a message is what stands there: the id to reply to and the session that it
/// belongs to; and the text under a key is found where there is one that is a string.
pub proof fn law_parts_are_found(
    incoming: Incoming,
    id: Option<&serde_json::Value>,
    session_id: Option<&serde_json::Value>,
    key: &str,
    text: Option<String>,
)
    requires
        call_ensures(Incoming::id, (&incoming,), id),
        call_ensures(Incoming::session_id, (&incoming,), session_id),
        call_ensures(find_text_member, (&incoming.message, key), text),
    ensures
        match member_of(incoming.message, "id"@) {
            Some(value) => id is Some && *id->0 == value,
            None => id is None,
        },
        match addressed_by(incoming.message, "/params/sessionId"@) {
            Some(value) => session_id is Some && *session_id->0 == value,
            None => session_id is None,
        },
        is_text_under(incoming.message, key@, option_text(text)),
{
}

/// Of two texts one stands before the other or they are the same, and which it is is told.
pub proof fn law_texts_are_ordered(a: &str, b: &str, order: TextOrder, same: bool)
    requires
        call_ensures(text_order, (a, b), order),
        call_ensures(same_text, (a, b), same),
    ensures
        same <==> a@ == b@,
        order is Same <==> a@ == b@,
        order is Before <==> text_before(a@, b@),
        order is After <==> text_before(b@, a@),
{
}

/// Where nothing is said of it, breakpoints are placed automatically; and a new agent has opened
/// no session.
pub proof fn law_beginnings(
    cache_mode: AnthropicPromptCacheMode,
    settings: EchoSettings,
    agent: EchoAgent,
)
    requires
        call_ensures(AnthropicPromptCacheMode::default, (), cache_mode),
        call_ensures(EchoAgent::new, (settings,), agent),
    ensures
        cache_mode == AnthropicPromptCacheMode::Automatic,
        agent.settings == settings,
        agent.session_counter == 0,
{
}

} // verus!
