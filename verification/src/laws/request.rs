//! Laws of what a request holds beside the conversation.

use vstd::prelude::*;

use crate::anthropic::{
    AdaptiveThinkingDisplay,
    AnthropicModelMode,
    CacheControl,
    CacheControlType,
    CacheTtl,
    Effort,
    OutputConfig,
    Request,
    Speed,
    Thinking,
    ToolChoice,
};
use crate::completion::AnthropicPromptCacheMode;
use crate::language_model;
use crate::language_model::{
    LanguageModelRequest,
    LanguageModelRequestMessage,
    LanguageModelToolChoice,
};

verus! {

use crate::anthropic::StringOrContentsView;
use crate::completion::{caching, system_prompt};
use crate::laws::content::becomes;
use crate::laws::placement::wants_caching;

/// Whether the message is a system prompt that is not skipped.
pub open spec fn prompts_system(message: LanguageModelRequestMessage) -> bool {
    !message.contents_empty && message.role == language_model::Role::System
}

/// The texts of the system prompts among the messages, in order.
pub open spec fn system_texts(messages: Seq<LanguageModelRequestMessage>) -> Seq<Seq<char>> {
    let prompts = messages.filter(|message: LanguageModelRequestMessage| prompts_system(message));
    Seq::new(prompts.len(), |k: int| prompts[k].string_contents@)
}

/// The texts, each after a blank line.
pub open spec fn after_blank_lines(texts: Seq<Seq<char>>) -> Seq<char>
    decreases texts.len(),
{
    if texts.len() == 0 {
        Seq::empty()
    } else {
        seq!['\n', '\n'] + texts.first() + after_blank_lines(texts.drop_first())
    }
}

/// The texts with a blank line between any two; empty texts at the beginning do not count.
pub open spec fn with_blank_lines(texts: Seq<Seq<char>>) -> Seq<char>
    decreases texts.len(),
{
    if texts.len() == 0 {
        Seq::empty()
    } else if texts.first().len() == 0 {
        with_blank_lines(texts.drop_first())
    } else {
        texts.first() + after_blank_lines(texts.drop_first())
    }
}

proof fn lemma_after_blank_lines(texts: Seq<Seq<char>>, text: Seq<char>)
    ensures
        after_blank_lines(texts.push(text)) == after_blank_lines(texts) + seq!['\n', '\n'] + text,
    decreases texts.len(),
{
    let all = texts.push(text);
    reveal_with_fuel(after_blank_lines, 2);
    if texts.len() == 0 {
        assert(all.drop_first() =~= Seq::empty());
        assert(after_blank_lines(all) =~= after_blank_lines(texts) + seq!['\n', '\n'] + text);
    } else {
        lemma_after_blank_lines(texts.drop_first(), text);
        assert(all.drop_first() =~= texts.drop_first().push(text));
        assert(after_blank_lines(all) =~= after_blank_lines(texts) + seq!['\n', '\n'] + text);
    }
}

proof fn lemma_with_blank_lines(texts: Seq<Seq<char>>, text: Seq<char>)
    ensures
        with_blank_lines(texts.push(text)) == if with_blank_lines(texts).len() == 0 {
            text
        } else {
            with_blank_lines(texts) + seq!['\n', '\n'] + text
        },
    decreases texts.len(),
{
    let all = texts.push(text);
    if texts.len() == 0 {
        reveal_with_fuel(with_blank_lines, 2);
        assert(all.drop_first() =~= Seq::empty());
        assert(after_blank_lines(all.drop_first()) =~= Seq::empty());
        assert(with_blank_lines(all) =~= text);
    } else {
        assert(all.drop_first() =~= texts.drop_first().push(text));
        if texts.first().len() == 0 {
            lemma_with_blank_lines(texts.drop_first(), text);
        } else {
            lemma_after_blank_lines(texts.drop_first(), text);
            assert(with_blank_lines(all) =~= with_blank_lines(texts) + seq!['\n', '\n'] + text);
        }
    }
}

/// The system prompt is made of the texts of all system messages that are not skipped and of
/// nothing else, in order, with a blank line between any two.
pub proof fn law_system_prompt(messages: Seq<LanguageModelRequestMessage>)
    ensures
        system_prompt(messages) == with_blank_lines(system_texts(messages)),
    decreases messages.len(),
{
    reveal(Seq::filter);
    reveal_strlit("\n\n");
    if messages.len() == 0 {
        assert(system_texts(messages) =~= Seq::empty());
    } else {
        let earlier = messages.drop_last();
        let message = messages.last();
        law_system_prompt(earlier);
        if prompts_system(message) {
            lemma_with_blank_lines(system_texts(earlier), message.string_contents@);
            assert(system_texts(messages) =~= system_texts(earlier).push(message.string_contents@));
            assert("\n\n"@ =~= seq!['\n', '\n']);
        } else {
            assert(system_texts(messages) =~= system_texts(earlier));
        }
    }
}

/// The breakpoint that lives for an hour.
pub open spec fn hour_long_breakpoint() -> Option<CacheControl> {
    Some(CacheControl { cache_type: CacheControlType::Ephemeral, ttl: Some(CacheTtl::OneHour) })
}

/// The system prompt is sent where there is one, as a single block with an hour-long breakpoint
/// where the request wants caching and as a plain text where it does not.
pub proof fn law_system_is_sent<T>(
    request: LanguageModelRequest<T>,
    model: String,
    default_temperature: T,
    max_output_tokens: u64,
    mode: AnthropicModelMode,
    cache_mode: AnthropicPromptCacheMode,
    result: Request<T>,
)
    requires
        becomes(
            request,
            model,
            default_temperature,
            max_output_tokens,
            mode,
            cache_mode,
            result,
        ),
    ensures
        ({
            let system = result@.system;
            let prompt = with_blank_lines(system_texts(request.messages@));
            &&& system is Some <==> prompt.len() > 0
            &&& match system {
                Some(StringOrContentsView::String(text)) => text == prompt && !wants_caching(
                    request.messages@,
                    cache_mode,
                ),
                Some(StringOrContentsView::Content(blocks)) => {
                    &&& wants_caching(request.messages@, cache_mode)
                    &&& blocks.len() == 1
                    &&& blocks[0] is Text
                    &&& blocks[0]->Text_text == prompt
                    &&& blocks[0]->Text_cache_control == hour_long_breakpoint()
                },
                None => true,
            }
        }),
{
    law_system_prompt(request.messages@);
    assert(caching(request.messages@, cache_mode) == wants_caching(request.messages@, cache_mode));
}

/// Every tool is offered, in order and as it is described. Where the request wants caching and has
/// no system prompt the last one carries an hour-long breakpoint; no other ever carries one.
pub proof fn law_tools_are_offered<T>(
    request: LanguageModelRequest<T>,
    model: String,
    default_temperature: T,
    max_output_tokens: u64,
    mode: AnthropicModelMode,
    cache_mode: AnthropicPromptCacheMode,
    result: Request<T>,
)
    requires
        becomes(
            request,
            model,
            default_temperature,
            max_output_tokens,
            mode,
            cache_mode,
            result,
        ),
    ensures
        ({
            let tools = result@.tools;
            let prompt = with_blank_lines(system_texts(request.messages@));
            &&& tools.len() == request.tools@.len()
            &&& forall|i: int|
                0 <= i < tools.len() ==> {
                    let tool = #[trigger] tools[i];
                    &&& tool.name == request.tools@[i].name@
                    &&& tool.description == request.tools@[i].description@
                    &&& tool.input_schema == request.tools@[i].input_schema
                    &&& tool.eager_input_streaming == request.tools@[i].use_input_streaming
                    &&& tool.cache_control == if i == tools.len() - 1 && prompt.len() == 0
                        && wants_caching(request.messages@, cache_mode) {
                        hour_long_breakpoint()
                    } else {
                        None
                    }
                }
        }),
{
    law_system_prompt(request.messages@);
    assert(caching(request.messages@, cache_mode) == wants_caching(request.messages@, cache_mode));
}

/// The known levels of effort and their names.
pub open spec fn effort_has_name(effort: Effort, name: Seq<char>) -> bool {
    match effort {
        Effort::Low => name == "low"@,
        Effort::Medium => name == "medium"@,
        Effort::High => name == "high"@,
        Effort::XHigh => name == "xhigh"@,
        Effort::Max => name == "max"@,
    }
}

/// How the model is to think, and with which effort: only where thinking is allowed and the mode
/// is one in which the model thinks. The budget is that of the mode. Adaptive thinking is shown as
/// a summary, and the effort is sent along with it and with nothing else, if its name is known.
pub proof fn law_thinking<T>(
    request: LanguageModelRequest<T>,
    model: String,
    default_temperature: T,
    max_output_tokens: u64,
    mode: AnthropicModelMode,
    cache_mode: AnthropicPromptCacheMode,
    result: Request<T>,
    effort: Effort,
)
    requires
        becomes(
            request,
            model,
            default_temperature,
            max_output_tokens,
            mode,
            cache_mode,
            result,
        ),
    ensures
        ({
            let sent = result@;
            let adaptive = request.thinking_allowed && mode is AdaptiveThinking;
            &&& sent.thinking is None <==> (!request.thinking_allowed || mode is Default)
            &&& sent.thinking is Some ==> match sent.thinking->0 {
                Thinking::Enabled { budget_tokens } => mode == (AnthropicModelMode::Thinking {
                    budget_tokens,
                }),
                Thinking::Adaptive { display } => mode is AdaptiveThinking && display == Some(
                    AdaptiveThinkingDisplay::Summarized,
                ),
            }
            &&& sent.output_config == Some(OutputConfig { effort: Some(effort) }) <==> (adaptive
                && request.thinking_effort is Some && effort_has_name(
                effort,
                request.thinking_effort->0@,
            ))
            &&& sent.output_config is Some ==> sent.output_config->0.effort is Some
        }),
{
    reveal_strlit("low");
    reveal_strlit("medium");
    reveal_strlit("high");
    reveal_strlit("xhigh");
    reveal_strlit("max");
    assert("low"@ != "max"@) by {
        assert("low"@[0] != "max"@[0]);
    }
    assert("low"@.len() == 3 && "medium"@.len() == 6 && "high"@.len() == 4 && "xhigh"@.len() == 5);
}

/// What else a request holds: the model and the limit as they are given, the choice of tools, the
/// speed and the temperature that are asked for, the default temperature where none is, and
/// nothing that is not asked for.
pub proof fn law_rest_of_request<T>(
    request: LanguageModelRequest<T>,
    model: String,
    default_temperature: T,
    max_output_tokens: u64,
    mode: AnthropicModelMode,
    cache_mode: AnthropicPromptCacheMode,
    result: Request<T>,
)
    requires
        becomes(
            request,
            model,
            default_temperature,
            max_output_tokens,
            mode,
            cache_mode,
            result,
        ),
    ensures
        ({
            let sent = result@;
            &&& sent.model == model@
            &&& sent.max_tokens == max_output_tokens
            &&& request.temperature is Some ==> sent.temperature == request.temperature
            &&& request.temperature is None ==> sent.temperature == Some(default_temperature)
            &&& match request.tool_choice {
                Some(LanguageModelToolChoice::Auto) => sent.tool_choice == Some(ToolChoice::Auto),
                Some(LanguageModelToolChoice::Any) => sent.tool_choice == Some(ToolChoice::Any),
                Some(LanguageModelToolChoice::Never) => sent.tool_choice == Some(ToolChoice::Never),
                None => sent.tool_choice is None,
            }
            &&& match request.speed {
                Some(language_model::Speed::Standard) => sent.speed == Some(Speed::Standard),
                Some(language_model::Speed::Fast) => sent.speed == Some(Speed::Fast),
                None => sent.speed is None,
            }
            &&& sent.cache_control is None
            &&& sent.metadata is None
            &&& sent.stop_sequences.len() == 0
            &&& sent.top_k is None
            &&& sent.top_p is None
        }),
{
}

} // verus!
