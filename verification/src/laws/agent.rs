//! Laws of what the echo agent reads, decides and answers.

use vstd::prelude::*;

use crate::echo_agent::{EchoAgent, EchoSettings, METHOD_NOT_FOUND, PROTOCOL_VERSION};

verus! {

use crate::echo_agent::{
    action_for,
    answer,
    at_least_one,
    incoming_in,
    markdown,
    markdown_block,
    paragraph,
    plain_sentence,
    prompt_text,
    repeated,
    setting,
    IncomingView,
    PromptBlockView,
};
use crate::json::{addressed_by, characters_of, document_in, elements_of, member_of};
use crate::laws::echo::{law_blocks_end_in_blank_line, law_decimal_denotes_number};
use crate::laws::text::{blank, law_trimming};
use crate::number::{decimal, number_in};
use crate::text::trimmed;

/// A setting is the number that it holds; one that is not set, or holds no number, has its
/// default. A number that is to be at least one is one where it would be zero.
pub proof fn law_settings(value: Option<&str>, default: u64, number: u64)
    ensures
        value is None ==> setting(value, default) == default,
        value is Some && number_in(value->0@) is None ==> setting(value, default) == default,
        value is Some && number_in(value->0@) == Some(number) ==> setting(value, default) == number,
        number > 0 ==> at_least_one(number) == number,
        at_least_one(0) == 1,
{
}

/// Whether `text` is the text under `key`, and absent where there is none that is a string.
pub open spec fn is_text_under(
    value: serde_json::Value,
    key: Seq<char>,
    text: Option<Seq<char>>,
) -> bool {
    let member = member_of(value, key);
    if member is Some && characters_of(member->0) is Some {
        text == characters_of(member->0)
    } else {
        text is None
    }
}

/// A line holds a message if and only if it is not blank and holds a JSON document. The message
/// calls the method under `method`, has an id where there is anything under `id`, and prompts with
/// the blocks under `params` and `prompt`, all of them and in order, each with its type and text.
pub proof fn law_line_is_read(line: Seq<char>)
    ensures
        incoming_in(line) is Some <==> !blank(line) && document_in(line) is Some,
        incoming_in(line) is Some ==> {
            let message = document_in(line)->0;
            let read = incoming_in(line)->0;
            let found = addressed_by(message, "/params/prompt"@);
            &&& read.message == message
            &&& is_text_under(message, "method"@, read.method)
            &&& read.has_id <==> member_of(message, "id"@) is Some
            &&& if found is Some && elements_of(found->0) is Some {
                let blocks = elements_of(found->0)->0;
                &&& read.prompt.len() == blocks.len()
                &&& forall|k: int|
                    0 <= k < blocks.len() ==> {
                        let block = #[trigger] read.prompt[k];
                        &&& is_text_under(blocks[k], "type"@, block.kind)
                        &&& is_text_under(blocks[k], "text"@, block.text)
                    }
            } else {
                read.prompt.len() == 0
            }
        },
{
    law_trimming(line);
    let (before, after) = choose|before: Seq<char>, after: Seq<char>|
        line == #[trigger] (before + trimmed(line) + after) && blank(before) && blank(after);
    let middle = trimmed(line);
    let n = before.len() as int;
    if middle.len() == 0 {
        assert forall|k: int| 0 <= k < line.len() implies crate::text::white_space(
            #[trigger] line[k],
        ) by {
            if k < n {
                assert(line[k] == before[k]);
            } else {
                assert(line[k] == after[k - n]);
            }
        }
    } else {
        assert(line[n] == middle[0]);
    }
}

/// A message calls the method that it names, and no other.
pub proof fn law_method_is_called(incoming: IncomingView, method: Seq<char>)
    ensures
        incoming.calls(method) <==> incoming.method is Some && incoming.method->0 == method,
{
}

/// The text of a prompt is made of the texts of its blocks of text, in order; other blocks add
/// nothing to it.
pub proof fn law_prompt_text(
    first: Seq<PromptBlockView>,
    second: Seq<PromptBlockView>,
    block: PromptBlockView,
)
    ensures
        prompt_text(first + second) == prompt_text(first) + prompt_text(second),
        prompt_text(Seq::empty()).len() == 0,
        block.kind is Some && block.kind->0 == "text"@ && block.text is Some ==> prompt_text(
            seq![block],
        ) == block.text->0,
        block.kind is None || block.kind->0 != "text"@ || block.text is None ==> prompt_text(
            seq![block],
        ).len() == 0,
    decreases second.len(),
{
    reveal_with_fuel(prompt_text, 2);
    assert(seq![block].drop_last() =~= Seq::empty());
    if block.text is Some {
        assert(Seq::<char>::empty() + block.text->0 =~= block.text->0);
    }
    if second.len() == 0 {
        assert(first + second =~= first);
        assert(prompt_text(first) + prompt_text(second) =~= prompt_text(first));
    } else {
        law_prompt_text(first, second.drop_last(), block);
        assert((first + second).drop_last() =~= first + second.drop_last());
        assert(prompt_text(first + second) =~= prompt_text(first) + prompt_text(second));
    }
}

/// What the agent does about a message: each method that it knows has its own answer, whether or
/// not there is an id. A method that it does not know is answered where there is an id to answer
/// to, and a message without a method never is. Sessions are numbered from one on.
pub proof fn law_messages_are_answered(agent: EchoAgent, incoming: IncomingView)
    ensures
        ({
            let action = action_for(agent, incoming);
            let text = prompt_text(incoming.prompt);
            match incoming.method {
                None => action is Skip,
                Some(method) => {
                    &&& method == "initialize"@ <==> action is Initialize
                    &&& method == "authenticate"@ <==> action is Authenticate
                    &&& method == "session/new"@ <==> action is OpenSession
                    &&& method == "session/prompt"@ <==> action is Stream
                    &&& action is OpenSession ==> action->session_id == "echo-"@ + decimal(
                        (agent.session_counter + 1) as nat,
                    )
                    &&& action is Stream ==> action->body == answer(agent.settings, text)
                    &&& action is NotFound ==> incoming.has_id
                    &&& action is Skip ==> !incoming.has_id
                },
            }
        }),
{
    reveal_strlit("initialize");
    reveal_strlit("authenticate");
    reveal_strlit("session/new");
    reveal_strlit("session/prompt");
    assert("initialize"@.len() == 10 && "authenticate"@.len() == 12 && "session/new"@.len() == 11
        && "session/prompt"@.len() == 14);
}

/// The agent speaks the first version of the protocol, and says that it does not know a method as
/// JSON-RPC does.
pub proof fn law_protocol()
    ensures
        PROTOCOL_VERSION == 1,
        METHOD_NOT_FOUND == -32601,
{
}

/// Whether `body` is made of `times` copies of the text, with a blank line between any two.
pub open spec fn is_repeated(text: Seq<char>, times: int, body: Seq<char>) -> bool {
    let step = text.len() + 2;
    &&& body.len() == times * step - 2
    &&& forall|i: int, j: int|
        #![trigger body[i * step + j]]
        0 <= i < times && 0 <= j < text.len() ==> body[i * step + j] == text[j]
    &&& forall|i: int, j: int|
        #![trigger body[i * step + j]]
        0 <= i < times - 1 && text.len() <= j < step ==> body[i * step + j] == '\n'
}

proof fn lemma_repeated(text: Seq<char>, times: nat)
    requires
        times > 0,
    ensures
        is_repeated(text, times as int, repeated(text, times)),
    decreases times,
{
    let step = text.len() + 2;
    let n = times as int;
    let body = repeated(text, times);
    reveal_strlit("\n\n");
    if times == 1 {
        assert(1 * step == step);
        assert forall|i: int, j: int|
            #![trigger body[i * step + j]]
            0 <= i < n && 0 <= j < text.len() implies body[i * step + j] == text[j] by {
            assert(i == 0);
            assert(0 * step == 0);
        }
    } else {
        lemma_repeated(text, (times - 1) as nat);
        let before = repeated(text, (times - 1) as nat);
        assert(body == before + "\n\n"@ + text);
        assert((n - 1) * step == n * step - step) by (nonlinear_arith);
        assert(before.len() == (n - 1) * step - 2);
        assert forall|i: int, j: int|
            #![trigger body[i * step + j]]
            0 <= i < n && 0 <= j < text.len() implies body[i * step + j] == text[j] by {
            if i < n - 1 {
                assert(i * step + step <= (n - 1) * step) by (nonlinear_arith)
                    requires
                        0 <= i < n - 1,
                        step > 0,
                ;
                assert(0 <= i * step) by (nonlinear_arith)
                    requires
                        0 <= i,
                        step > 0,
                ;
                assert(before[i * step + j] == text[j]);
            } else {
                assert(i * step + j == before.len() + 2 + j);
            }
        }
        assert forall|i: int, j: int|
            #![trigger body[i * step + j]]
            0 <= i < n - 1 && text.len() <= j < step implies body[i * step + j] == '\n' by {
            assert(0 <= i * step) by (nonlinear_arith)
                requires
                    0 <= i,
                    step > 0,
            ;
            if i < n - 2 {
                assert(i * step + step <= (n - 2) * step) by (nonlinear_arith)
                    requires
                        0 <= i < n - 2,
                        step > 0,
                ;
                assert((n - 2) * step == (n - 1) * step - step) by (nonlinear_arith);
                assert(before[i * step + j] == '\n');
            } else {
                assert(i * step == before.len() + 2 - step) by {
                    assert(i == n - 2);
                    assert((n - 2) * step == (n - 1) * step - step) by (nonlinear_arith);
                }
                assert(i * step + j - before.len() == j - text.len());
            }
        }
    }
}

/// What is streamed in answer to a prompt. Where no document is asked for it is the prompt, as
/// often as it is to be echoed, with a blank line between any two copies, and a note in its place
/// where that leaves nothing. Where one is asked for the prompt does not matter: it is a document
/// of that many blocks, or of that many sentences where it is to be plain.
pub proof fn law_answer(settings: EchoSettings, prompt: Seq<char>)
    ensures
        ({
            let body = answer(settings, prompt);
            &&& settings.lines > 0 && settings.plain ==> body == paragraph(settings.lines as nat)
            &&& settings.lines > 0 && !settings.plain ==> body == markdown(settings.lines as nat)
            &&& settings.lines == 0 && settings.repeat > 0 && (prompt.len() > 0 || settings.repeat
                > 1) ==> is_repeated(prompt, settings.repeat as int, body)
            &&& settings.lines == 0 && (settings.repeat == 0 || prompt.len() == 0
                && settings.repeat == 1) ==> body == "_(echo: empty prompt)_"@
            &&& body.len() > 0
        }),
{
    reveal_strlit("_(echo: empty prompt)_");
    if settings.lines > 0 {
        law_blocks_end_in_blank_line((settings.lines - 1) as nat);
        law_decimal_denotes_number((settings.lines - 1) as nat);
    } else if settings.repeat > 0 {
        let step = prompt.len() + 2;
        lemma_repeated(prompt, settings.repeat as nat);
        if settings.repeat > 1 {
            assert(settings.repeat * step >= 2 * step) by (nonlinear_arith)
                requires
                    settings.repeat >= 2,
                    step >= 0,
            ;
        } else {
            assert(1 * step == step);
        }
    }
}

/// The blocks of the made-up document come in rounds of five: a heading, a paragraph, a list, a
/// code fence and a quote, each with its number in it.
pub proof fn law_blocks_of_document(round: nat)
    ensures
        markdown_block(5 * round) == "## Heading "@ + decimal(5 * round) + "\n\n"@,
        markdown_block(5 * round + 1) == "Paragraph "@ + decimal(5 * round + 1)
            + " with some **bold**, _italic_, `inline code`, and a [link](https://example.com) plus enough filler words to wrap across the agent panel a couple of times over.\n\n"@,
        markdown_block(5 * round + 2) == "- bullet "@ + decimal(5 * round + 2) + " a\n- bullet "@
            + decimal(5 * round + 2) + " b\n- bullet "@ + decimal(5 * round + 2) + " c\n\n"@,
        markdown_block(5 * round + 3) == "```rust\nfn block_"@ + decimal(5 * round + 3)
            + "() -> usize { let x = "@ + decimal(5 * round + 3) + "; x * 2 + 1 }\n```\n\n"@,
        markdown_block(5 * round + 4) == "> quote "@ + decimal(5 * round + 4)
            + " that wraps a little when the panel is narrow enough\n\n"@,
{
}

/// A document of `count` blocks holds block `i`, for each `i` below `count`, right after the
/// document of the `i` blocks before it, and nothing after the last block; a paragraph holds its
/// sentences in the same way, with a space between any two.
pub proof fn law_document_holds_its_blocks(count: nat, i: nat)
    requires
        i < count,
    ensures
        markdown(0).len() == 0,
        paragraph(0).len() == 0,
        exists|rest: Seq<char>|
            #![trigger markdown_block(i) + rest]
            markdown(count) == markdown(i) + (markdown_block(i) + rest) && (i + 1 == count
                ==> rest.len() == 0),
        exists|rest: Seq<char>|
            #![trigger plain_sentence(i) + rest]
            (if i == 0 {
                paragraph(count) == plain_sentence(i) + rest
            } else {
                paragraph(count) == paragraph(i).push(' ') + (plain_sentence(i) + rest)
            }) && (i + 1 == count ==> rest.len() == 0),
        plain_sentence(i) == "This is plain sentence number "@ + decimal(i)
            + " with a handful of perfectly ordinary words and no markdown structure whatsoever to speak of here."@,
    decreases count,
{
    if i + 1 == count {
        let none = Seq::<char>::empty();
        assert(markdown_block(i) + none =~= markdown_block(i));
        assert(plain_sentence(i) + none =~= plain_sentence(i));
    } else {
        let fewer = (count - 1) as nat;
        law_document_holds_its_blocks(fewer, i);
        let rest = choose|rest: Seq<char>|
            #![trigger markdown_block(i) + rest]
            markdown(fewer) == markdown(i) + (markdown_block(i) + rest) && (i + 1 == fewer
                ==> rest.len() == 0);
        let more = rest + markdown_block(fewer);
        assert(markdown(count) =~= markdown(i) + (markdown_block(i) + more));
        let tail = choose|rest: Seq<char>|
            #![trigger plain_sentence(i) + rest]
            (if i == 0 {
                paragraph(fewer) == plain_sentence(i) + rest
            } else {
                paragraph(fewer) == paragraph(i).push(' ') + (plain_sentence(i) + rest)
            }) && (i + 1 == fewer ==> rest.len() == 0);
        let longer = tail.push(' ') + plain_sentence(fewer);
        if i == 0 {
            assert(paragraph(count) =~= plain_sentence(i) + longer);
        } else {
            assert(paragraph(count) =~= paragraph(i).push(' ') + (plain_sentence(i) + longer));
        }
    }
}

} // verus!
