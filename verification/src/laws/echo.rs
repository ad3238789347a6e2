//! Laws of numbers in text and of the echo agent.

use vstd::prelude::*;

use crate::echo_agent::{BodyStream, EchoAgent, StreamStep};

verus! {

use crate::echo_agent::{
    action_for,
    answer,
    chunk_size,
    incoming_in,
    markdown,
    markdown_block,
    paragraph,
    plain_sentence,
    prompt_text,
    stepped,
    EchoActionView,
    StreamStepView,
};
use crate::number::{decimal, digit, digits_value, is_digit, number_digits, number_in};

/// The decimal notation of a number consists of digits and denotes the number.
pub proof fn law_decimal_denotes_number(number: nat)
    ensures
        decimal(number).len() > 0,
        forall|k: int| 0 <= k < decimal(number).len() ==> is_digit(#[trigger] decimal(number)[k]),
        digits_value(decimal(number)) == number,
    decreases number,
{
    if number < 10 {
        let text = decimal(number);
        assert(text.drop_last() =~= Seq::empty());
        assert(digits_value(text.drop_last()) == 0);
        assert(text.last() == digit(number));
    } else {
        law_decimal_denotes_number(number / 10);
        let text = decimal(number);
        let front = decimal(number / 10);
        assert(text.drop_last() =~= front);
        assert(text.last() == digit(number % 10));
        assert forall|k: int| 0 <= k < text.len() implies is_digit(#[trigger] text[k]) by {
            if k < front.len() {
                assert(is_digit(front[k]));
            }
        }
    }
}

/// A number that is written in decimal notation is read back.
pub proof fn law_number_is_read_back(number: u64)
    ensures
        number_in(decimal(number as nat)) == Some(number),
{
    law_decimal_denotes_number(number as nat);
    let text = decimal(number as nat);
    assert(is_digit(text[0]));
    assert(number_digits(text) == text);
}

/// The ids of two sessions differ.
pub proof fn law_session_ids_differ(first: nat, second: nat)
    requires
        first != second,
    ensures
        "echo-"@ + decimal(first) != "echo-"@ + decimal(second),
{
    law_decimal_denotes_number(first);
    law_decimal_denotes_number(second);
    let a = "echo-"@ + decimal(first);
    let b = "echo-"@ + decimal(second);
    if a == b {
        assert(decimal(first) =~= a.skip("echo-"@.len() as int));
        assert(decimal(second) =~= b.skip("echo-"@.len() as int));
    }
}

/// The chunks in which a body is streamed.
pub open spec fn chunks(body: Seq<char>, chunk_chars: nat) -> Seq<Seq<char>>
    decreases body.len(),
{
    if body.len() == 0 || chunk_chars == 0 {
        Seq::empty()
    } else {
        let size = chunk_size(body.len(), chunk_chars) as int;
        seq![body.take(size)] + chunks(body.skip(size), chunk_chars)
    }
}

/// The chunks put together.
pub open spec fn joined(chunks: Seq<Seq<char>>) -> Seq<char>
    decreases chunks.len(),
{
    if chunks.len() == 0 {
        Seq::empty()
    } else {
        chunks.first() + joined(chunks.drop_first())
    }
}

/// The chunks put together are the body. None is empty, and none is longer than asked for.
pub proof fn law_chunks_make_up_the_body(body: Seq<char>, chunk_chars: nat)
    requires
        chunk_chars > 0,
    ensures
        joined(chunks(body, chunk_chars)) == body,
        forall|k: int|
            0 <= k < chunks(body, chunk_chars).len() ==> 0 < (#[trigger] chunks(
                body,
                chunk_chars,
            )[k]).len() <= chunk_chars,
    decreases body.len(),
{
    if body.len() > 0 {
        let size = chunk_size(body.len(), chunk_chars) as int;
        law_chunks_make_up_the_body(body.skip(size), chunk_chars);
        let all = chunks(body, chunk_chars);
        let later = chunks(body.skip(size), chunk_chars);
        assert(all.drop_first() =~= later);
        assert(all.first() == body.take(size));
        assert(body.take(size) + body.skip(size) =~= body);
        assert forall|k: int| 0 <= k < all.len() implies 0 < (#[trigger] all[k]).len()
            <= chunk_chars by {
            if k > 0 {
                assert(all[k] == later[k - 1]);
            }
        }
    } else {
        assert(body =~= Seq::empty());
    }
}

/// Whether a stream was taken through `streams` by the steps, one after the other; `cancelled[i]`
/// says whether the turn was cancelled at step `i`.
pub open spec fn taken_through(
    streams: Seq<BodyStream>,
    cancelled: Seq<bool>,
    steps: Seq<StreamStep>,
) -> bool {
    &&& streams.len() == steps.len() + 1
    &&& cancelled.len() == steps.len()
    &&& forall|i: int|
        0 <= i < steps.len() ==> stepped(
            streams[i],
            cancelled[i],
            (#[trigger] steps[i])@,
            streams[i + 1],
        )
}

/// A body is sent in its chunks, in order, and then the turn ends: the first `count` steps, at none
/// of which the turn was cancelled, send the first `count` chunks, and end the turn once all have
/// been sent. Where the turn is cancelled at the step after these, it is over; as cancelled, if a
/// chunk was left to send.
pub proof fn law_body_is_sent_in_chunks(
    streams: Seq<BodyStream>,
    cancelled: Seq<bool>,
    steps: Seq<StreamStep>,
    count: int,
)
    requires
        taken_through(streams, cancelled, steps),
        streams[0].chunk_chars() > 0,
        0 <= count <= steps.len(),
        forall|i: int| 0 <= i < count ==> !#[trigger] cancelled[i],
    ensures
        ({
            let all = chunks(streams[0].rest(), streams[0].chunk_chars() as nat);
            &&& forall|k: int|
                0 <= k < count ==> (#[trigger] steps[k])@ == if k < all.len() {
                    StreamStepView::Chunk(all[k])
                } else {
                    StreamStepView::Stop("end_turn"@)
                }
            &&& count < steps.len() && cancelled[count] ==> steps[count]@ == StreamStepView::Stop(
                if count < all.len() {
                    "cancelled"@
                } else {
                    "end_turn"@
                },
            )
        }),
    decreases count,
{
    let chunk_chars = streams[0].chunk_chars() as nat;
    let body = streams[0].rest();
    let all = chunks(body, chunk_chars);
    if count > 0 {
        let later_streams = streams.skip(1);
        let later_cancelled = cancelled.skip(1);
        let later_steps = steps.skip(1);
        assert(stepped(streams[0], cancelled[0], steps[0]@, streams[1]));
        assert forall|i: int| 0 <= i < later_steps.len() implies stepped(
            later_streams[i],
            later_cancelled[i],
            (#[trigger] later_steps[i])@,
            later_streams[i + 1],
        ) by {
            assert(later_steps[i] == steps[i + 1]);
        }
        assert forall|i: int| 0 <= i < count - 1 implies !#[trigger] later_cancelled[i] by {
            assert(later_cancelled[i] == cancelled[i + 1]);
        }
        law_body_is_sent_in_chunks(later_streams, later_cancelled, later_steps, count - 1);
        let later = chunks(streams[1].rest(), chunk_chars);
        if body.len() > 0 {
            assert(all =~= seq![all[0]] + later);
        } else {
            assert(streams[1].rest().len() == 0);
        }
        assert forall|k: int| 0 <= k < count implies (#[trigger] steps[k])@ == if k < all.len() {
            StreamStepView::Chunk(all[k])
        } else {
            StreamStepView::Stop("end_turn"@)
        } by {
            if k > 0 {
                assert(later_steps[k - 1] == steps[k]);
            }
        }
        if count < steps.len() {
            assert(later_steps[count - 1] == steps[count]);
        }
    } else if steps.len() > 0 {
        assert(stepped(streams[0], cancelled[0], steps[0]@, streams[1]));
    }
}

/// Step `k` of streaming a body sends the characters from `k` times the size that is asked for on,
/// exactly as many as are asked for where that many are left and else all that are left; and where
/// none are left it ends the turn.
pub proof fn law_steps_send_the_body(
    streams: Seq<BodyStream>,
    cancelled: Seq<bool>,
    steps: Seq<StreamStep>,
    k: int,
)
    requires
        taken_through(streams, cancelled, steps),
        streams[0].chunk_chars() > 0,
        0 <= k < steps.len(),
        forall|i: int| 0 <= i <= k ==> !#[trigger] cancelled[i],
    ensures
        ({
            let body = streams[0].rest();
            let size = streams[0].chunk_chars() as int;
            match steps[k] {
                StreamStep::Chunk(chunk) => is_chunk(body, size, k, chunk@),
                StreamStep::Stop(reason) => k * size >= body.len() && reason@ == "end_turn"@,
            }
        }),
{
    let body = streams[0].rest();
    let size = streams[0].chunk_chars() as int;
    let all = chunks(body, size as nat);
    law_body_is_sent_in_chunks(streams, cancelled, steps, k + 1);
    law_chunks_have_the_size_asked_for(body, size as nat);
    assert(steps[k]@ == if k < all.len() {
        StreamStepView::Chunk(all[k])
    } else {
        StreamStepView::Stop("end_turn"@)
    });
    if k >= all.len() {
        let length = body.len() as int;
        let count = (length + size - 1) / size;
        assert(count * size >= length) by (nonlinear_arith)
            requires
                count == (length + size - 1) / size,
                size > 0,
        ;
        assert(k * size >= count * size) by (nonlinear_arith)
            requires
                k >= count,
                size > 0,
        ;
    }
}

/// How many characters of a body of `length` characters have been sent after `count` chunks.
pub open spec fn sent_after(length: int, chunk_chars: int, count: int) -> int {
    if count * chunk_chars < length {
        count * chunk_chars
    } else {
        length
    }
}

/// Whether `chunk` is chunk `k` of a body: the characters from `k` times `size` on, `size` of them
/// or as many as are left.
pub open spec fn is_chunk(body: Seq<char>, size: int, k: int, chunk: Seq<char>) -> bool {
    &&& k * size < body.len()
    &&& chunk == body.subrange(k * size, sent_after(body.len() as int, size, k + 1))
}

/// Chunk `k` of a body is made of the characters from `k` times the size that is asked for on, as
/// many as are asked for, or as many as are left. So every chunk but the last has exactly the size
/// that is asked for, and there are as many chunks as it takes, and no more.
pub proof fn law_chunks_have_the_size_asked_for(body: Seq<char>, chunk_chars: nat)
    requires
        chunk_chars > 0,
    ensures
        ({
            let all = chunks(body, chunk_chars);
            let size = chunk_chars as int;
            &&& all.len() == (body.len() + chunk_chars - 1) / size
            &&& forall|k: int|
                0 <= k < all.len() ==> is_chunk(body, size, k, #[trigger] all[k])
            &&& forall|k: int| 0 <= k < all.len() - 1 ==> (#[trigger] all[k]).len() == chunk_chars
        }),
    decreases body.len(),
{
    let all = chunks(body, chunk_chars);
    let size = chunk_chars as int;
    let length = body.len() as int;
    if length > 0 {
        let first = chunk_size(body.len(), chunk_chars) as int;
        let rest = body.skip(first);
        let later = chunks(rest, chunk_chars);
        law_chunks_have_the_size_asked_for(rest, chunk_chars);
        assert(all =~= seq![body.take(first)] + later);
        assert(all.len() == (length + size - 1) / size) by {
            if length <= size {
                assert(rest.len() == 0);
                assert(later.len() == 0);
                assert((length + size - 1) / size == 1) by (nonlinear_arith)
                    requires
                        0 < length <= size,
                ;
            } else {
                assert((length + size - 1) / size == 1 + (length - size + size - 1) / size)
                    by (nonlinear_arith)
                    requires
                        0 < size < length,
                ;
            }
        }
        assert forall|k: int| 0 <= k < all.len() implies is_chunk(
            body,
            size,
            k,
            #[trigger] all[k],
        ) by {
            assert(0 * size == 0 && 1 * size == size);
            if k == 0 {
                assert(all[0] =~= body.subrange(0, sent_after(length, size, 1)));
            } else {
                assert(all[k] == later[k - 1]);
                assert(is_chunk(rest, size, k - 1, later[k - 1]));
                assert(later.len() > 0 && rest.len() > 0);
                assert(first == size);
                assert((k - 1) * size == k * size - size) by (nonlinear_arith);
                assert((k + 1) * size == k * size + size) by (nonlinear_arith);
                assert((k - 1) * size < rest.len());
                let from = k * size;
                let upto = sent_after(length, size, k + 1);
                assert(0 <= (k - 1) * size) by (nonlinear_arith)
                    requires
                        k >= 1,
                        size > 0,
                ;
                assert(sent_after(length - size, size, k) == upto - size);
                assert(rest.subrange(from - size, upto - size) =~= body.subrange(from, upto));
            }
        }
        assert forall|k: int| 0 <= k < all.len() - 1 implies (#[trigger] all[k]).len()
            == chunk_chars by {
            assert(is_chunk(body, size, k, all[k]));
            assert(is_chunk(body, size, k + 1, all[k + 1]));
            assert((k + 1) * size == k * size + size) by (nonlinear_arith);
            assert(0 <= k * size) by (nonlinear_arith)
                requires
                    k >= 0,
                    size > 0,
            ;
        }
    } else {
        assert((length + size - 1) / size == 0) by (nonlinear_arith)
            requires
                length == 0,
                size > 0,
        ;
    }
}

/// Each block of the made-up markdown document ends in a blank line.
pub proof fn law_blocks_end_in_blank_line(i: nat)
    ensures
        markdown_block(i).len() >= 2,
        markdown_block(i).skip(markdown_block(i).len() - 2) == seq!['\n', '\n'],
{
    reveal_strlit("\n\n");
    reveal_strlit(" with some **bold**, _italic_, `inline code`, and a [link](https://example.com) plus enough filler words to wrap across the agent panel a couple of times over.\n\n");
    reveal_strlit(" c\n\n");
    reveal_strlit("; x * 2 + 1 }\n```\n\n");
    reveal_strlit(" that wraps a little when the panel is narrow enough\n\n");
    let block = markdown_block(i);
    assert(block.skip(block.len() - 2) =~= seq!['\n', '\n']);
}

/// A longer made-up document begins with every shorter one.
pub proof fn law_longer_document_continues_shorter(fewer: nat, more: nat)
    requires
        fewer <= more,
    ensures
        markdown(fewer).is_prefix_of(markdown(more)),
        paragraph(fewer).is_prefix_of(paragraph(more)),
    decreases more,
{
    if fewer < more {
        law_longer_document_continues_shorter(fewer, (more - 1) as nat);
        let before = markdown((more - 1) as nat);
        assert(markdown(fewer) =~= markdown(more).subrange(0, markdown(fewer).len() as int)) by {
            assert(markdown(fewer) =~= before.subrange(0, markdown(fewer).len() as int));
        }
        let earlier = paragraph((more - 1) as nat);
        assert(paragraph(fewer) =~= paragraph(more).subrange(0, paragraph(fewer).len() as int))
            by {
            assert(paragraph(fewer) =~= earlier.subrange(0, paragraph(fewer).len() as int));
        }
    } else {
        assert(markdown(fewer) =~= markdown(fewer).subrange(0, markdown(fewer).len() as int));
        assert(paragraph(fewer) =~= paragraph(fewer).subrange(0, paragraph(fewer).len() as int));
    }
}

/// Whether the text holds no line break.
pub open spec fn one_line(text: Seq<char>) -> bool {
    forall|k: int| 0 <= k < text.len() ==> (#[trigger] text[k]) != '\n'
}

proof fn lemma_sentence_is_one_line(i: nat)
    ensures
        one_line(plain_sentence(i)),
{
    reveal_strlit("This is plain sentence number ");
    reveal_strlit(" with a handful of perfectly ordinary words and no markdown structure whatsoever to speak of here.");
    law_decimal_denotes_number(i);
    let first = "This is plain sentence number "@;
    let last = " with a handful of perfectly ordinary words and no markdown structure whatsoever to speak of here."@;
    let n = decimal(i);
    assert(one_line(first));
    assert(one_line(last));
    let text = plain_sentence(i);
    assert forall|k: int| 0 <= k < text.len() implies (#[trigger] text[k]) != '\n' by {
        if k < first.len() {
            assert(text[k] == first[k]);
        } else if k < first.len() + n.len() {
            assert(text[k] == n[k - first.len()]);
            assert(is_digit(n[k - first.len()]));
        } else {
            assert(text[k] == last[k - first.len() - n.len()]);
        }
    }
}

/// The made-up paragraph is one line.
pub proof fn law_paragraph_is_one_line(lines: nat)
    ensures
        one_line(paragraph(lines)),
    decreases lines,
{
    if lines > 0 {
        law_paragraph_is_one_line((lines - 1) as nat);
        lemma_sentence_is_one_line((lines - 1) as nat);
        let earlier = paragraph((lines - 1) as nat);
        let sentence = plain_sentence((lines - 1) as nat);
        let text = paragraph(lines);
        assert forall|k: int| 0 <= k < text.len() implies (#[trigger] text[k]) != '\n' by {
            if lines == 1 {
                assert(text[k] == sentence[k]);
            } else if k < earlier.len() {
                assert(text[k] == earlier[k]);
            } else if k > earlier.len() {
                assert(text[k] == sentence[k - earlier.len() - 1]);
            }
        }
    }
}

/// A line that prompts the agent is answered. Where the prompt is to be echoed once and has a
/// text, the answer is that text; where a document is asked for, the prompt does not matter.
pub proof fn law_prompt_comes_back(agent: EchoAgent, line: Seq<char>, other: Seq<char>)
    requires
        incoming_in(line) is Some,
        incoming_in(line)->0.calls("session/prompt"@),
    ensures
        ({
            let text = prompt_text(incoming_in(line)->0.prompt);
            let action = action_for(agent, incoming_in(line)->0);
            &&& action == (EchoActionView::Stream { body: answer(agent.settings, text) })
            &&& answer(agent.settings, text).len() > 0
            &&& agent.settings.lines == 0 && agent.settings.repeat == 1 && text.len() > 0
                ==> answer(agent.settings, text) == text
            &&& agent.settings.lines > 0 ==> answer(agent.settings, text) == answer(
                agent.settings,
                other,
            )
        }),
{
    reveal_strlit("initialize");
    reveal_strlit("authenticate");
    reveal_strlit("session/new");
    reveal_strlit("session/prompt");
    reveal_strlit("_(echo: empty prompt)_");
    let lines = agent.settings.lines as nat;
    if lines > 0 {
        law_blocks_end_in_blank_line((lines - 1) as nat);
        law_decimal_denotes_number((lines - 1) as nat);
    }
    assert("session/prompt"@.len() != "initialize"@.len());
    assert("session/prompt"@.len() != "authenticate"@.len());
    assert("session/prompt"@.len() != "session/new"@.len());
}

} // verus!
