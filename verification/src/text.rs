//! Text helpers: whitespace, equality and order of strings.

use vstd::prelude::*;

verus! {

/// The characters with the Unicode property `White_Space`.
pub open spec fn white_space(c: char) -> bool {
    ||| '\u{9}' <= c <= '\u{d}'
    ||| c == '\u{20}'
    ||| c == '\u{85}'
    ||| c == '\u{a0}'
    ||| c == '\u{1680}'
    ||| '\u{2000}' <= c <= '\u{200a}'
    ||| c == '\u{2028}'
    ||| c == '\u{2029}'
    ||| c == '\u{202f}'
    ||| c == '\u{205f}'
    ||| c == '\u{3000}'
}

/// Whether `c` is whitespace.
pub fn is_white_space(c: char) -> (white: bool)
    ensures
        white == white_space(c),
{
    ('\u{9}' <= c && c <= '\u{d}') || c == '\u{20}' || c == '\u{85}' || c == '\u{a0}' || c
        == '\u{1680}' || ('\u{2000}' <= c && c <= '\u{200a}') || c == '\u{2028}' || c == '\u{2029}'
        || c == '\u{202f}' || c == '\u{205f}' || c == '\u{3000}'
}

/// `text` up to and with its last character that is no whitespace.
pub open spec fn trimmed_end(text: Seq<char>) -> Seq<char>
    decreases text.len(),
{
    if text.len() > 0 && white_space(text.last()) {
        trimmed_end(text.drop_last())
    } else {
        text
    }
}

/// `text` from its first character that is no whitespace on.
pub open spec fn trimmed_start(text: Seq<char>) -> Seq<char>
    decreases text.len(),
{
    if text.len() > 0 && white_space(text.first()) {
        trimmed_start(text.drop_first())
    } else {
        text
    }
}

/// `text` without the whitespace around it.
pub open spec fn trimmed(text: Seq<char>) -> Seq<char> {
    trimmed_start(trimmed_end(text))
}

proof fn lemma_trimmed_end_is(text: Seq<char>, end: int)
    requires
        0 <= end <= text.len(),
        end == 0 || !white_space(text[end - 1]),
        forall|k: int| end <= k < text.len() ==> white_space(#[trigger] text[k]),
    ensures
        trimmed_end(text) == text.take(end),
    decreases text.len(),
{
    if end < text.len() {
        assert(text.drop_last().take(end) =~= text.take(end));
        lemma_trimmed_end_is(text.drop_last(), end);
    } else {
        assert(text.take(end) =~= text);
    }
}

proof fn lemma_trimmed_start_is(text: Seq<char>, start: int)
    requires
        0 <= start <= text.len(),
        start == text.len() || !white_space(text[start]),
        forall|k: int| 0 <= k < start ==> white_space(#[trigger] text[k]),
    ensures
        trimmed_start(text) == text.skip(start),
    decreases text.len(),
{
    if start > 0 {
        assert(white_space(text[0]));
        assert(text.drop_first().skip(start - 1) =~= text.skip(start));
        lemma_trimmed_start_is(text.drop_first(), start - 1);
    } else {
        assert(text.skip(0) =~= text);
    }
}

/// A trimmed text is a beginning of the text and does not end in whitespace; what was cut off is
/// whitespace alone.
pub proof fn lemma_trimmed_end(text: Seq<char>)
    ensures
        trimmed_end(text).len() <= text.len(),
        trimmed_end(text) == text.take(trimmed_end(text).len() as int),
        trimmed_end(text).len() > 0 ==> !white_space(trimmed_end(text).last()),
        forall|k: int|
            trimmed_end(text).len() <= k < text.len() ==> white_space(#[trigger] text[k]),
    decreases text.len(),
{
    if text.len() > 0 && white_space(text.last()) {
        lemma_trimmed_end(text.drop_last());
        let end = trimmed_end(text).len() as int;
        assert(text.drop_last().take(end) =~= text.take(end));
        assert forall|k: int| end <= k < text.len() implies white_space(#[trigger] text[k]) by {
            if k < text.len() - 1 {
                assert(text.drop_last()[k] == text[k]);
            }
        }
    } else {
        assert(text.take(text.len() as int) =~= text);
    }
}

/// The text without the whitespace at its end.
pub fn trim_end(text: &str) -> (trimmed: String)
    ensures
        trimmed@ == trimmed_end(text@),
{
    let mut end: usize = 0;
    let mut seen: usize = 0;
    let count = text.unicode_len();
    for c in it: text.chars()
        invariant
            count == text@.len(),
            it.seq() == text@,
            seen == it.index(),
            0 <= end <= seen <= text@.len(),
            end == 0 || !white_space(text@[end - 1]),
            forall|k: int| end <= k < seen ==> white_space(#[trigger] text@[k]),
    {
        seen = seen + 1;
        if !is_white_space(c) {
            end = seen;
        }
    }
    proof {
        lemma_trimmed_end_is(text@, end as int);
        assert(text@.subrange(0, end as int) =~= text@.take(end as int));
    }
    text.substring_char(0, end).to_string()
}

/// The text without the whitespace at either end.
pub fn trim(text: &str) -> (result: String)
    ensures
        result@ == trimmed(text@),
{
    let rest = trim_end(text);
    let count = rest.as_str().unicode_len();
    let mut start: usize = 0;
    let mut leading: bool = true;
    for c in it: rest.as_str().chars()
        invariant
            count == rest@.len(),
            it.seq() == rest@,
            0 <= start <= it.index() <= rest@.len(),
            leading ==> start == it.index(),
            !leading ==> start < rest@.len() && !white_space(rest@[start as int]),
            forall|k: int| 0 <= k < start ==> white_space(#[trigger] rest@[k]),
    {
        if leading {
            if is_white_space(c) {
                start = start + 1;
            } else {
                leading = false;
            }
        }
    }
    proof {
        lemma_trimmed_start_is(rest@, start as int);
        assert(rest@.subrange(start as int, count as int) =~= rest@.skip(start as int));
    }
    rest.as_str().substring_char(start, count).to_string()
}

/// Whether the two texts hold the same characters.
pub fn same_text(a: &str, b: &str) -> (same: bool)
    ensures
        same == (a@ == b@),
{
    let mut left = a.chars();
    let mut right = b.chars();
    let ghost mut at: int = 0;
    loop
        invariant
            0 <= at <= a@.len(),
            at <= b@.len(),
            vstd::std_specs::iter::IteratorSpec::remaining(&left) == a@.skip(at),
            vstd::std_specs::iter::IteratorSpec::remaining(&right) == b@.skip(at),
            a@.take(at) == b@.take(at),
        decreases a@.len() - at,
    {
        let x = left.next();
        let y = right.next();
        match (x, y) {
            (Some(c), Some(d)) => {
                if c != d {
                    assert(a@[at] != b@[at]);
                    return false;
                }
                proof {
                    assert(a@.take(at + 1) =~= a@.take(at).push(c));
                    assert(b@.take(at + 1) =~= b@.take(at).push(d));
                    assert(a@.skip(at).drop_first() =~= a@.skip(at + 1));
                    assert(b@.skip(at).drop_first() =~= b@.skip(at + 1));
                    at = at + 1;
                }
            },
            (None, None) => {
                assert(a@.take(at) =~= a@);
                assert(b@.take(at) =~= b@);
                return true;
            },
            _ => {
                return false;
            },
        }
    }
}

/// The order of strings: by the first character in which they differ, and a text before every
/// longer text that begins with it.
pub open spec fn text_before(a: Seq<char>, b: Seq<char>) -> bool {
    exists|k: int| #[trigger] differs_first_at(a, b, k)
}

/// `a` and `b` agree up to `k`, and there `a` ends or has the smaller character.
pub open spec fn differs_first_at(a: Seq<char>, b: Seq<char>, k: int) -> bool {
    &&& 0 <= k < b.len()
    &&& k <= a.len()
    &&& a.take(k) == b.take(k)
    &&& k < a.len() ==> a[k] < b[k]
}

/// How one text stands to another in the order of strings.
#[derive(Clone, Copy, Debug, PartialEq, Eq, Structural)]
pub enum TextOrder {
    Before,
    Same,
    After,
}

/// How `a` stands to `b` in the order of strings.
pub fn text_order(a: &str, b: &str) -> (order: TextOrder)
    ensures
        order == TextOrder::Before <==> text_before(a@, b@),
        order == TextOrder::Same <==> a@ == b@,
        order == TextOrder::After <==> text_before(b@, a@),
{
    let mut left = a.chars();
    let mut right = b.chars();
    let ghost mut at: int = 0;
    proof {
        lemma_text_before_irreflexive(a@);
        lemma_text_before_irreflexive(b@);
    }
    loop
        invariant
            0 <= at <= a@.len(),
            at <= b@.len(),
            vstd::std_specs::iter::IteratorSpec::remaining(&left) == a@.skip(at),
            vstd::std_specs::iter::IteratorSpec::remaining(&right) == b@.skip(at),
            a@.take(at) == b@.take(at),
            !text_before(a@, a@),
        decreases a@.len() - at,
    {
        let x = left.next();
        let y = right.next();
        match (x, y) {
            (Some(c), Some(d)) => {
                if c < d {
                    assert(differs_first_at(a@, b@, at));
                    proof {
                        lemma_text_before_asymmetric(a@, b@);
                    }
                    return TextOrder::Before;
                }
                if d < c {
                    assert(differs_first_at(b@, a@, at));
                    proof {
                        lemma_text_before_asymmetric(b@, a@);
                    }
                    return TextOrder::After;
                }
                proof {
                    assert(a@.take(at + 1) =~= a@.take(at).push(c));
                    assert(b@.take(at + 1) =~= b@.take(at).push(d));
                    assert(a@.skip(at).drop_first() =~= a@.skip(at + 1));
                    assert(b@.skip(at).drop_first() =~= b@.skip(at + 1));
                    at = at + 1;
                }
            },
            (None, None) => {
                assert(a@.take(at) =~= a@);
                assert(b@.take(at) =~= b@);
                return TextOrder::Same;
            },
            (None, Some(_)) => {
                assert(differs_first_at(a@, b@, at));
                proof {
                    lemma_text_before_asymmetric(a@, b@);
                }
                return TextOrder::Before;
            },
            (Some(_), None) => {
                assert(differs_first_at(b@, a@, at));
                proof {
                    lemma_text_before_asymmetric(b@, a@);
                }
                return TextOrder::After;
            },
        }
    }
}

/// No text stands before itself.
pub proof fn lemma_text_before_irreflexive(a: Seq<char>)
    ensures
        !text_before(a, a),
{
}

/// Of two texts at most one stands before the other, and then they differ.
pub proof fn lemma_text_before_asymmetric(a: Seq<char>, b: Seq<char>)
    requires
        text_before(a, b),
    ensures
        !text_before(b, a),
        a != b,
{
    let k = choose|k: int| #[trigger] differs_first_at(a, b, k);
    if text_before(b, a) {
        let j = choose|j: int| #[trigger] differs_first_at(b, a, j);
        if j < k {
            assert(a.take(k)[j] == b.take(k)[j]);
        } else if k < j {
            assert(a.take(j)[k] == b.take(j)[k]);
        }
    }
}

/// The order of strings is transitive.
pub proof fn lemma_text_before_transitive(a: Seq<char>, b: Seq<char>, c: Seq<char>)
    requires
        text_before(a, b),
        text_before(b, c),
    ensures
        text_before(a, c),
{
    let k = choose|k: int| #[trigger] differs_first_at(a, b, k);
    let j = choose|j: int| #[trigger] differs_first_at(b, c, j);
    let first = if k <= j { k } else { j };
    assert forall|i: int| 0 <= i < first implies a[i] == c[i] by {
        assert(a.take(k)[i] == b.take(k)[i]);
        assert(b.take(j)[i] == c.take(j)[i]);
    }
    assert(a.take(first) =~= c.take(first));
    if k < j {
        assert(b.take(j)[k] == c.take(j)[k]);
    } else if j < k {
        assert(a.take(k)[j] == b.take(k)[j]);
    }
    assert(differs_first_at(a, c, first));
}

/// `std::string::String::push` appends the given character to the end of the string: the string
/// then holds the characters it held before and after them the new one.
pub assume_specification[ std::string::String::push ](text: &mut std::string::String, c: char)
    ensures
        final(text)@ == old(text)@.push(c),
;

} // verus!
