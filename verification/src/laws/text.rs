//! Laws of whitespace and of the order of strings.

use vstd::prelude::*;

verus! {

use crate::text::{
    differs_first_at,
    lemma_trimmed_end,
    text_before,
    trimmed,
    trimmed_end,
    trimmed_start,
    white_space,
};

/// The code points of the characters with the Unicode property `White_Space`.
pub open spec fn white_space_code_points() -> Seq<u32> {
    seq![
        0x9,
        0xa,
        0xb,
        0xc,
        0xd,
        0x20,
        0x85,
        0xa0,
        0x1680,
        0x2000,
        0x2001,
        0x2002,
        0x2003,
        0x2004,
        0x2005,
        0x2006,
        0x2007,
        0x2008,
        0x2009,
        0x200a,
        0x2028,
        0x2029,
        0x202f,
        0x205f,
        0x3000,
    ]
}

/// Whitespace is what Unicode says it is: twenty-five characters and no other.
pub proof fn law_white_space(c: char)
    ensures
        white_space(c) <==> white_space_code_points().contains(c as u32),
{
    let points = white_space_code_points();
    let code = c as u32;
    if white_space(c) {
        let ix: int = if 0x9 <= code <= 0xd {
            code - 0x9
        } else if code == 0x20 {
            5
        } else if code == 0x85 {
            6
        } else if code == 0xa0 {
            7
        } else if code == 0x1680 {
            8
        } else if 0x2000 <= code <= 0x200a {
            code - 0x2000 + 9
        } else if code == 0x2028 {
            20
        } else if code == 0x2029 {
            21
        } else if code == 0x202f {
            22
        } else if code == 0x205f {
            23
        } else {
            24
        };
        assert(points[ix] == code);
    }
    if points.contains(code) {
        let ix = choose|ix: int| 0 <= ix < points.len() && points[ix] == code;
        assert(0 <= ix < 25);
    }
}

/// Whether the text is whitespace alone.
pub open spec fn blank(text: Seq<char>) -> bool {
    forall|k: int| 0 <= k < text.len() ==> white_space(#[trigger] text[k])
}

proof fn lemma_trimmed_start(text: Seq<char>)
    ensures
        trimmed_start(text).len() <= text.len(),
        trimmed_start(text) == text.skip(text.len() - trimmed_start(text).len()),
        trimmed_start(text).len() > 0 ==> !white_space(trimmed_start(text).first()),
        forall|k: int|
            0 <= k < text.len() - trimmed_start(text).len() ==> white_space(#[trigger] text[k]),
    decreases text.len(),
{
    if text.len() > 0 && white_space(text.first()) {
        let rest = text.drop_first();
        lemma_trimmed_start(rest);
        let cut = text.len() - trimmed_start(text).len();
        assert(rest.skip(cut - 1) =~= text.skip(cut));
        assert forall|k: int| 0 <= k < cut implies white_space(#[trigger] text[k]) by {
            if k > 0 {
                assert(rest[k - 1] == text[k]);
            }
        }
    } else {
        assert(text.skip(0) =~= text);
    }
}

/// Trimming cuts whitespace off, all of it, and nothing else: around the trimmed text the text is
/// blank, and the trimmed text neither begins nor ends in whitespace.
pub proof fn law_trimming(text: Seq<char>)
    ensures
        exists|before: Seq<char>, after: Seq<char>|
            text == #[trigger] (before + trimmed(text) + after) && blank(before) && blank(after),
        exists|after: Seq<char>|
            text == #[trigger] (trimmed_end(text) + after) && blank(after),
        trimmed(text).len() > 0 ==> !white_space(trimmed(text).first()) && !white_space(
            trimmed(text).last(),
        ),
        trimmed_end(text).len() > 0 ==> !white_space(trimmed_end(text).last()),
{
    lemma_trimmed_end(text);
    let ending = trimmed_end(text);
    lemma_trimmed_start(ending);
    let n = ending.len() as int;
    let cut = n - trimmed(text).len();
    let before = ending.take(cut);
    let after = text.skip(n);
    assert(before + trimmed(text) =~= ending);
    assert(text =~= ending + after);
    assert(text == before + trimmed(text) + after);
    assert forall|k: int| 0 <= k < before.len() implies white_space(#[trigger] before[k]) by {
        assert(before[k] == ending[k]);
    }
    assert forall|k: int| 0 <= k < after.len() implies white_space(#[trigger] after[k]) by {
        assert(after[k] == text[n + k]);
    }
    assert(blank(before));
    assert(blank(after));
    if trimmed(text).len() > 0 {
        assert(trimmed(text).last() == ending.last());
    }
}

/// Strings are ordered by the first character in which they differ, whatever follows it, and a
/// text stands before every longer text that begins with it.
pub proof fn law_text_order(
    start: Seq<char>,
    smaller: char,
    greater: char,
    x: Seq<char>,
    y: Seq<char>,
)
    requires
        smaller < greater,
    ensures
        text_before(start.push(smaller) + x, start.push(greater) + y),
        text_before(start, start.push(greater) + y),
{
    let k = start.len() as int;
    let a = start.push(smaller) + x;
    let b = start.push(greater) + y;
    assert(a.take(k) =~= start);
    assert(b.take(k) =~= start);
    assert(start.take(k) =~= start);
    assert(differs_first_at(a, b, k));
    assert(differs_first_at(start, b, k));
}

} // verus!
