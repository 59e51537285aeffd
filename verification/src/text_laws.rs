//! What holds of texts: their ends, their case, their order, their lines and their digits.

use vstd::prelude::*;
use crate::meeting::lines_of;
use crate::text::{
    ascii_small, decimal_of, digit_of, is_white_space, occurs_at, occurs_in,
    same_ignoring_ascii_case, text_precedes, text_precedes_at, trim_end_of, trim_start_of,
    trimmed_of,
};

verus! {

/// The white space of Unicode: the blank, the tabulator and the line ends of ASCII, and the spaces
/// and separators beyond it.
pub proof fn white_space_is_unicodes(c: char)
    ensures
        is_white_space(c) <==> {
            let code = c as u32;
            ||| code == 9 || code == 10 || code == 11 || code == 12 || code == 13 || code == 32
            ||| code == 0x85 || code == 0xa0 || code == 0x1680
            ||| 0x2000 <= code && code <= 0x200a
            ||| code == 0x2028 || code == 0x2029 || code == 0x202f || code == 0x205f || code
                == 0x3000
        },
{
}

/// Whether all characters of a text are white space.
pub open spec fn is_blank(text: Seq<char>) -> bool {
    forall|i: int| 0 <= i < text.len() ==> is_white_space(#[trigger] text[i])
}

proof fn start_is_trimmed(text: Seq<char>) -> (n: int)
    ensures
        0 <= n <= text.len(),
        trim_start_of(text) == text.skip(n),
        is_blank(text.take(n)),
        n < text.len() ==> !is_white_space(text[n]),
    decreases text.len(),
{
    if text.len() > 0 && is_white_space(text[0]) {
        let rest = text.drop_first();
        let m = start_is_trimmed(rest);
        assert(rest.skip(m) =~= text.skip(m + 1));
        assert forall|i: int| 0 <= i < m + 1 implies is_white_space(#[trigger] text.take(m + 1)[i]) by {
            if i > 0 {
                assert(rest.take(m)[i - 1] == text[i]);
            }
        }
        m + 1
    } else {
        assert(text.skip(0) =~= text);
        0
    }
}

proof fn end_is_trimmed(text: Seq<char>) -> (n: int)
    ensures
        0 <= n <= text.len(),
        trim_end_of(text) == text.take(n),
        is_blank(text.skip(n)),
        n > 0 ==> !is_white_space(text[n - 1]),
    decreases text.len(),
{
    if text.len() > 0 && is_white_space(text.last()) {
        let rest = text.drop_last();
        let m = end_is_trimmed(rest);
        assert(rest.take(m) =~= text.take(m));
        assert forall|i: int| 0 <= i < text.len() - m implies is_white_space(
            #[trigger] text.skip(m)[i],
        ) by {
            if m + i < rest.len() {
                assert(rest.skip(m)[i] == text.skip(m)[i]);
            }
        }
        m
    } else {
        assert(text.take(text.len() as int) =~= text);
        text.len() as int
    }
}

/// A trimmed text is what is left of the text between white space, and neither starts nor ends with
/// any.
pub proof fn trimming_takes_white_space_alone(text: Seq<char>)
    ensures
        exists|before: Seq<char>, after: Seq<char>|
            is_blank(before) && is_blank(after) && #[trigger] (before + trimmed_of(text) + after)
                == text,
        trimmed_of(text).len() > 0 ==> !is_white_space(trimmed_of(text)[0]) && !is_white_space(
            trimmed_of(text).last(),
        ),
{
    let n = start_is_trimmed(text);
    let rest = text.skip(n);
    let m = end_is_trimmed(rest);
    assert(trimmed_of(text) == rest.take(m));
    assert(text.take(n) + trimmed_of(text) + rest.skip(m) =~= text);
    if m > 0 {
        assert(rest[0] == text[n]);
        assert(trimmed_of(text)[0] == rest[0]);
    }
}

/// A text that neither starts nor ends with white space is what any white space around it is trimmed
/// to.
pub proof fn white_space_around_does_not_matter(
    before: Seq<char>,
    text: Seq<char>,
    after: Seq<char>,
)
    requires
        is_blank(before),
        is_blank(after),
        text.len() > 0 ==> !is_white_space(text[0]) && !is_white_space(text.last()),
    ensures
        trimmed_of(before + text + after) == text,
{
    let whole = before + text + after;
    let n = start_is_trimmed(whole);
    let rest = whole.skip(n);
    let m = end_is_trimmed(rest);
    if text.len() > 0 {
        if n > before.len() {
            assert(whole.take(n)[before.len() as int] == text[0]);
        }
        if n < before.len() {
            assert(before[n] == whole[n]);
        }
        assert(n == before.len());
        assert(rest =~= text + after);
        if m < text.len() {
            assert(rest.skip(m)[text.len() - 1 - m] == text.last());
        }
        if m > text.len() {
            assert(after[m - 1 - text.len()] == rest[m - 1]);
        }
        assert(rest.take(m) =~= text);
    } else {
        if n < whole.len() {
            if n < before.len() {
                assert(before[n] == whole[n]);
            } else {
                assert(after[n - before.len()] == whole[n]);
            }
        }
        assert(rest.take(m) =~= text);
    }
}

/// The capitals of ASCII are lowered to the letters 32 places on, and nothing else changes.
pub proof fn ascii_capitals_are_lowered(c: char)
    ensures
        65 <= c as u32 <= 90 ==> ascii_small(c) as u32 == c as u32 + 32,
        !(65 <= c as u32 <= 90) ==> ascii_small(c) == c,
{
}

/// Two texts are equal up to the case of ASCII letters where each character is the same, or is the
/// same letter in the other case.
pub proof fn ascii_case_does_not_matter(left: Seq<char>, right: Seq<char>)
    ensures
        same_ignoring_ascii_case(left, right) == (left.len() == right.len() && forall|i: int|
            #![trigger left[i]]
            0 <= i < left.len() ==> left[i] == right[i] || (65 <= left[i] as u32 <= 90
                && right[i] as u32 == left[i] as u32 + 32) || (65 <= right[i] as u32 <= 90
                && left[i] as u32 == right[i] as u32 + 32)),
        same_ignoring_ascii_case(left, right) == same_ignoring_ascii_case(right, left),
        same_ignoring_ascii_case(left, left),
{
    assert forall|i: int| 0 <= i < left.len() && left.len() == right.len() implies (ascii_small(
        left[i],
    ) == ascii_small(right[i])) == (left[i] == right[i] || (65 <= left[i] as u32 <= 90
        && right[i] as u32 == left[i] as u32 + 32) || (65 <= right[i] as u32 <= 90
        && left[i] as u32 == right[i] as u32 + 32)) by {
        ascii_capitals_are_lowered(left[i]);
        ascii_capitals_are_lowered(right[i]);
    }
    if same_ignoring_ascii_case(left, right) {
        assert forall|i: int|
            #![trigger left[i]]
            0 <= i < left.len() implies left[i] == right[i] || (65 <= left[i] as u32 <= 90
            && right[i] as u32 == left[i] as u32 + 32) || (65 <= right[i] as u32 <= 90
            && left[i] as u32 == right[i] as u32 + 32) by {
            assert(ascii_small(left[i]) == ascii_small(right[i]));
        }
    }
}

/// A text contains what stands between any two others in it, and nothing that does not.
pub proof fn texts_contain_their_parts(before: Seq<char>, part: Seq<char>, after: Seq<char>)
    ensures
        occurs_in(before + part + after, part),
{
    let whole = before + part + after;
    assert(whole.subrange(before.len() as int, before.len() as int + part.len()) =~= part);
    assert(occurs_at(whole, part, before.len() as int));
}

/// What a text contains stands in it between two others.
pub proof fn contained_parts_stand_between_others(text: Seq<char>, part: Seq<char>)
    requires
        occurs_in(text, part),
    ensures
        exists|before: Seq<char>, after: Seq<char>| #[trigger] (before + part + after) == text,
{
    let at = choose|at: int| occurs_at(text, part, at);
    let before = text.take(at);
    let after = text.skip(at + part.len());
    assert(before + part + after =~= text) by {
        assert forall|i: int| 0 <= i < text.len() implies (before + part + after)[i] == text[i] by {
            if at <= i < at + part.len() {
                assert(text.subrange(at, at + part.len())[i - at] == text[i]);
            }
        }
    }
}

/// A text comes before any longer one that starts with it, and of two texts with one start the one
/// with the lower code point behind it comes first.
pub proof fn texts_are_ordered_by_code_points(
    start: Seq<char>,
    low: char,
    low_rest: Seq<char>,
    high: char,
    high_rest: Seq<char>,
)
    ensures
        text_precedes(start, start + seq![low] + low_rest),
        !text_precedes(start + seq![low] + low_rest, start),
        (low as u32) < high as u32 ==> text_precedes(
            start + seq![low] + low_rest,
            start + seq![high] + high_rest,
        ) && !text_precedes(start + seq![high] + high_rest, start + seq![low] + low_rest),
{
    let a = start + seq![low] + low_rest;
    let b = start + seq![high] + high_rest;
    let n = start.len() as int;
    assert(text_precedes_at(start, a, n));
    assert forall|k: int| !#[trigger] text_precedes_at(a, start, k) by {
        if text_precedes_at(a, start, k) {
            assert(a[k] == start[k]);
        }
    }
    if (low as u32) < high as u32 {
        assert(text_precedes_at(a, b, n));
        assert forall|k: int| !#[trigger] text_precedes_at(b, a, k) by {
            if text_precedes_at(b, a, k) {
                if k < n {
                    assert(a[k] == b[k]);
                } else if k > n {
                    assert(a[n] == b[n]);
                }
            }
        }
    }
}

/// The lines of a text hold no line end; one without a line end is one line, and what follows the
/// last line end of a text is its last line.
pub proof fn lines_stand_between_line_ends(text: Seq<char>, line: Seq<char>)
    requires
        forall|i: int| 0 <= i < line.len() ==> #[trigger] line[i] != '\n',
    ensures
        lines_of(line) == seq![line],
        lines_of(text.push('\n') + line) == lines_of(text).push(line),
    decreases line.len(),
{
    if line.len() == 0 {
        assert(line =~= Seq::<char>::empty());
        assert(text.push('\n') + line =~= text.push('\n'));
        assert(text.push('\n').drop_last() =~= text);
    } else {
        let shorter = line.drop_last();
        assert forall|i: int| 0 <= i < shorter.len() implies #[trigger] shorter[i] != '\n' by {
            assert(shorter[i] == line[i]);
        }
        lines_stand_between_line_ends(text, shorter);
        let whole = text.push('\n') + line;
        assert(whole.drop_last() =~= text.push('\n') + shorter);
        assert(line.last() == line[line.len() - 1]);
        assert(shorter.push(line.last()) =~= line);
        let before = lines_of(text).push(shorter);
        assert(before.drop_last() =~= lines_of(text));
        assert(seq![shorter].drop_last().push(line) =~= seq![line]);
    }
}

/// The number that decimal digits stand for.
pub open spec fn number_of(digits: Seq<char>) -> int
    decreases digits.len(),
{
    if digits.len() == 0 {
        0
    } else {
        number_of(digits.drop_last()) * 10 + (digits.last() as u32 - 48)
    }
}

/// A number is written in the digits that stand for it, without a zero before them.
pub proof fn decimals_stand_for_their_number(n: nat)
    ensures
        number_of(decimal_of(n)) == n,
        decimal_of(n).len() > 0,
        forall|i: int|
            0 <= i < decimal_of(n).len() ==> '0' <= #[trigger] decimal_of(n)[i] && decimal_of(n)[i]
                <= '9',
        n > 0 ==> decimal_of(n)[0] != '0',
    decreases n,
{
    reveal_with_fuel(number_of, 2);
    if n < 10 {
        assert(digit_of(n) as u32 == 48 + n);
        assert(decimal_of(n).drop_last() =~= Seq::<char>::empty());
    } else {
        decimals_stand_for_their_number(n / 10);
        let before = decimal_of(n / 10);
        assert(digit_of(n % 10) as u32 == 48 + n % 10);
        assert(decimal_of(n).drop_last() =~= before);
        assert forall|i: int| 0 <= i < decimal_of(n).len() implies '0' <= #[trigger] decimal_of(
            n,
        )[i] && decimal_of(n)[i] <= '9' by {
            if i < before.len() {
                assert(before[i] == decimal_of(n)[i]);
            }
        }
        assert(decimal_of(n)[0] == before[0]);
    }
}

} // verus!
