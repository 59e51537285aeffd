//! Text helpers whose meaning is stated over sequences of characters.

use vstd::prelude::*;

verus! {

/// `String::push` appends one character.
pub assume_specification[ String::push ](text: &mut String, c: char)
    ensures
        final(text)@ == old(text)@.push(c),
;

/// The characters of `text`, in order.
pub fn chars_of(text: &str) -> (chars: Vec<char>)
    ensures
        chars@ == text@,
{
    let mut chars: Vec<char> = Vec::new();
    for c in it: text.chars()
        invariant
            it.seq() == text@,
            chars@ == text@.take(it.index() as int),
    {
        chars.push(c);
        assert(text@.take(it.index() as int + 1) == text@.take(it.index() as int).push(c));
    }
    assert(text@.take(text@.len() as int) == text@);
    chars
}

/// The text made of `chars[from..to]`.
pub fn text_between(chars: &Vec<char>, from: usize, to: usize) -> (text: String)
    requires
        from <= to <= chars@.len(),
    ensures
        text@ == chars@.subrange(from as int, to as int),
{
    let mut text = String::new();
    let mut i: usize = from;
    while i < to
        invariant
            from <= i <= to <= chars@.len(),
            text@ == chars@.subrange(from as int, i as int),
        decreases to - i,
    {
        text.push(chars[i]);
        assert(chars@.subrange(from as int, i as int + 1) == chars@.subrange(
            from as int,
            i as int,
        ).push(chars@[i as int]));
        i = i + 1;
    }
    text
}

/// Whether two texts hold the same characters.
pub fn same_text(left: &str, right: &str) -> (same: bool)
    ensures
        same == (left@ == right@),
{
    let left_chars = chars_of(left);
    let right_chars = chars_of(right);
    if left_chars.len() != right_chars.len() {
        return false;
    }
    let mut i: usize = 0;
    while i < left_chars.len()
        invariant
            left_chars@ == left@,
            right_chars@ == right@,
            left_chars@.len() == right_chars@.len(),
            i <= left_chars@.len(),
            forall|k: int| 0 <= k < i ==> left@[k] == right@[k],
        decreases left_chars@.len() - i,
    {
        if left_chars[i] != right_chars[i] {
            return false;
        }
        i = i + 1;
    }
    assert(left@ =~= right@);
    true
}

/// The characters with Unicode's `White_Space` property.
pub open spec fn is_white_space(c: char) -> bool {
    let code = c as u32;
    ||| 0x9 <= code <= 0xd
    ||| code == 0x20
    ||| code == 0x85
    ||| code == 0xa0
    ||| code == 0x1680
    ||| 0x2000 <= code <= 0x200a
    ||| code == 0x2028
    ||| code == 0x2029
    ||| code == 0x202f
    ||| code == 0x205f
    ||| code == 0x3000
}

fn white_space(c: char) -> (yes: bool)
    ensures
        yes == is_white_space(c),
{
    let code: u32 = c as u32;
    (0x9 <= code && code <= 0xd) || code == 0x20 || code == 0x85 || code == 0xa0 || code == 0x1680
        || (0x2000 <= code && code <= 0x200a) || code == 0x2028 || code == 0x2029 || code == 0x202f
        || code == 0x205f || code == 0x3000
}

/// `text` without its leading white space.
pub open spec fn trim_start_of(text: Seq<char>) -> Seq<char>
    decreases text.len(),
{
    if text.len() > 0 && is_white_space(text[0]) {
        trim_start_of(text.drop_first())
    } else {
        text
    }
}

/// `text` without its trailing white space.
pub open spec fn trim_end_of(text: Seq<char>) -> Seq<char>
    decreases text.len(),
{
    if text.len() > 0 && is_white_space(text.last()) {
        trim_end_of(text.drop_last())
    } else {
        text
    }
}

/// `text` without white space at either end.
pub open spec fn trimmed_of(text: Seq<char>) -> Seq<char> {
    trim_end_of(trim_start_of(text))
}

/// Removes white space at both ends.
pub fn trimmed(text: &str) -> (trim: String)
    ensures
        trim@ == trimmed_of(text@),
{
    let chars = chars_of(text);
    let mut from: usize = 0;
    assert(chars@.skip(0) == text@);
    while from < chars.len() && white_space(chars[from])
        invariant
            from <= chars@.len(),
            chars@ == text@,
            trim_start_of(text@) == trim_start_of(chars@.skip(from as int)),
        decreases chars@.len() - from,
    {
        assert(chars@.skip(from as int).drop_first() == chars@.skip(from as int + 1));
        from = from + 1;
    }
    assert(trim_start_of(text@) == chars@.skip(from as int));
    let mut to: usize = chars.len();
    assert(chars@.subrange(from as int, to as int) == chars@.skip(from as int));
    while from < to && white_space(chars[to - 1])
        invariant
            from <= to <= chars@.len(),
            trim_end_of(chars@.subrange(from as int, to as int)) == trimmed_of(text@),
        decreases to,
    {
        assert(chars@.subrange(from as int, to as int).drop_last() == chars@.subrange(
            from as int,
            to as int - 1,
        ));
        to = to - 1;
    }
    text_between(&chars, from, to)
}

/// `c` with an ASCII capital made small.
pub open spec fn ascii_small(c: char) -> char {
    if 'A' <= c <= 'Z' {
        ((c as u32 + 32) as u32) as char
    } else {
        c
    }
}

/// Lowers one ASCII capital.
pub fn ascii_lower(c: char) -> (small: char)
    ensures
        small == ascii_small(c),
{
    if 'A' <= c && c <= 'Z' {
        ((c as u8) + 32) as char
    } else {
        c
    }
}

/// Whether two texts are equal up to the case of ASCII letters.
pub open spec fn same_ignoring_ascii_case(left: Seq<char>, right: Seq<char>) -> bool {
    &&& left.len() == right.len()
    &&& forall|i: int| 0 <= i < left.len() ==> ascii_small(left[i]) == ascii_small(right[i])
}

/// Compares two texts, taking ASCII letters of either case for equal.
pub fn eq_ignore_ascii_case(left: &str, right: &str) -> (same: bool)
    ensures
        same == same_ignoring_ascii_case(left@, right@),
{
    let left_chars = chars_of(left);
    let right_chars = chars_of(right);
    if left_chars.len() != right_chars.len() {
        return false;
    }
    let mut i: usize = 0;
    while i < left_chars.len()
        invariant
            left_chars@ == left@,
            right_chars@ == right@,
            left@.len() == right@.len(),
            i <= left@.len(),
            forall|k: int| 0 <= k < i ==> ascii_small(left@[k]) == ascii_small(right@[k]),
        decreases left@.len() - i,
    {
        if ascii_lower(left_chars[i]) != ascii_lower(right_chars[i]) {
            return false;
        }
        i = i + 1;
    }
    true
}

/// Whether `part` stands in `text` at `at`.
pub open spec fn occurs_at(text: Seq<char>, part: Seq<char>, at: int) -> bool {
    0 <= at && at + part.len() <= text.len() && text.subrange(at, at + part.len()) == part
}

/// Whether `part` stands anywhere in `text`.
pub open spec fn occurs_in(text: Seq<char>, part: Seq<char>) -> bool {
    exists|at: int| occurs_at(text, part, at)
}

/// Whether `part` stands at `at`.
pub fn stands_at(chars: &Vec<char>, part: &Vec<char>, at: usize) -> (yes: bool)
    ensures
        yes == occurs_at(chars@, part@, at as int),
{
    if at > chars.len() || part.len() > chars.len() - at {
        return false;
    }
    let mut i: usize = 0;
    while i < part.len()
        invariant
            i <= part@.len(),
            at + part@.len() <= chars.len(),
            forall|k: int| 0 <= k < i ==> chars@[at + k] == part@[k],
        decreases part@.len() - i,
    {
        if chars[at + i] != part[i] {
            assert(chars@.subrange(at as int, at + part@.len())[i as int] != part@[i as int]);
            return false;
        }
        i = i + 1;
    }
    assert(chars@.subrange(at as int, at + part@.len()) =~= part@);
    true
}

/// Whether `needle` is a substring of `text`.
pub fn contains_text(text: &str, needle: &str) -> (found: bool)
    ensures
        found == occurs_in(text@, needle@),
{
    let chars = chars_of(text);
    let part = chars_of(needle);
    let mut at: usize = 0;
    while at < chars.len()
        invariant
            chars@ == text@,
            part@ == needle@,
            at <= chars@.len(),
            forall|k: int| 0 <= k < at ==> !occurs_at(text@, needle@, k),
        decreases chars@.len() - at,
    {
        if stands_at(&chars, &part, at) {
            return true;
        }
        at = at + 1;
    }
    let last = stands_at(&chars, &part, at);
    if !last {
        assert forall|k: int| !occurs_at(text@, needle@, k) by {
            if k > text@.len() {
                assert(!occurs_at(text@, needle@, k));
            }
        }
    }
    last
}

/// What `str::to_lowercase` makes of a text.
pub uninterp spec fn unicode_lowercase(text: Seq<char>) -> Seq<char>;

/// `str::to_lowercase`: Unicode's lowercase mapping of the whole text, which depends on the text
/// alone.
#[verifier::external_body]
pub(crate) fn lowercase(text: &str) -> (lower: String)
    ensures
        lower@ == unicode_lowercase(text@),
{
    text.to_lowercase()
}

/// The order of texts by their code points, which is also that of their UTF-8 bytes.
pub open spec fn text_precedes(left: Seq<char>, right: Seq<char>) -> bool {
    exists|k: int| #[trigger] text_precedes_at(left, right, k)
}

/// `left` comes before `right`, the first difference being at `k`.
pub open spec fn text_precedes_at(left: Seq<char>, right: Seq<char>, k: int) -> bool {
    &&& 0 <= k <= left.len()
    &&& k < right.len()
    &&& forall|i: int| 0 <= i < k ==> left[i] == right[i]
    &&& k < left.len() ==> left[k] < right[k]
}

/// No text precedes itself.
pub proof fn text_order_is_irreflexive(text: Seq<char>)
    ensures
        !text_precedes(text, text),
{
}

/// The order of texts is transitive.
pub proof fn text_order_is_transitive(a: Seq<char>, b: Seq<char>, c: Seq<char>)
    requires
        text_precedes(a, b),
        text_precedes(b, c),
    ensures
        text_precedes(a, c),
{
    let j = choose|k: int| #[trigger] text_precedes_at(a, b, k);
    let k = choose|k: int| #[trigger] text_precedes_at(b, c, k);
    if j <= k {
        assert(text_precedes_at(a, c, j));
    } else {
        assert(text_precedes_at(a, c, k));
    }
}

/// Of two different texts one precedes the other.
pub proof fn text_order_is_total(a: Seq<char>, b: Seq<char>)
    ensures
        a == b || text_precedes(a, b) || text_precedes(b, a),
{
    text_order_step(a, b, 0);
}

proof fn text_order_step(a: Seq<char>, b: Seq<char>, k: int)
    requires
        0 <= k <= a.len(),
        k <= b.len(),
        forall|i: int| 0 <= i < k ==> a[i] == b[i],
    ensures
        a == b || text_precedes(a, b) || text_precedes(b, a),
    decreases a.len() - k,
{
    if k == a.len() && k == b.len() {
        assert(a =~= b);
    } else if k == a.len() {
        assert(text_precedes_at(a, b, k));
    } else if k == b.len() {
        assert(text_precedes_at(b, a, k));
    } else if a[k] == b[k] {
        text_order_step(a, b, k + 1);
    } else if a[k] < b[k] {
        assert(text_precedes_at(a, b, k));
    } else {
        assert(text_precedes_at(b, a, k));
    }
}

/// Whether `left` comes before `right`.
pub fn text_less(left: &str, right: &str) -> (less: bool)
    ensures
        less == text_precedes(left@, right@),
{
    let a = chars_of(left);
    let b = chars_of(right);
    let mut i: usize = 0;
    while i < a.len() && i < b.len() && a[i] == b[i]
        invariant
            a@ == left@,
            b@ == right@,
            i <= a@.len(),
            i <= b@.len(),
            forall|k: int| 0 <= k < i ==> a@[k] == b@[k],
        decreases a@.len() - i,
    {
        i = i + 1;
    }
    let less = i < b.len() && (i == a.len() || a[i] < b[i]);
    proof {
        if less {
            assert(text_precedes_at(left@, right@, i as int));
        } else {
            assert forall|k: int| !#[trigger] text_precedes_at(left@, right@, k) by {
                if text_precedes_at(left@, right@, k) {
                    if k < i {
                        assert(left@[k] == right@[k]);
                    } else if k > i {
                        assert(left@[i as int] == right@[i as int]);
                    }
                }
            }
        }
    }
    less
}

/// The decimal digits of `n`.
pub open spec fn decimal_of(n: nat) -> Seq<char>
    decreases n,
{
    if n < 10 {
        seq![digit_of(n)]
    } else {
        decimal_of(n / 10).push(digit_of(n % 10))
    }
}

/// The character of one decimal digit.
pub open spec fn digit_of(n: nat) -> char {
    ((48 + n) as u32) as char
}

/// Writes `n` in decimal.
pub fn decimal_text(n: u64) -> (text: String)
    ensures
        text@ == decimal_of(n as nat),
    decreases n,
{
    let digit: char = (48u8 + (n % 10) as u8) as char;
    if n < 10 {
        let mut text = String::new();
        text.push(digit);
        text
    } else {
        let mut text = decimal_text(n / 10);
        text.push(digit);
        text
    }
}

/// `first` followed by `second`.
pub fn joined(first: &str, second: &str) -> (text: String)
    ensures
        text@ == first@ + second@,
{
    let mut text = first.to_owned();
    text.append(second);
    text
}

} // verus!
