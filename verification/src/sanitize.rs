//! Search words as FTS5 takes them.

use vstd::prelude::*;
use crate::text::{ascii_lower, ascii_small, chars_of};

verus! {

/// Whether a character belongs to a search word: an ASCII letter or digit, or anything beyond
/// ASCII. All else is punctuation, which FTS5 would read as its own syntax.
pub open spec fn is_word_char(c: char) -> bool {
    ||| 'a' <= c <= 'z'
    ||| 'A' <= c <= 'Z'
    ||| '0' <= c <= '9'
    ||| c as u32 >= 128
}

fn word_char(c: char) -> (yes: bool)
    ensures
        yes == is_word_char(c),
{
    ('a' <= c && c <= 'z') || ('A' <= c && c <= 'Z') || ('0' <= c && c <= '9') || c as u32 >= 128
}

/// The search words in `text`, with ASCII letters small and one space between words.
pub open spec fn words_of(text: Seq<char>) -> Seq<char>
    decreases text.len(),
{
    if text.len() == 0 {
        Seq::empty()
    } else {
        let before = words_of(text.drop_last());
        let c = text.last();
        if !is_word_char(c) {
            before
        } else if before.len() > 0 && !is_word_char(text[text.len() - 2]) {
            before.push(' ').push(ascii_small(c))
        } else {
            before.push(ascii_small(c))
        }
    }
}

/// The full-text query for what a user typed: its words, the last of them as a prefix. Nothing
/// where there are none.
pub open spec fn fts_query_of(text: Seq<char>) -> Seq<char> {
    if words_of(text).len() == 0 {
        Seq::empty()
    } else {
        words_of(text).push('*')
    }
}

/// Rewrites what a user typed into a query that FTS5 takes.
pub fn sanitize_fts_query(query: &str) -> (sanitized: String)
    ensures
        sanitized@ == fts_query_of(query@),
{
    let chars = chars_of(query);
    let mut words = String::new();
    let mut empty = true;
    let mut i: usize = 0;
    assert(query@.take(0) =~= Seq::<char>::empty());
    while i < chars.len()
        invariant
            chars@ == query@,
            i <= chars@.len(),
            words@ == words_of(query@.take(i as int)),
            empty == (words@.len() == 0),
        decreases chars@.len() - i,
    {
        let c = chars[i];
        let ghost seen = query@.take(i + 1);
        assert(seen.drop_last() =~= query@.take(i as int));
        if word_char(c) {
            proof {
                if i == 0 {
                    assert(words@.len() == 0);
                } else {
                    assert(seen[i - 1] == chars@[i - 1]);
                }
            }
            if !empty && !word_char(chars[i - 1]) {
                words.push(' ');
            }
            words.push(ascii_lower(c));
            empty = false;
        }
        i = i + 1;
    }
    assert(query@.take(i as int) =~= query@);
    if !empty {
        words.push('*');
    }
    words
}

/// Whether a character is one that FTS5 reads as part of a word, a blank between words, or the
/// mark of a prefix.
pub open spec fn is_plain_query_char(c: char) -> bool {
    is_word_char(c) || c == ' ' || c == '*'
}

proof fn words_hold_no_punctuation(text: Seq<char>)
    ensures
        forall|i: int|
            0 <= i < words_of(text).len() ==> is_word_char(#[trigger] words_of(text)[i])
                || words_of(text)[i] == ' ',
    decreases text.len(),
{
    if text.len() > 0 {
        words_hold_no_punctuation(text.drop_last());
        let before = words_of(text.drop_last());
        let small = ascii_small(text.last());
        assert(is_word_char(text.last()) ==> is_word_char(small));
        assert forall|i: int| 0 <= i < words_of(text).len() implies is_word_char(
            #[trigger] words_of(text)[i],
        ) || words_of(text)[i] == ' ' by {
            if i < before.len() {
                assert(words_of(text)[i] == before[i]);
            }
        }
    }
}

/// Whatever a user types, the query holds nothing that FTS5 would read as its own syntax but the
/// `*` at its end.
pub proof fn queries_hold_no_punctuation(text: Seq<char>)
    ensures
        forall|i: int|
            0 <= i < fts_query_of(text).len() ==> is_plain_query_char(
                #[trigger] fts_query_of(text)[i],
            ),
        forall|i: int|
            0 <= i < fts_query_of(text).len() - 1 ==> #[trigger] fts_query_of(text)[i] != '*',
{
    words_hold_no_punctuation(text);
    let words = words_of(text);
    assert forall|i: int| 0 <= i < words.len() implies words[i] != '*' by {
        assert(is_word_char(words[i]) || words[i] == ' ');
    }
}

/// A query without a word is empty.
pub proof fn all_punctuation_gives_no_query(text: Seq<char>)
    requires
        forall|i: int| 0 <= i < text.len() ==> !is_word_char(#[trigger] text[i]),
    ensures
        fts_query_of(text).len() == 0,
    decreases text.len(),
{
    if text.len() > 0 {
        assert forall|i: int| 0 <= i < text.drop_last().len() implies !is_word_char(
            #[trigger] text.drop_last()[i],
        ) by {
            assert(text.drop_last()[i] == text[i]);
        }
        all_punctuation_gives_no_query(text.drop_last());
    }
}

} // verus!
