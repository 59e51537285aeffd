//! What holds of the two search queries: what they ask SQLite for, and what they make of its
//! answers.

use vstd::prelude::*;
use crate::projection::ProjectionTables;
use crate::queries::{
    answers, containing, filter_conditions, filter_values, is_like, like_matches, limit_of,
    list_query, lists, match_query, match_values, no_filters, passes, read_count, result_of,
    results_of, row_of, selects, starts_listing, stored_snippet, until_nul, without_marks,
    FilterView, ListedRow, ListedView, ResultView,
};
use crate::sanitize::{fts_query_of, is_word_char, words_of};
use crate::search_index::{bound_of, finds_nothing, found_by, matching_of};
use crate::text::{
    ascii_small, text_order_is_irreflexive, text_precedes, trimmed_of, unicode_lowercase,
};
use vstd::utf8::encode_utf8;

verus! {

/// The filter for a content type alone.
pub open spec fn of_content_type(filters: FilterView) -> FilterView {
    FilterView { content_type: filters.content_type, ..no_filters() }
}

/// The filter for a first date alone.
pub open spec fn from_date(filters: FilterView) -> FilterView {
    FilterView { since: filters.since, ..no_filters() }
}

/// The filter for who recorded alone.
pub open spec fn by_recorder(filters: FilterView) -> FilterView {
    FilterView { recorded_by: filters.recorded_by, ..no_filters() }
}

/// The filter for an attendee alone.
pub open spec fn with_attendee(filters: FilterView) -> FilterView {
    FilterView { attendee: filters.attendee, ..no_filters() }
}

/// Filters that nothing was set in let every meeting through that is not restricted.
pub proof fn filters_start_empty()
    ensures
        no_filters().content_type is None,
        no_filters().since is None,
        no_filters().attendee is None,
        no_filters().recorded_by is None,
        !no_filters().include_restricted,
{
}

/// Each filter adds one condition: that the content type is the given one, that the date is no
/// earlier than the given one, that the name of who recorded is like the pattern, and that some
/// attendee of the meeting is like the pattern.
pub proof fn each_filter_adds_its_condition(filters: FilterView)
    ensures
        filters.content_type is Some ==> filter_conditions(of_content_type(filters))
            == " AND m.content_type = ?"@,
        filters.since is Some ==> filter_conditions(from_date(filters)) == " AND m.date >= ?"@,
        filters.recorded_by is Some ==> filter_conditions(by_recorder(filters))
            == " AND m.recorded_by LIKE ?"@,
        filters.attendee is Some ==> filter_conditions(with_attendee(filters))
            == " AND EXISTS (SELECT 1 FROM meeting_attendees a
                           WHERE a.meeting_rowid = m.rowid
                             AND a.attendee_lower LIKE ?)"@,
        filter_conditions(no_filters()) == Seq::<char>::empty(),
{
    assert(filter_conditions(no_filters()) =~= Seq::<char>::empty());
    if filters.content_type is Some {
        assert(filter_conditions(of_content_type(filters)) =~= " AND m.content_type = ?"@);
    }
    if filters.since is Some {
        assert(filter_conditions(from_date(filters)) =~= " AND m.date >= ?"@);
    }
    if filters.recorded_by is Some {
        assert(filter_conditions(by_recorder(filters)) =~= " AND m.recorded_by LIKE ?"@);
    }
    if filters.attendee is Some {
        assert(filter_conditions(with_attendee(filters))
            =~= " AND EXISTS (SELECT 1 FROM meeting_attendees a
                           WHERE a.meeting_rowid = m.rowid
                             AND a.attendee_lower LIKE ?)"@);
    }
}

/// Each filter binds one value: the content type and the date as they are, the two names within
/// wildcards, that of the attendee in lower case.
pub proof fn each_filter_binds_its_value(filters: FilterView)
    ensures
        filters.content_type matches Some(kind) ==> filter_values(of_content_type(filters))
            == seq![kind],
        filters.since matches Some(since) ==> filter_values(from_date(filters)) == seq![since],
        filters.recorded_by matches Some(name) ==> filter_values(by_recorder(filters))
            == seq![seq!['%'] + name + seq!['%']],
        filters.attendee matches Some(name) ==> filter_values(with_attendee(filters))
            == seq![seq!['%'] + unicode_lowercase(name) + seq!['%']],
        filter_values(no_filters()) == Seq::<Seq<char>>::empty(),
{
    patterns_are_set_within_wildcards(filters.recorded_by->0);
    patterns_are_set_within_wildcards(unicode_lowercase(filters.attendee->0));
    assert(filter_values(no_filters()) =~= Seq::<Seq<char>>::empty());
    if filters.content_type is Some {
        assert(filter_values(of_content_type(filters)) =~= seq![filters.content_type->0]);
    }
    if filters.since is Some {
        assert(filter_values(from_date(filters)) =~= seq![filters.since->0]);
    }
    if filters.recorded_by is Some {
        assert(filter_values(by_recorder(filters)) =~= seq![containing(filters.recorded_by->0)]);
    }
    if filters.attendee is Some {
        assert(filter_values(with_attendee(filters)) =~= seq![
            containing(unicode_lowercase(filters.attendee->0)),
        ]);
    }
}

/// The pattern for a text that contains another is that other one with a wildcard at each end.
pub proof fn patterns_are_set_within_wildcards(part: Seq<char>)
    ensures
        containing(part) == seq!['%'] + part + seq!['%'],
{
    reveal_strlit("%");
    assert("%"@ =~= seq!['%']);
}

/// Several filters add their conditions one behind the other and bind their values in the same
/// order: content type, date, who recorded, attendee. Whether restricted meetings are asked for
/// adds nothing.
pub proof fn conditions_and_values_go_in_one_order(filters: FilterView)
    ensures
        filter_conditions(filters) == filter_conditions(of_content_type(filters))
            + filter_conditions(from_date(filters)) + filter_conditions(by_recorder(filters))
            + filter_conditions(with_attendee(filters)),
        filter_values(filters) == filter_values(of_content_type(filters)) + filter_values(
            from_date(filters),
        ) + filter_values(by_recorder(filters)) + filter_values(with_attendee(filters)),
{
    assert(filter_conditions(filters) =~= filter_conditions(of_content_type(filters))
        + filter_conditions(from_date(filters)) + filter_conditions(by_recorder(filters))
        + filter_conditions(with_attendee(filters)));
    assert(filter_values(filters) =~= filter_values(of_content_type(filters)) + filter_values(
        from_date(filters),
    ) + filter_values(by_recorder(filters)) + filter_values(with_attendee(filters)));
}

/// A listing asks for the meetings that meet the conditions, the latest first; a full-text search
/// for those of them that match, the best first and of equals the latest.
pub proof fn queries_hold_the_conditions(filters: FilterView, query: Seq<char>)
    ensures
        list_query(filters) == "SELECT m.path, m.title, m.date, m.content_type
         FROM meetings m
         WHERE 1=1"@ + filter_conditions(filters) + " ORDER BY m.date DESC LIMIT ?"@,
        match_query(filters) == "SELECT m.path, m.title, m.date, m.content_type,
                snippet(meetings_fts, 1, char(2), char(3), '…', 24) AS snippet
         FROM meetings_fts
         JOIN meetings m ON m.rowid = meetings_fts.rowid
         WHERE meetings_fts MATCH ?"@ + filter_conditions(filters)
            + " ORDER BY rank, m.date DESC LIMIT ?"@,
        match_values(query, filters) == seq![query] + filter_values(filters),
{
}

/// A meeting passes a content type that is its own, a date that is not after its own, a name that
/// who recorded it is like, and a name that one of its attendees is like in lower case; filters
/// that were not set it passes.
pub proof fn meetings_pass_each_filter(tables: ProjectionTables, filters: FilterView, rowid: i64)
    ensures
        filters.content_type matches Some(kind) ==> passes(tables, of_content_type(filters), rowid)
            == (tables.meetings[rowid].content_type == kind),
        filters.since matches Some(since) ==> passes(tables, from_date(filters), rowid) == (
        tables.meetings[rowid].date == since || !text_precedes(tables.meetings[rowid].date, since)),
        filters.recorded_by matches Some(name) ==> passes(tables, by_recorder(filters), rowid)
            == is_like(tables.meetings[rowid].recorded_by, containing(name)),
        filters.attendee matches Some(name) ==> passes(tables, with_attendee(filters), rowid) == (
        exists|attendee: Seq<char>| #[trigger]
            tables.attendees.contains((rowid, attendee)) && is_like(
                attendee,
                containing(unicode_lowercase(name)),
            )),
        passes(tables, no_filters(), rowid),
{
    if filters.since is Some {
        text_order_is_irreflexive(filters.since->0);
    }
}

/// A meeting passes several filters where it passes each of them.
pub proof fn filters_narrow_together(tables: ProjectionTables, filters: FilterView, rowid: i64)
    ensures
        passes(tables, filters, rowid) == (passes(tables, of_content_type(filters), rowid)
            && passes(tables, from_date(filters), rowid) && passes(
            tables,
            by_recorder(filters),
            rowid,
        ) && passes(tables, with_attendee(filters), rowid)),
{
}

/// A listing selects the stored meetings that pass; a full-text search those of them whose title
/// and body match, and whether the one or the other is searched changes no filter.
pub proof fn searches_select_what_passes(
    tables: ProjectionTables,
    filters: FilterView,
    query: Seq<char>,
    rowid: i64,
)
    ensures
        selects(tables, filters, None, rowid) == (tables.meetings.contains_key(rowid) && passes(
            tables,
            filters,
            rowid,
        )),
        selects(tables, filters, Some(query), rowid) == (selects(tables, filters, None, rowid)
            && tables.texts.contains_key(rowid) && stored_snippet(tables, query, rowid) is Some),
{
}

/// A row shows the path, title, date and content type of its meeting, and the snippet of the match
/// where there is a query.
pub proof fn rows_show_their_meeting(tables: ProjectionTables, query: Seq<char>, rowid: i64)
    ensures
        row_of(tables, None, rowid).path == tables.meetings[rowid].path,
        row_of(tables, None, rowid).title == tables.meetings[rowid].title,
        row_of(tables, None, rowid).date == tables.meetings[rowid].date,
        row_of(tables, None, rowid).content_type == tables.meetings[rowid].content_type,
        row_of(tables, None, rowid).snippet.len() == 0,
        row_of(tables, Some(query), rowid) == (ListedView {
            snippet: stored_snippet(tables, query, rowid)->0,
            ..row_of(tables, None, rowid)
        }),
{
}

/// A limit is the number of rows that are asked for; one that SQLite has no number for is none.
pub proof fn limits_are_row_counts(limit: usize)
    ensures
        limit <= 9_223_372_036_854_775_807 ==> limit_of(limit) == limit,
        limit > 9_223_372_036_854_775_807 ==> limit_of(limit) == -1,
{
}

/// No search answers with more results than its limit, and one that was read to its end with fewer
/// has left nothing out.
pub proof fn answers_stop_at_their_limit(
    tables: ProjectionTables,
    filters: FilterView,
    query: Option<Seq<char>>,
    limit: int,
    rows: Seq<Option<ListedRow>>,
)
    requires
        answers(tables, filters, query, limit, rows),
    ensures
        limit >= 0 ==> results_of(rows).len() <= limit,
        (limit < 0 || rows.len() < limit) && (rows.len() == 0 || rows.last() is Some)
            ==> forall|rowid: i64| #[trigger]
            selects(tables, filters, query, rowid) ==> results_of(rows).contains(
                result_of(row_of(tables, query, rowid)),
            ),
{
    let (whole, rowids) = choose|whole: Seq<ListedView>, rowids: Seq<i64>| #[trigger]
        lists(tables, filters, query, limit, whole, rowids) && starts_listing(rows, whole);
    read_rows_are_results(rows, whole);
    if (limit < 0 || rows.len() < limit) && (rows.len() == 0 || rows.last() is Some) {
        assert forall|rowid: i64| #[trigger]
            selects(tables, filters, query, rowid) implies results_of(rows).contains(
            result_of(row_of(tables, query, rowid)),
        ) by {
            assert(rowids.contains(rowid));
            let i = rowids.index_of(rowid);
            assert(whole[i] == row_of(tables, query, rowids[i]));
            assert(results_of(rows)[i] == result_of(whole[i]));
        }
    }
}

proof fn read_rows_are_results(rows: Seq<Option<ListedRow>>, whole: Seq<ListedView>)
    requires
        starts_listing(rows, whole),
    ensures
        results_of(rows).len() == read_count(rows),
        forall|i: int|
            0 <= i < read_count(rows) ==> #[trigger] results_of(rows)[i] == result_of(whole[i]),
{
    let n = read_count(rows);
    some_rows_are_results(rows.take(n), whole);
    if n < rows.len() {
        assert(rows.drop_last() =~= rows.take(n));
    } else {
        assert(rows.take(n) =~= rows);
    }
}

proof fn some_rows_are_results(rows: Seq<Option<ListedRow>>, whole: Seq<ListedView>)
    requires
        rows.len() <= whole.len(),
        forall|i: int|
            0 <= i < rows.len() ==> (#[trigger] rows[i]) is Some && rows[i]->0@ == whole[i],
    ensures
        results_of(rows).len() == rows.len(),
        forall|i: int|
            0 <= i < rows.len() ==> #[trigger] results_of(rows)[i] == result_of(whole[i]),
    decreases rows.len(),
{
    if rows.len() > 0 {
        some_rows_are_results(rows.drop_last(), whole);
        assert(rows.last() == rows[rows.len() - 1]);
    }
}

/// A snippet loses the two marks around matches, U+0002 and U+0003, and nothing else.
pub proof fn only_marks_are_stripped(text: Seq<char>, c: char)
    ensures
        without_marks(Seq::<char>::empty()) == Seq::<char>::empty(),
        without_marks(text.push(c)) == if c as u32 == 2 || c as u32 == 3 {
            without_marks(text)
        } else {
            without_marks(text).push(c)
        },
{
    assert(text.push(c).drop_last() =~= text);
}

/// Each row that could be read becomes a result, in order, with its path, title, date and content
/// type as they are and its snippet without marks; it was matched by no alias.
pub proof fn rows_become_results(rows: Seq<Option<ListedRow>>, row: ListedRow)
    ensures
        results_of(Seq::<Option<ListedRow>>::empty()).len() == 0,
        results_of(rows.push(None)) == results_of(rows),
        results_of(rows.push(Some(row))).len() == results_of(rows).len() + 1,
        results_of(rows.push(Some(row))).drop_last() == results_of(rows),
        results_of(rows.push(Some(row))).last().path == encode_utf8(row.path@),
        results_of(rows.push(Some(row))).last().title == row.title@,
        results_of(rows.push(Some(row))).last().date == row.date@,
        results_of(rows.push(Some(row))).last().content_type == row.content_type@,
        results_of(rows.push(Some(row))).last().snippet == without_marks(row.snippet@),
        results_of(rows.push(Some(row))).last().matched_via_alias is None,
{
    assert(rows.push(None).drop_last() =~= rows);
    assert(rows.push(Some(row)).drop_last() =~= rows);
    assert(results_of(rows.push(Some(row))).drop_last() =~= results_of(rows));
}

/// In a pattern `%` stands for any characters, `_` for one, and everything else for itself up to
/// the case of ASCII letters.
pub proof fn patterns_match_by_wildcards(pattern: Seq<char>, text: Seq<char>, p: char, t: char)
    ensures
        like_matches(Seq::<char>::empty(), text) == (text.len() == 0),
        like_matches(seq!['%'] + pattern, text) == exists|k: int|
            0 <= k <= text.len() && #[trigger] like_matches(pattern, text.skip(k)),
        like_matches(seq!['_'] + pattern, seq![t] + text) == like_matches(pattern, text),
        p != '%' && p != '_' ==> like_matches(seq![p] + pattern, seq![t] + text) == (ascii_small(p)
            == ascii_small(t) && like_matches(pattern, text)),
        p != '%' ==> !like_matches(seq![p] + pattern, Seq::<char>::empty()),
{
    assert((seq!['_'] + pattern).drop_first() =~= pattern);
    assert((seq![p] + pattern).drop_first() =~= pattern);
    assert((seq![t] + text).drop_first() =~= text);
    wildcard_skips_any_number(pattern, text);
}

proof fn wildcard_skips_any_number(pattern: Seq<char>, text: Seq<char>)
    ensures
        like_matches(seq!['%'] + pattern, text) == exists|k: int|
            0 <= k <= text.len() && #[trigger] like_matches(pattern, text.skip(k)),
    decreases text.len(),
{
    let whole = seq!['%'] + pattern;
    assert(whole.drop_first() =~= pattern);
    assert(text.skip(0) =~= text);
    if like_matches(pattern, text) {
        assert(like_matches(pattern, text.skip(0)));
    }
    if text.len() > 0 {
        let rest = text.drop_first();
        wildcard_skips_any_number(pattern, rest);
        assert forall|k: int| 0 <= k <= rest.len() implies #[trigger] rest.skip(k) == text.skip(
            k + 1,
        ) by {
            assert(rest.skip(k) =~= text.skip(k + 1));
        }
        if like_matches(whole, rest) {
            let k = choose|k: int|
                0 <= k <= rest.len() && #[trigger] like_matches(pattern, rest.skip(k));
            assert(like_matches(pattern, text.skip(k + 1)));
        }
        if exists|k: int| 0 <= k <= text.len() && #[trigger] like_matches(pattern, text.skip(k)) {
            let k = choose|k: int|
                0 <= k <= text.len() && #[trigger] like_matches(pattern, text.skip(k));
            if k > 0 {
                assert(like_matches(pattern, rest.skip(k - 1)));
                assert(like_matches(whole, rest));
            }
            assert(like_matches(whole, text));
        }
    } else {
        assert forall|k: int| 0 <= k <= text.len() implies text.skip(k) == text by {
            assert(text.skip(k) =~= text);
        }
    }
}

/// `LIKE` reads its pattern and its text up to their first NUL.
pub proof fn like_stops_at_nul(
    pattern: Seq<char>,
    pattern_rest: Seq<char>,
    text: Seq<char>,
    text_rest: Seq<char>,
)
    requires
        !pattern.contains('\0'),
        !text.contains('\0'),
    ensures
        is_like(text, pattern) == like_matches(pattern, text),
        is_like(text + seq!['\0'] + text_rest, pattern + seq!['\0'] + pattern_rest) == like_matches(
            pattern,
            text,
        ),
{
    nothing_behind_a_nul(pattern, pattern_rest);
    nothing_behind_a_nul(text, text_rest);
}

proof fn nothing_behind_a_nul(text: Seq<char>, rest: Seq<char>)
    requires
        !text.contains('\0'),
    ensures
        until_nul(text) == text,
        until_nul(text + seq!['\0'] + rest) == text,
    decreases text.len(),
{
    if text.len() > 0 {
        let shorter = text.drop_first();
        assert(text[0] != '\0');
        assert(!shorter.contains('\0')) by {
            if shorter.contains('\0') {
                let i = shorter.index_of('\0');
                assert(text[i + 1] == '\0');
            }
        }
        nothing_behind_a_nul(shorter, rest);
        assert((text + seq!['\0'] + rest).drop_first() =~= shorter + seq!['\0'] + rest);
        assert(seq![text[0]] + shorter =~= text);
    } else {
        assert(text =~= Seq::<char>::empty());
    }
}

/// A search word is made of the letters and digits of ASCII and of all that is beyond ASCII.
pub proof fn words_are_letters_and_digits(c: char)
    ensures
        is_word_char(c) <==> {
            let code = c as u32;
            ||| 0x30 <= code && code <= 0x39
            ||| 0x41 <= code && code <= 0x5a
            ||| 0x61 <= code && code <= 0x7a
            ||| code >= 0x80
        },
{
}

/// Whether a text is one search word, or empty.
pub open spec fn is_one_word(text: Seq<char>) -> bool {
    forall|i: int| 0 <= i < text.len() ==> is_word_char(#[trigger] text[i])
}

/// A text with its ASCII letters small.
pub open spec fn lowered(text: Seq<char>) -> Seq<char> {
    Seq::new(text.len(), |i: int| ascii_small(text[i]))
}

/// The words of a text stand one blank apart, in small letters and in their order, whatever stood
/// between them.
pub proof fn words_stand_one_blank_apart(text: Seq<char>, mark: char, word: Seq<char>)
    requires
        !is_word_char(mark),
        is_one_word(word),
    ensures
        words_of(word) == lowered(word),
        words_of(text.push(mark)) == words_of(text),
        word.len() > 0 ==> words_of(text.push(mark) + word) == if words_of(text).len() == 0 {
            lowered(word)
        } else {
            words_of(text) + seq![' '] + lowered(word)
        },
    decreases word.len(),
{
    let marked = text.push(mark);
    assert(marked.drop_last() =~= text);
    if word.len() == 0 {
        assert(words_of(word) =~= lowered(word));
    } else {
        let shorter = word.drop_last();
        let whole = marked + word;
        let c = word.last();
        assert(c == word[word.len() - 1]);
        assert forall|i: int| 0 <= i < shorter.len() implies is_word_char(#[trigger] shorter[i]) by {
            assert(shorter[i] == word[i]);
        }
        words_stand_one_blank_apart(text, mark, shorter);
        assert(whole.drop_last() =~= marked + shorter);
        assert(lowered(word) =~= lowered(shorter).push(ascii_small(c)));
        assert(whole.last() == c);
        if shorter.len() == 0 {
            assert(marked + shorter =~= marked);
            assert(whole[whole.len() - 2] == mark);
            assert(lowered(shorter) =~= Seq::<char>::empty());
        } else {
            assert(whole[whole.len() - 2] == shorter.last());
            assert(word[word.len() - 2] == shorter.last());
            assert(shorter.last() == shorter[shorter.len() - 1]);
        }
        if words_of(text).len() > 0 {
            assert(words_of(whole) =~= words_of(text) + seq![' '] + lowered(word));
        } else {
            assert(words_of(whole) =~= lowered(word));
        }
    }
}

/// A full-text query is the words of what was typed, the last of them a prefix; without a word there
/// is none. A search for white space lists, and one for punctuation alone finds nothing.
pub proof fn queries_are_the_words_typed(text: Seq<char>)
    ensures
        words_of(text).len() == 0 ==> fts_query_of(text).len() == 0,
        words_of(text).len() > 0 ==> fts_query_of(text) == words_of(text) + seq!['*'],
        trimmed_of(text).len() == 0 ==> matching_of(text) is None && !finds_nothing(text),
        trimmed_of(text).len() > 0 ==> matching_of(text) == Some(fts_query_of(text)),
        trimmed_of(text).len() > 0 ==> finds_nothing(text) == (words_of(text).len() == 0),
{
    if words_of(text).len() > 0 {
        assert(words_of(text).push('*') =~= words_of(text) + seq!['*']);
    }
}

/// A search stops at its limit; without one it stops at the largest number there is.
pub proof fn searches_stop_at_their_limit(limit: Option<usize>)
    ensures
        limit matches Some(n) ==> bound_of(limit) == limit_of(n),
        limit is None ==> bound_of(limit) == limit_of(usize::MAX),
{
}

/// What a search finds is nothing for punctuation alone, and else what the query for its words
/// answers under its limit.
pub proof fn searches_find_what_their_words_select(
    tables: ProjectionTables,
    query: Seq<char>,
    filters: FilterView,
    limit: Option<usize>,
    results: Seq<ResultView>,
)
    requires
        found_by(tables, query, filters, limit, results),
    ensures
        finds_nothing(query) ==> results.len() == 0,
        !finds_nothing(query) ==> exists|rows: Seq<Option<ListedRow>>| #[trigger]
            answers(tables, filters, matching_of(query), bound_of(limit), rows) && results
                == results_of(rows),
{
}

/// A row that could not be read ends an answer; the rows before it are the start of the listing, and
/// without one the answer is the whole of it.
pub proof fn unread_rows_end_an_answer(rows: Seq<ListedRow>, more: Seq<ListedView>)
    ensures
        ({
            let shown = Seq::new(rows.len(), |i: int| rows[i]@);
            let read = Seq::new(rows.len(), |i: int| Some(rows[i]));
            &&& starts_listing(read, shown)
            &&& starts_listing(read.push(None), shown + more)
            &&& more.len() > 0 ==> !starts_listing(read, shown + more)
        }),
{
    let shown = Seq::new(rows.len(), |i: int| rows[i]@);
    let read = Seq::new(rows.len(), |i: int| Some(rows[i]));
    if rows.len() > 0 {
        assert(read.last() is Some);
    }
    assert(read.push(None).last() is None);
}

} // verus!
