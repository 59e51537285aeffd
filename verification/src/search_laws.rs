//! What holds of the search index across its operations.

use vstd::prelude::*;
use crate::meeting::IndexableDocument;
use crate::projection::{fts_snippet, is_stored, stored_as, ProjectionTables, TextRecord};
use crate::queries::{
    answers, containing, is_like, is_read_in_turn, like_matches, lists, no_filters, passes,
    read_count, result_of, results_of, row_of, selects, starts_listing, until_nul, without_marks,
    FilterView, ListedRow, ListedView, ResultView,
};
use crate::search_index::{
    bound_of, finds_nothing, forgets, found_by, matching_of, record_of, stored_text, stores,
    stores_at, tables_agree, without_meeting,
};
use crate::text::{ascii_small, same_ignoring_ascii_case, text_precedes};

verus! {

/// A document that was stored is listed, under its path and with its title, date and content type.
pub proof fn stored_document_is_listed(
    before: ProjectionTables,
    document: IndexableDocument,
    after: ProjectionTables,
)
    requires
        stores(before, document, after),
    ensures
        exists|rowid: i64| #[trigger]
            selects(after, no_filters(), None, rowid) && row_of(after, None, rowid) == (ListedView {
                path: stored_text(document.path@),
                title: document.title@,
                date: document.date@,
                content_type: document.content_type@,
                snippet: Seq::empty(),
            }),
{
    let (rowid, indexed_at) = choose|rowid: i64, indexed_at: i64| #[trigger]
        stores_at(before, document, after, rowid, indexed_at);
    assert(after.meetings[rowid] == record_of(document, indexed_at));
    assert(passes(after, no_filters(), rowid));
    assert(selects(after, no_filters(), None, rowid));
}

/// Under the path of a document that was stored there is one row, and a full-text query finds it
/// exactly where it matches the title and body that were stored: what was there before is gone.
pub proof fn storing_replaces_what_was_there(
    before: ProjectionTables,
    document: IndexableDocument,
    after: ProjectionTables,
    query: Seq<char>,
    rowid: i64,
)
    requires
        tables_agree(before),
        stores(before, document, after),
        stored_as(after, stored_text(document.path@), rowid),
    ensures
        selects(after, no_filters(), Some(query), rowid) == (fts_snippet(
            document.title@,
            document.body@,
            query,
        ) is Some),
        forall|other: i64| #[trigger]
            stored_as(after, stored_text(document.path@), other) ==> other == rowid,
{
    let path = stored_text(document.path@);
    let (new, indexed_at) = choose|new: i64, indexed_at: i64| #[trigger]
        stores_at(before, document, after, new, indexed_at);
    assert forall|other: i64| #[trigger] stored_as(after, path, other) implies other == new by {
        if other != new {
            assert(before.meetings[other].path == path);
            assert(stored_as(before, path, other));
            assert(before.meetings[new].path == before.meetings[other].path);
        }
    }
    assert(passes(after, no_filters(), rowid));
    assert(after.texts[rowid] == TextRecord { title: document.title@, body: document.body@ });
}

/// Storing a document changes nothing of the meetings under other paths.
pub proof fn storing_leaves_other_meetings(
    before: ProjectionTables,
    document: IndexableDocument,
    after: ProjectionTables,
    rowid: i64,
)
    requires
        tables_agree(before),
        stores(before, document, after),
        before.meetings.contains_key(rowid),
        before.meetings[rowid].path != stored_text(document.path@),
    ensures
        after.meetings.contains_key(rowid),
        after.meetings[rowid] == before.meetings[rowid],
        after.texts[rowid] == before.texts[rowid],
{
    let (new, indexed_at) = choose|new: i64, indexed_at: i64| #[trigger]
        stores_at(before, document, after, new, indexed_at);
    assert(rowid != new);
}

/// A meeting that was forgotten is in no answer: neither listed nor found by its text.
pub proof fn forgotten_meeting_is_not_found(
    before: ProjectionTables,
    path: Seq<char>,
    after: ProjectionTables,
    filters: FilterView,
    query: Option<Seq<char>>,
    rowid: i64,
)
    requires
        tables_agree(before),
        forgets(before, path, after),
        selects(after, filters, query, rowid),
    ensures
        row_of(after, query, rowid).path != path,
{
    if after.meetings[rowid].path == path {
        crate::search_index::forgetting_leaves_nothing(before, path, after);
        assert(stored_as(after, path, rowid));
    }
}

/// Forgetting a meeting changes nothing of the others.
pub proof fn forgetting_leaves_other_meetings(
    before: ProjectionTables,
    path: Seq<char>,
    after: ProjectionTables,
    rowid: i64,
)
    requires
        forgets(before, path, after),
        before.meetings.contains_key(rowid),
        before.meetings[rowid].path != path,
    ensures
        after.meetings.contains_key(rowid),
        after.meetings[rowid] == before.meetings[rowid],
        after.texts[rowid] == before.texts[rowid],
{
    if is_stored(before, path) {
        let gone = choose|gone: i64| #[trigger]
            stored_as(before, path, gone) && after == without_meeting(before, gone);
        assert(rowid != gone);
    }
}

/// Forgetting a meeting twice is forgetting it once.
pub proof fn forgetting_is_idempotent(
    before: ProjectionTables,
    path: Seq<char>,
    after: ProjectionTables,
    again: ProjectionTables,
)
    requires
        tables_agree(before),
        forgets(before, path, after),
        forgets(after, path, again),
    ensures
        again == after,
{
    crate::search_index::forgetting_leaves_nothing(before, path, after);
}

/// A stored meeting is found by a query exactly where a match of its title and body alone finds it,
/// and with the snippet of that match: the index and a live re-check agree.
pub proof fn index_agrees_with_a_live_match(
    tables: ProjectionTables,
    query: Seq<char>,
    rowid: i64,
)
    requires
        tables_agree(tables),
        tables.meetings.contains_key(rowid),
    ensures
        ({
            let text = tables.texts[rowid];
            let live = fts_snippet(tables.meetings[rowid].title, text.body, query);
            &&& selects(tables, no_filters(), Some(query), rowid) == (live is Some)
            &&& live matches Some(raw) ==> result_of(row_of(tables, Some(query), rowid)).snippet
                == without_marks(raw)
        }),
{
    assert(passes(tables, no_filters(), rowid));
    assert(tables.texts.dom().contains(rowid));
}

/// What a listing answers is ordered by date, the latest first.
pub proof fn listing_is_ordered_by_date(
    tables: ProjectionTables,
    filters: FilterView,
    limit: int,
    rows: Seq<ListedView>,
    rowids: Seq<i64>,
    i: int,
    j: int,
)
    requires
        lists(tables, filters, None, limit, rows, rowids),
        0 <= i <= j < rows.len(),
    ensures
        !text_precedes(rows[i].date, rows[j].date),
{
    if i == j {
        crate::text::text_order_is_irreflexive(rows[i].date);
    }
}

proof fn read_rows_become_results(rows: Seq<Option<ListedRow>>)
    requires
        is_read_in_turn(rows),
    ensures
        results_of(rows).len() == read_count(rows),
        forall|i: int|
            0 <= i < read_count(rows) ==> #[trigger] results_of(rows)[i] == result_of(rows[i]->0@),
    decreases rows.len(),
{
    if rows.len() > 0 {
        let earlier = rows.drop_last();
        assert forall|i: int| 0 <= i < earlier.len() implies (#[trigger] earlier[i]) is Some by {
            assert(earlier[i] == rows[i]);
        }
        read_rows_become_results(earlier);
    }
}

/// Whatever a search answers, each result is that of a meeting which the search selects, and no
/// meeting comes twice.
pub proof fn search_answers_with_selected_meetings(
    tables: ProjectionTables,
    query: Seq<char>,
    filters: FilterView,
    limit: Option<usize>,
    results: Seq<ResultView>,
)
    requires
        found_by(tables, query, filters, limit, results),
    ensures
        exists|rowids: Seq<i64>|
            rowids.len() == results.len() && #[trigger] rowids.no_duplicates() && forall|i: int|
                0 <= i < rowids.len() ==> selects(
                    tables,
                    filters,
                    matching_of(query),
                    #[trigger] rowids[i],
                ) && results[i] == result_of(row_of(tables, matching_of(query), rowids[i])),
{
    let matching = matching_of(query);
    if finds_nothing(query) {
        assert(Seq::<i64>::empty().no_duplicates());
    } else {
        let rows = choose|rows: Seq<Option<ListedRow>>| #[trigger]
            answers(tables, filters, matching, bound_of(limit), rows) && results == results_of(rows);
        read_rows_become_results(rows);
        let (whole, all) = choose|whole: Seq<ListedView>, all: Seq<i64>| #[trigger]
            lists(tables, filters, matching, bound_of(limit), whole, all) && starts_listing(
                rows,
                whole,
            );
        let rowids = all.take(read_count(rows));
        assert(rowids.no_duplicates());
        assert forall|i: int| 0 <= i < rowids.len() implies selects(
            tables,
            filters,
            matching,
            #[trigger] rowids[i],
        ) && results[i] == result_of(row_of(tables, matching, rowids[i])) by {
            assert(rowids[i] == all[i]);
            assert(rows[i]->0@ == whole[i]);
        }
    }
}

/// Whatever a search without a query answers, the latest meetings come first.
pub proof fn search_without_query_is_ordered_by_date(
    tables: ProjectionTables,
    query: Seq<char>,
    filters: FilterView,
    limit: Option<usize>,
    results: Seq<ResultView>,
    i: int,
    j: int,
)
    requires
        found_by(tables, query, filters, limit, results),
        matching_of(query) is None,
        0 <= i <= j < results.len(),
    ensures
        !text_precedes(results[i].date, results[j].date),
{
    let rows = choose|rows: Seq<Option<ListedRow>>| #[trigger]
        answers(tables, filters, None, bound_of(limit), rows) && results == results_of(rows);
    read_rows_become_results(rows);
    let (whole, all) = choose|whole: Seq<ListedView>, all: Seq<i64>| #[trigger]
        lists(tables, filters, None, bound_of(limit), whole, all) && starts_listing(rows, whole);
    assert(rows[i]->0@ == whole[i]);
    assert(rows[j]->0@ == whole[j]);
    listing_is_ordered_by_date(tables, filters, bound_of(limit), whole, all, i, j);
}

/// What a listing without a limit answers is every meeting that passes its filters.
pub proof fn listing_without_limit_is_complete(
    tables: ProjectionTables,
    filters: FilterView,
    query: Option<Seq<char>>,
    rows: Seq<ListedView>,
    rowids: Seq<i64>,
    rowid: i64,
)
    requires
        lists(tables, filters, query, -1, rows, rowids),
        selects(tables, filters, query, rowid),
    ensures
        rows.contains(row_of(tables, query, rowid)),
{
    assert(rowids.contains(rowid));
    let i = rowids.index_of(rowid);
    assert(rows[i] == row_of(tables, query, rowid));
}

/// Whether `text` has `part` at `at`, up to the case of ASCII letters.
pub open spec fn stands_ignoring_ascii_case(text: Seq<char>, part: Seq<char>, at: int) -> bool {
    &&& 0 <= at
    &&& at + part.len() <= text.len()
    &&& same_ignoring_ascii_case(text.subrange(at, at + part.len()), part)
}

/// Whether `text` contains `part` somewhere, up to the case of ASCII letters.
pub open spec fn contains_ignoring_ascii_case(text: Seq<char>, part: Seq<char>) -> bool {
    exists|at: int| stands_ignoring_ascii_case(text, part, at)
}

/// Whether a pattern's characters stand for themselves.
pub open spec fn is_literal(part: Seq<char>) -> bool {
    forall|i: int|
        0 <= i < part.len() ==> #[trigger] part[i] != '%' && part[i] != '_' && part[i] != '\0'
}

proof fn anything_matches_the_wildcard(text: Seq<char>)
    ensures
        like_matches(seq!['%'], text),
    decreases text.len(),
{
    reveal_with_fuel(like_matches, 2);
    assert(seq!['%'].drop_first() =~= Seq::<char>::empty());
    if text.len() > 0 {
        anything_matches_the_wildcard(text.drop_first());
    }
}

proof fn literal_matches_a_start(part: Seq<char>, text: Seq<char>)
    requires
        is_literal(part),
    ensures
        like_matches(part.push('%'), text) == (part.len() <= text.len()
            && same_ignoring_ascii_case(text.take(part.len() as int), part)),
    decreases part.len(),
{
    let pattern = part.push('%');
    if part.len() == 0 {
        assert(pattern =~= seq!['%']);
        anything_matches_the_wildcard(text);
        assert(text.take(0) =~= part);
    } else {
        let rest = part.drop_first();
        assert(pattern.drop_first() =~= rest.push('%'));
        assert(is_literal(rest)) by {
            assert forall|i: int| 0 <= i < rest.len() implies #[trigger] rest[i] != '%' && rest[i]
                != '_' && rest[i] != '\0' by {
                assert(rest[i] == part[i + 1]);
            }
        }
        assert(part[0] != '%' && part[0] != '_');
        if text.len() > 0 {
            literal_matches_a_start(rest, text.drop_first());
            let n = part.len() as int;
            if part.len() <= text.len() {
                let start = text.take(n);
                let tail = text.drop_first().take(n - 1);
                assert(start.drop_first() =~= tail);
                if same_ignoring_ascii_case(start, part) {
                    assert(ascii_small(start[0]) == ascii_small(part[0]));
                    assert forall|i: int| 0 <= i < tail.len() implies ascii_small(
                        #[trigger] tail[i],
                    ) == ascii_small(rest[i]) by {
                        assert(ascii_small(start[i + 1]) == ascii_small(part[i + 1]));
                    }
                    assert(same_ignoring_ascii_case(tail, rest));
                }
                if same_ignoring_ascii_case(tail, rest) && ascii_small(part[0]) == ascii_small(
                    text[0],
                ) {
                    assert forall|i: int| 0 <= i < start.len() implies ascii_small(
                        #[trigger] start[i],
                    ) == ascii_small(part[i]) by {
                        if i > 0 {
                            assert(ascii_small(tail[i - 1]) == ascii_small(rest[i - 1]));
                        }
                    }
                    assert(same_ignoring_ascii_case(start, part));
                }
            }
        }
    }
}

proof fn literal_matches_anywhere(part: Seq<char>, text: Seq<char>)
    requires
        is_literal(part),
    ensures
        like_matches(seq!['%'] + part.push('%'), text) == contains_ignoring_ascii_case(text, part),
    decreases text.len(),
{
    let pattern = seq!['%'] + part.push('%');
    let n = part.len() as int;
    assert(pattern.drop_first() =~= part.push('%'));
    literal_matches_a_start(part, text);
    if n <= text.len() {
        assert(text.subrange(0, n) =~= text.take(n));
    }
    assert(stands_ignoring_ascii_case(text, part, 0) == like_matches(part.push('%'), text));
    if text.len() > 0 {
        let rest = text.drop_first();
        literal_matches_anywhere(part, rest);
        if contains_ignoring_ascii_case(rest, part) {
            let at = choose|at: int| stands_ignoring_ascii_case(rest, part, at);
            assert(text.subrange(at + 1, at + 1 + n) =~= rest.subrange(at, at + n));
            assert(stands_ignoring_ascii_case(text, part, at + 1));
        }
        if contains_ignoring_ascii_case(text, part) {
            let at = choose|at: int| stands_ignoring_ascii_case(text, part, at);
            if at > 0 {
                assert(rest.subrange(at - 1, at - 1 + n) =~= text.subrange(at, at + n));
                assert(stands_ignoring_ascii_case(rest, part, at - 1));
            }
        }
    }
}

proof fn text_without_nul_is_whole(text: Seq<char>)
    requires
        forall|i: int| 0 <= i < text.len() ==> #[trigger] text[i] != '\0',
    ensures
        until_nul(text) == text,
    decreases text.len(),
{
    if text.len() > 0 {
        let rest = text.drop_first();
        assert forall|i: int| 0 <= i < rest.len() implies #[trigger] rest[i] != '\0' by {
            assert(rest[i] == text[i + 1]);
        }
        text_without_nul_is_whole(rest);
        assert(seq![text[0]] + rest =~= text);
    } else {
        assert(until_nul(text) =~= text);
    }
}

/// A name filter finds the names that contain it, up to the case of ASCII letters, where it holds
/// no wildcard.
pub proof fn name_filter_finds_substrings(part: Seq<char>, text: Seq<char>)
    requires
        is_literal(part),
        forall|i: int| 0 <= i < text.len() ==> #[trigger] text[i] != '\0',
    ensures
        is_like(text, containing(part)) == contains_ignoring_ascii_case(text, part),
{
    reveal_strlit("%");
    let pattern = containing(part);
    assert(pattern =~= seq!['%'] + part.push('%'));
    assert forall|i: int| 0 <= i < pattern.len() implies #[trigger] pattern[i] != '\0' by {
        if 1 <= i <= part.len() {
            assert(pattern[i] == part[i - 1]);
        }
    }
    text_without_nul_is_whole(pattern);
    text_without_nul_is_whole(text);
    literal_matches_anywhere(part, text);
}

} // verus!
