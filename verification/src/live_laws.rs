//! What holds of a search for restricted meetings in their files.

use vstd::prelude::*;
use crate::corpus::{is_excluded, is_markdown};
use crate::errors::SearchIndexError;
use crate::meeting::{content_type_word, is_restricted, Frontmatter};
use crate::paths::absolute_bytes;
use crate::queries::{no_filters, results_view, FilterView, ResultView, SearchResult};
use crate::query_laws::{by_recorder, from_date, of_content_type, with_attendee};
use crate::restricted::{
    all_readable, entry_outcome, is_attended, is_latest_first, is_reordered, is_sorted_by_date,
    live_result_of, passes_live, ranks_above, restricted_answer, restricted_result_of,
    revision_results, scan_outcome, with_result, EntryOutcome, RestrictedEntry, RevisionReading,
};
use crate::sync::is_wanted;
use crate::text::{
    occurs_in, text_order_is_irreflexive, text_order_is_transitive, text_precedes,
    unicode_lowercase,
};

verus! {

/// A restricted meeting passes a content type that is its own, a date that is not after its own, a
/// name that one of its attendees contains and a name that its recorder contains, both in either
/// case; filters that were not set it passes.
pub proof fn restricted_meetings_pass_each_filter(frontmatter: Frontmatter, filters: FilterView)
    ensures
        filters.content_type matches Some(kind) ==> passes_live(
            frontmatter,
            of_content_type(filters),
        ) == (content_type_word(frontmatter.content_type) == kind),
        filters.since matches Some(since) ==> passes_live(frontmatter, from_date(filters)) == (
        frontmatter.date@ == since || !text_precedes(frontmatter.date@, since)),
        filters.recorded_by matches Some(name) ==> passes_live(frontmatter, by_recorder(filters))
            == (frontmatter.recorded_by is Some && occurs_in(
            unicode_lowercase(frontmatter.recorded_by->0@),
            unicode_lowercase(name),
        )),
        filters.attendee matches Some(name) ==> passes_live(frontmatter, with_attendee(filters))
            == exists|i: int|
            0 <= i < frontmatter.attendees@.len() && occurs_in(
                unicode_lowercase((#[trigger] frontmatter.attendees@[i])@),
                unicode_lowercase(name),
            ),
        passes_live(frontmatter, no_filters()),
{
    if filters.since is Some {
        text_order_is_irreflexive(filters.since->0);
    }
    if filters.attendee is Some {
        assert(passes_live(frontmatter, with_attendee(filters)) == is_attended(
            frontmatter.attendees@,
            filters.attendee->0,
        ));
    }
}

/// A restricted meeting passes several filters where it passes each of them.
pub proof fn filters_narrow_restricted_meetings_together(
    frontmatter: Frontmatter,
    filters: FilterView,
)
    ensures
        passes_live(frontmatter, filters) == (passes_live(frontmatter, of_content_type(filters))
            && passes_live(frontmatter, from_date(filters)) && passes_live(
            frontmatter,
            by_recorder(filters),
        ) && passes_live(frontmatter, with_attendee(filters))),
{
}

/// A file gives a result exactly where its frontmatter parses, is restricted and passes: its path
/// with the title, date and content type that it says, and nothing of its text.
pub proof fn files_give_restricted_meetings_alone(
    path: Seq<Seq<u8>>,
    parsed: Result<Frontmatter, String>,
    filters: FilterView,
)
    ensures
        restricted_result_of(path, parsed, filters) is Some == (parsed is Ok && is_restricted(
            parsed->Ok_0,
        ) && passes_live(parsed->Ok_0, filters)),
        restricted_result_of(path, parsed, filters) matches Some(result) ==> {
            &&& result.path == absolute_bytes(path)
            &&& result.title == parsed->Ok_0.title@
            &&& result.date == parsed->Ok_0.date@
            &&& result.content_type == content_type_word(parsed->Ok_0.content_type)
            &&& result.snippet.len() == 0
            &&& result.matched_via_alias is None
        },
{
    if parsed is Ok {
        assert(live_result_of(path, parsed->Ok_0).path == absolute_bytes(path));
    }
}

/// A walk is refused by an entry that comes too late, by one that it could not reach, and by a path,
/// a directory, a file or a content that is over the budget; directories that are never indexed, and
/// files that are not wanted or cannot be read, use none.
pub proof fn entries_refuse_or_give(
    root: Seq<Seq<u8>>,
    filters: FilterView,
    entry: RestrictedEntry,
)
    ensures
        ({
            let outcome = entry_outcome(root, filters, entry);
            let over = EntryOutcome::Refused("meeting corpus resource budget exceeded"@);
            let nothing = EntryOutcome::Gives(None);
            let reached = entry.in_time && entry.path is Some && entry.path_in_budget;
            let path = entry.path->0@;
            let wanted = reached && entry.is_file && is_wanted(root, path, entry.is_directory);
            &&& !entry.in_time ==> outcome == EntryOutcome::Refused(
                "meeting corpus authorization deadline elapsed"@,
            )
            &&& entry.in_time && entry.path is None ==> outcome == EntryOutcome::Refused(
                "meeting corpus traversal could not be verified"@,
            )
            &&& entry.in_time && entry.path is Some && !entry.path_in_budget ==> outcome
                == EntryOutcome::Refused("meeting corpus retained-path budget exceeded"@)
            &&& reached && entry.is_directory && is_excluded(root, path) ==> outcome == nothing
            &&& reached && entry.is_directory && !is_excluded(root, path)
                && entry.directory_in_budget ==> outcome == nothing
            &&& reached && entry.is_directory && !is_excluded(root, path)
                && !entry.directory_in_budget ==> outcome == over
            &&& reached && !entry.is_directory && !wanted ==> outcome == nothing
            &&& wanted && !entry.file_in_budget ==> outcome == over
            &&& wanted && entry.file_in_budget && entry.snapshot is None ==> outcome == nothing
            &&& wanted && entry.file_in_budget && entry.snapshot is Some
                && !entry.content_in_budget ==> outcome == over
            &&& wanted && entry.file_in_budget && entry.snapshot is Some && entry.content_in_budget
                ==> outcome == EntryOutcome::Gives(
                restricted_result_of(entry.snapshot->0.path@, entry.parsed, filters),
            )
        }),
{
    assert(entry.path is Some ==> is_wanted(root, entry.path->0@, entry.is_directory) == (
    !entry.is_directory && is_markdown(entry.path->0@) && !is_excluded(root, entry.path->0@)));
}

/// What a walk finds grows by what each further entry gives, and ends with the first refusal.
pub proof fn walks_end_with_the_first_refusal(
    root: Seq<Seq<u8>>,
    filters: FilterView,
    entries: Seq<RestrictedEntry>,
    entry: RestrictedEntry,
)
    ensures
        scan_outcome(root, filters, Seq::empty()) == Ok::<Seq<ResultView>, Seq<char>>(Seq::empty()),
        scan_outcome(root, filters, entries) is Err ==> scan_outcome(
            root,
            filters,
            entries.push(entry),
        ) == scan_outcome(root, filters, entries),
        scan_outcome(root, filters, entries) matches Ok(found) ==> scan_outcome(
            root,
            filters,
            entries.push(entry),
        ) == match entry_outcome(root, filters, entry) {
            EntryOutcome::Refused(message) => Err(message),
            EntryOutcome::Gives(Some(result)) => Ok(found.push(result)),
            EntryOutcome::Gives(None) => Ok(found),
        },
{
    assert(entries.push(entry).drop_last() =~= entries);
    assert(with_result(Seq::empty(), None) == Seq::<ResultView>::empty());
}

/// What a revision holds grows by what each further file gives.
pub proof fn revisions_give_file_by_file(
    readings: Seq<RevisionReading>,
    reading: RevisionReading,
    filters: FilterView,
)
    ensures
        revision_results(Seq::empty(), filters).len() == 0,
        revision_results(readings.push(reading), filters) == match restricted_result_of(
            reading.snapshot->0.path@,
            reading.parsed,
            filters,
        ) {
            Some(result) => revision_results(readings, filters).push(result),
            None => revision_results(readings, filters),
        },
        all_readable(readings.push(reading)) == (all_readable(readings) && reading.snapshot is Some),
{
    let all = readings.push(reading);
    assert(all.drop_last() =~= readings);
    if all_readable(all) {
        assert forall|i: int| 0 <= i < readings.len() implies (
        #[trigger] readings[i]).snapshot is Some by {
            assert(all[i] == readings[i]);
        }
        assert(all[readings.len() as int] == reading);
    }
}

/// Sorting keeps every result and adds none, and puts no result before a later one.
pub proof fn sorting_puts_the_latest_first(before: Seq<ResultView>, after: Seq<ResultView>)
    requires
        is_sorted_by_date(before, after),
    ensures
        after.len() == before.len(),
        forall|i: int, j: int|
            0 <= i < j < after.len() ==> !text_precedes(
                (#[trigger] after[i]).date,
                (#[trigger] after[j]).date,
            ),
        forall|i: int| 0 <= i < after.len() ==> before.contains(#[trigger] after[i]),
        forall|i: int| 0 <= i < before.len() ==> after.contains(#[trigger] before[i]),
{
    let order = choose|order: Seq<int>| #[trigger]
        is_reordered(before, after, order) && is_latest_first(after, order);
    assert forall|i: int, j: int| 0 <= i < j < after.len() implies !text_precedes(
        (#[trigger] after[i]).date,
        (#[trigger] after[j]).date,
    ) by {
        assert(ranks_above(after, order, i, j));
        text_order_is_irreflexive(after[i].date);
        if text_precedes(after[j].date, after[i].date) && text_precedes(
            after[i].date,
            after[j].date,
        ) {
            text_order_is_transitive(after[i].date, after[j].date, after[i].date);
        }
    }
    assert forall|i: int| 0 <= i < after.len() implies before.contains(#[trigger] after[i]) by {
        assert(after[i] == before[order[i]]);
    }
    every_place_is_taken(order, before.len() as int);
    assert forall|i: int| 0 <= i < before.len() implies after.contains(#[trigger] before[i]) by {
        assert(order.contains(i));
        let k = order.index_of(i);
        assert(after[k] == before[order[k]]);
    }
}

proof fn every_place_is_taken(order: Seq<int>, n: int)
    requires
        order.len() == n,
        order.no_duplicates(),
        forall|i: int| 0 <= i < order.len() ==> 0 <= #[trigger] order[i] < n,
    ensures
        forall|i: int| 0 <= i < n ==> #[trigger] order.contains(i),
{
    order.unique_seq_to_set();
    let all = vstd::set_lib::set_int_range(0, n);
    vstd::set_lib::lemma_int_range(0, n);
    assert(order.to_set().subset_of(all)) by {
        assert forall|x: int| order.to_set().contains(x) implies all.contains(x) by {
            let i = order.index_of(x);
            assert(order[i] == x);
        }
    }
    vstd::set_lib::lemma_subset_equality(order.to_set(), all);
    assert forall|i: int| 0 <= i < n implies #[trigger] order.contains(i) by {
        assert(all.contains(i));
    }
}

/// Results of one date stay in the order that they came in.
pub proof fn results_of_one_date_keep_their_order(
    before: Seq<ResultView>,
    after: Seq<ResultView>,
    order: Seq<int>,
    i: int,
    j: int,
)
    requires
        is_reordered(before, after, order),
        is_latest_first(after, order),
        0 <= i < j < after.len(),
        after[i].date == after[j].date,
    ensures
        after[i] == before[order[i]],
        after[j] == before[order[j]],
        order[i] < order[j],
{
    assert(ranks_above(after, order, i, j));
    text_order_is_irreflexive(after[i].date);
    assert(after[i] == before[order[i]]);
    assert(after[j] == before[order[j]]);
}

/// Restricted meetings are found only where they are asked for; then a walk that was refused, or
/// that took too long, answers with that, and any other with what it found, sorted.
pub proof fn restricted_meetings_are_asked_for(
    root: Seq<Seq<u8>>,
    filters: FilterView,
    entries: Seq<RestrictedEntry>,
    in_time: bool,
    result: Result<Vec<SearchResult>, SearchIndexError>,
)
    requires
        restricted_answer(root, filters, entries, in_time, result),
    ensures
        !filters.include_restricted ==> result is Ok && result->Ok_0@.len() == 0,
        filters.include_restricted ==> (scan_outcome(root, filters, entries) matches Err(reason)
            ==> (result matches Err(SearchIndexError::Io(message)) && message@ == reason)),
        filters.include_restricted && scan_outcome(root, filters, entries) is Ok && !in_time ==> (
        result matches Err(SearchIndexError::Io(message)) && message@
            == "meeting corpus authorization deadline elapsed"@),
        filters.include_restricted && scan_outcome(root, filters, entries) is Ok && in_time
            ==> result is Ok && is_sorted_by_date(
            scan_outcome(root, filters, entries)->Ok_0,
            results_view(result->Ok_0@),
        ),
{
}

} // verus!
