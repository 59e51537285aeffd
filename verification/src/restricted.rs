//! Searching restricted meetings, which the index never holds, in their files.

use vstd::prelude::*;
use crate::corpus::{has_markdown_name, is_excluded, is_excluded_path, is_markdown};
use crate::errors::SearchIndexError;
use crate::meeting::{content_type_word, is_restricted, Frontmatter, StableMarkdownSnapshot};
use crate::paths::{absolute_bytes, AbsolutePath};
use crate::queries::{results_view, FilterView, ResultView, SearchFilters, SearchResult};
use crate::search_index::SearchIndex;
use crate::sync::{check_deadline, traversal_error};
use crate::text::{
    contains_text, lowercase, occurs_in, same_text, text_less, text_order_is_irreflexive,
    text_order_is_total, text_order_is_transitive, text_precedes, unicode_lowercase,
};

verus! {

/// Whether one of a meeting's attendees has `name` in their own, in either case.
pub open spec fn is_attended(attendees: Seq<String>, name: Seq<char>) -> bool {
    exists|i: int|
        0 <= i < attendees.len() && occurs_in(
            unicode_lowercase((#[trigger] attendees[i])@),
            unicode_lowercase(name),
        )
}

/// Whether a restricted meeting passes the filters.
pub open spec fn passes_live(frontmatter: Frontmatter, filters: FilterView) -> bool {
    &&& filters.content_type matches Some(kind) ==> content_type_word(frontmatter.content_type)
        == kind
    &&& filters.since matches Some(since) ==> !text_precedes(frontmatter.date@, since)
    &&& filters.attendee matches Some(name) ==> is_attended(frontmatter.attendees@, name)
    &&& filters.recorded_by matches Some(name) ==> (frontmatter.recorded_by matches Some(recorder)
        && occurs_in(unicode_lowercase(recorder@), unicode_lowercase(name)))
}

/// What is found of a restricted meeting: all but its text.
pub open spec fn live_result_of(path: Seq<Seq<u8>>, frontmatter: Frontmatter) -> ResultView {
    ResultView {
        path: absolute_bytes(path),
        title: frontmatter.title@,
        date: frontmatter.date@,
        content_type: content_type_word(frontmatter.content_type),
        snippet: Seq::empty(),
        matched_via_alias: None,
    }
}

/// What a search for restricted meetings finds of one file.
pub open spec fn restricted_result_of(
    path: Seq<Seq<u8>>,
    parsed: Result<Frontmatter, String>,
    filters: FilterView,
) -> Option<ResultView> {
    match parsed {
        Ok(frontmatter) => if is_restricted(frontmatter) && passes_live(frontmatter, filters) {
            Some(live_result_of(path, frontmatter))
        } else {
            None
        },
        Err(_) => None,
    }
}

fn attended(attendees: &Vec<String>, name: &str) -> (yes: bool)
    ensures
        yes == is_attended(attendees@, name@),
{
    let needle = lowercase(name);
    let mut i: usize = 0;
    while i < attendees.len()
        invariant
            needle@ == unicode_lowercase(name@),
            i <= attendees@.len(),
            forall|k: int|
                0 <= k < i ==> !occurs_in(
                    unicode_lowercase((#[trigger] attendees@[k])@),
                    unicode_lowercase(name@),
                ),
        decreases attendees@.len() - i,
    {
        let lower = lowercase(attendees[i].as_str());
        if contains_text(lower.as_str(), needle.as_str()) {
            assert(occurs_in(
                unicode_lowercase((attendees@[i as int])@),
                unicode_lowercase(name@),
            ));
            return true;
        }
        i = i + 1;
    }
    false
}

/// What a search for restricted meetings finds of one file. `parsed` is what its frontmatter
/// parses to.
pub fn restricted_live_result(
    snapshot: StableMarkdownSnapshot,
    parsed: Result<Frontmatter, String>,
    filters: &SearchFilters,
) -> (result: Option<SearchResult>)
    ensures
        match restricted_result_of(snapshot.path@, parsed, filters@) {
            Some(view) => result matches Some(found) && found@ == view,
            None => result is None,
        },
{
    let frontmatter = match parsed {
        Ok(frontmatter) => frontmatter,
        Err(_) => {
            return None;
        },
    };
    if !frontmatter.restricted() {
        return None;
    }
    let content_type = frontmatter.content_type.word();
    if let Some(expected) = &filters.content_type {
        if !same_text(expected.as_str(), content_type) {
            return None;
        }
    }
    let date = frontmatter.date.to_rfc3339();
    if let Some(since) = &filters.since {
        if text_less(date.as_str(), since.as_str()) {
            return None;
        }
    }
    if let Some(attendee) = &filters.attendee {
        if !attended(&frontmatter.attendees, attendee.as_str()) {
            return None;
        }
    }
    if let Some(recorded_by) = &filters.recorded_by {
        let needle = lowercase(recorded_by.as_str());
        match &frontmatter.recorded_by {
            Some(recorder) => {
                let lower = lowercase(recorder.as_str());
                if !contains_text(lower.as_str(), needle.as_str()) {
                    return None;
                }
            },
            None => {
                return None;
            },
        }
    }
    Some(
        SearchResult {
            path: snapshot.path.file_path(),
            title: frontmatter.title,
            date,
            content_type: content_type.to_owned(),
            snippet: String::new(),
            matched_via_alias: None,
        },
    )
}

/// `after` is `before` in the order of `order`.
pub open spec fn is_reordered(
    before: Seq<ResultView>,
    after: Seq<ResultView>,
    order: Seq<int>,
) -> bool {
    &&& order.len() == before.len()
    &&& after.len() == before.len()
    &&& order.no_duplicates()
    &&& forall|i: int| 0 <= i < order.len() ==> 0 <= #[trigger] order[i] < before.len()
    &&& forall|i: int| 0 <= i < order.len() ==> after[i] == before[#[trigger] order[i]]
}

/// Whether the result at `i` is later than the one at `j`, or of one date with it and came in
/// before it.
pub open spec fn ranks_above(
    after: Seq<ResultView>,
    order: Seq<int>,
    i: int,
    j: int,
) -> bool {
    text_precedes(after[j].date, after[i].date) || (after[i].date == after[j].date && order[i]
        < order[j])
}

/// Whether the latest come first, and those of one date in the order that they came in.
pub open spec fn is_latest_first(after: Seq<ResultView>, order: Seq<int>) -> bool {
    forall|i: int, j: int|
        0 <= i < j < after.len() ==> #[trigger] ranks_above(after, order, i, j)
}

/// `after` is `before` sorted by date, the latest first, and otherwise in its order.
pub open spec fn is_sorted_by_date(before: Seq<ResultView>, after: Seq<ResultView>) -> bool {
    exists|order: Seq<int>| #[trigger]
        is_reordered(before, after, order) && is_latest_first(after, order)
}

/// Sorts results by date, the latest first; those of one date stay in their order.
pub fn sort_by_date(results: Vec<SearchResult>) -> (sorted: Vec<SearchResult>)
    ensures
        is_sorted_by_date(results_view(results@), results_view(sorted@)),
{
    let mut sorted: Vec<SearchResult> = Vec::new();
    let ghost mut order: Seq<int> = Seq::empty();
    let ghost all = results_view(results@);
    assert(is_reordered(all.take(0), results_view(sorted@), order));
    for result in it: results
        invariant
            it.seq() == results@,
            all == results_view(results@),
            is_reordered(all.take(it.index() as int), results_view(sorted@), order),
            is_latest_first(results_view(sorted@), order),
    {
        let ghost n = it.index() as int;
        let ghost before = results_view(sorted@);
        let ghost new = result@;
        assert(new == all[n]);
        let mut at: usize = 0;
        while at < sorted.len() && !text_less(sorted[at].date.as_str(), result.date.as_str())
            invariant
                before == results_view(sorted@),
                new == result@,
                at <= sorted@.len(),
                forall|k: int|
                    0 <= k < at ==> !text_precedes((#[trigger] before[k]).date, new.date),
            decreases sorted@.len() - at,
        {
            assert(before[at as int] == sorted@[at as int]@);
            at = at + 1;
        }
        assert(at < before.len() ==> before[at as int] == sorted@[at as int]@);
        let ghost earlier = order;
        sorted.insert(at, result);
        proof {
            order = earlier.insert(at as int, n);
            let after = results_view(sorted@);
            assert(after =~= before.insert(at as int, new));
            assert(all.take(n + 1).len() == n + 1);
            assert forall|i: int| 0 <= i < order.len() implies 0 <= #[trigger] order[i] < n + 1 by {
                if i < at {
                    assert(order[i] == earlier[i]);
                } else if i > at {
                    assert(order[i] == earlier[i - 1]);
                }
            }
            assert forall|i: int| 0 <= i < order.len() implies after[i] == all.take(n + 1)[
            #[trigger] order[i]] by {
                if i < at {
                    assert(order[i] == earlier[i]);
                    assert(before[i] == all.take(n)[earlier[i]]);
                } else if i > at {
                    assert(order[i] == earlier[i - 1]);
                    assert(before[i - 1] == all.take(n)[earlier[i - 1]]);
                }
            }
            assert forall|i: int, j: int|
                0 <= i < order.len() && 0 <= j < order.len() && i != j implies order[i]
                != order[j] by {
                let a = if i < at {
                    i
                } else {
                    i - 1
                };
                let b = if j < at {
                    j
                } else {
                    j - 1
                };
                assert(i != at ==> order[i] == earlier[a] && earlier[a] < n);
                assert(j != at ==> order[j] == earlier[b] && earlier[b] < n);
            }
            assert(is_reordered(all.take(n + 1), after, order));
            insertion_keeps_latest_first(before, earlier, new, n, at as int);
        }
    }
    assert(all.take(all.len() as int) =~= all);
    assert(is_reordered(all, results_view(sorted@), order));
    sorted
}

proof fn insertion_keeps_latest_first(
    before: Seq<ResultView>,
    earlier: Seq<int>,
    new: ResultView,
    n: int,
    at: int,
)
    requires
        earlier.len() == before.len(),
        is_latest_first(before, earlier),
        forall|k: int| 0 <= k < earlier.len() ==> #[trigger] earlier[k] < n,
        0 <= at <= before.len(),
        forall|k: int| 0 <= k < at ==> !text_precedes((#[trigger] before[k]).date, new.date),
        at < before.len() ==> text_precedes(before[at].date, new.date),
    ensures
        is_latest_first(before.insert(at, new), earlier.insert(at, n)),
{
    let after = before.insert(at, new);
    let order = earlier.insert(at, n);
    assert forall|i: int, j: int| 0 <= i < j < after.len() implies #[trigger] ranks_above(
        after,
        order,
        i,
        j,
    ) by {
        insertion_keeps_order(before, earlier, new, n, at, i, j);
    }
}

proof fn insertion_keeps_order(
    before: Seq<ResultView>,
    earlier: Seq<int>,
    new: ResultView,
    n: int,
    at: int,
    i: int,
    j: int,
)
    requires
        earlier.len() == before.len(),
        is_latest_first(before, earlier),
        forall|k: int| 0 <= k < earlier.len() ==> #[trigger] earlier[k] < n,
        0 <= at <= before.len(),
        forall|k: int| 0 <= k < at ==> !text_precedes((#[trigger] before[k]).date, new.date),
        at < before.len() ==> text_precedes(before[at].date, new.date),
        0 <= i < j < before.len() + 1,
    ensures
        ranks_above(before.insert(at, new), earlier.insert(at, n), i, j),
{
    let after = before.insert(at, new);
    let order = earlier.insert(at, n);
    if i == at {
        let k = j - 1;
        assert(after[i] == new && after[j] == before[k]);
        if k > at {
            assert(ranks_above(before, earlier, at, k));
            if text_precedes(before[k].date, before[at].date) {
                text_order_is_transitive(before[k].date, before[at].date, new.date);
            }
        }
    } else if j == at {
        text_order_is_total(before[i].date, new.date);
        assert(order[i] == earlier[i] && order[j] == n);
        assert(after[i] == before[i] && after[j] == new);
    } else {
        let a = if i < at {
            i
        } else {
            i - 1
        };
        let b = if j < at {
            j
        } else {
            j - 1
        };
        assert(order[i] == earlier[a] && order[j] == earlier[b]);
        assert(after[i] == before[a] && after[j] == before[b]);
        assert(ranks_above(before, earlier, a, b));
    }
}

/// One reading of a file of a revision that was admitted beforehand.
pub struct RevisionReading {
    /// The file, where it could still be read as the revision has it.
    pub snapshot: Option<StableMarkdownSnapshot>,
    /// What its frontmatter parses to.
    pub parsed: Result<Frontmatter, String>,
}

/// `results` with one more, where there is one.
pub open spec fn with_result(
    results: Seq<ResultView>,
    result: Option<ResultView>,
) -> Seq<ResultView> {
    match result {
        Some(result) => results.push(result),
        None => results,
    }
}

/// What is found in a revision whose files could all be read.
pub open spec fn revision_results(
    readings: Seq<RevisionReading>,
    filters: FilterView,
) -> Seq<ResultView>
    decreases readings.len(),
{
    if readings.len() == 0 {
        Seq::empty()
    } else {
        with_result(
            revision_results(readings.drop_last(), filters),
            restricted_result_of(
                readings.last().snapshot->0.path@,
                readings.last().parsed,
                filters,
            ),
        )
    }
}

/// Whether every file of a revision could be read.
pub open spec fn all_readable(readings: Seq<RevisionReading>) -> bool {
    forall|i: int| 0 <= i < readings.len() ==> (#[trigger] readings[i]).snapshot is Some
}

fn add_result(results: &mut Vec<SearchResult>, result: Option<SearchResult>)
    ensures
        results_view(final(results)@) == with_result(
            results_view(old(results)@),
            match result {
                Some(result) => Some(result@),
                None => None,
            },
        ),
{
    let ghost before = results_view(results@);
    if let Some(result) = result {
        results.push(result);
        assert(results_view(results@) =~= before.push(result@));
    }
}

/// An entry that a walk through the corpus came to, with what was read of it and whether each use
/// of a resource stayed within the budget.
pub struct RestrictedEntry {
    /// Whether there was time left for it.
    pub in_time: bool,
    /// The entry; none where the walk failed.
    pub path: Option<AbsolutePath>,
    pub path_in_budget: bool,
    pub is_directory: bool,
    pub directory_in_budget: bool,
    pub is_file: bool,
    pub file_in_budget: bool,
    /// The file, where it could be read.
    pub snapshot: Option<StableMarkdownSnapshot>,
    pub content_in_budget: bool,
    /// What its frontmatter parses to.
    pub parsed: Result<Frontmatter, String>,
}

/// What an entry gives: a refusal of the whole search, or a result or none.
pub enum EntryOutcome {
    Refused(Seq<char>),
    Gives(Option<ResultView>),
}

/// What a search for restricted meetings makes of one entry.
pub open spec fn entry_outcome(
    root: Seq<Seq<u8>>,
    filters: FilterView,
    entry: RestrictedEntry,
) -> EntryOutcome {
    if !entry.in_time {
        EntryOutcome::Refused("meeting corpus authorization deadline elapsed"@)
    } else {
        match entry.path {
            None => EntryOutcome::Refused("meeting corpus traversal could not be verified"@),
            Some(path) => if !entry.path_in_budget {
                EntryOutcome::Refused("meeting corpus retained-path budget exceeded"@)
            } else if entry.is_directory {
                if !is_excluded(root, path@) && !entry.directory_in_budget {
                    EntryOutcome::Refused("meeting corpus resource budget exceeded"@)
                } else {
                    EntryOutcome::Gives(None)
                }
            } else if !entry.is_file || !is_markdown(path@) || is_excluded(root, path@) {
                EntryOutcome::Gives(None)
            } else if !entry.file_in_budget {
                EntryOutcome::Refused("meeting corpus resource budget exceeded"@)
            } else {
                match entry.snapshot {
                    None => EntryOutcome::Gives(None),
                    Some(snapshot) => if !entry.content_in_budget {
                        EntryOutcome::Refused("meeting corpus resource budget exceeded"@)
                    } else {
                        EntryOutcome::Gives(
                            restricted_result_of(snapshot.path@, entry.parsed, filters),
                        )
                    },
                }
            },
        }
    }
}

/// What the entries give, up to the first refusal.
pub open spec fn scan_outcome(
    root: Seq<Seq<u8>>,
    filters: FilterView,
    entries: Seq<RestrictedEntry>,
) -> Result<Seq<ResultView>, Seq<char>>
    decreases entries.len(),
{
    if entries.len() == 0 {
        Ok(Seq::empty())
    } else {
        match scan_outcome(root, filters, entries.drop_last()) {
            Err(message) => Err(message),
            Ok(results) => match entry_outcome(root, filters, entries.last()) {
                EntryOutcome::Refused(message) => Err(message),
                EntryOutcome::Gives(result) => Ok(with_result(results, result)),
            },
        }
    }
}

proof fn refusal_ends_the_scan(
    root: Seq<Seq<u8>>,
    filters: FilterView,
    entries: Seq<RestrictedEntry>,
    n: int,
)
    requires
        0 <= n <= entries.len(),
        scan_outcome(root, filters, entries.take(n)) is Err,
    ensures
        scan_outcome(root, filters, entries) == scan_outcome(root, filters, entries.take(n)),
    decreases entries.len() - n,
{
    if n == entries.len() {
        assert(entries.take(n) =~= entries);
    } else {
        assert(entries.take(n + 1).drop_last() =~= entries.take(n));
        refusal_ends_the_scan(root, filters, entries, n + 1);
    }
}

fn over_budget() -> (error: SearchIndexError)
    ensures
        error matches SearchIndexError::Io(message) && message@
            == "meeting corpus resource budget exceeded"@,
{
    SearchIndexError::Io("meeting corpus resource budget exceeded".to_owned())
}

/// What a search for restricted meetings among `entries` answers.
pub open spec fn restricted_answer(
    root: Seq<Seq<u8>>,
    filters: FilterView,
    entries: Seq<RestrictedEntry>,
    in_time: bool,
    result: Result<Vec<SearchResult>, SearchIndexError>,
) -> bool {
    if !filters.include_restricted {
        result matches Ok(results) && results@.len() == 0
    } else {
        match scan_outcome(root, filters, entries) {
            Err(reason) => result matches Err(SearchIndexError::Io(message)) && message@ == reason,
            Ok(found) => if in_time {
                result matches Ok(results) && is_sorted_by_date(found, results_view(results@))
            } else {
                result matches Err(SearchIndexError::Io(message)) && message@
                    == "meeting corpus authorization deadline elapsed"@
            },
        }
    }
}

impl SearchIndex {
    /// Searches the restricted meetings of a revision that was admitted beforehand, and of no
    /// other file. A file of it that can no longer be read ends the search. The query is left to
    /// whoever matches the results' files.
    pub fn search_restricted_live_for_active_corpus(
        &self,
        query: &str,
        filters: &SearchFilters,
        readings: Vec<RevisionReading>,
    ) -> (result: Result<Vec<SearchResult>, SearchIndexError>)
        ensures
            if !filters.include_restricted {
                result matches Ok(results) && results@.len() == 0
            } else if all_readable(readings@) {
                result matches Ok(results) && is_sorted_by_date(
                    revision_results(readings@, filters@),
                    results_view(results@),
                )
            } else {
                result matches Err(SearchIndexError::Io(message)) && message@
                    == "meeting changed while building the authorized restricted projection"@
            },
    {
        let mut results: Vec<SearchResult> = Vec::new();
        if !filters.include_restricted {
            return Ok(results);
        }
        let ghost all = readings@;
        assert(results_view(results@) =~= Seq::<ResultView>::empty());
        for reading in it: readings
            invariant
                it.seq() == all,
                all == readings@,
                filters.include_restricted,
                results_view(results@) == revision_results(all.take(it.index() as int), filters@),
                all_readable(all.take(it.index() as int)),
        {
            let ghost n = it.index() as int;
            proof {
                assert(reading == all[n]);
                assert(all.take(n + 1).drop_last() =~= all.take(n));
                assert(all.take(n + 1).last() == all[n]);
            }
            let RevisionReading { snapshot, parsed } = reading;
            match snapshot {
                Some(snapshot) => {
                    add_result(&mut results, restricted_live_result(snapshot, parsed, filters));
                    assert forall|i: int| 0 <= i < n + 1 implies (#[trigger] all.take(n
                        + 1)[i]).snapshot is Some by {
                        if i < n {
                            assert(all.take(n)[i].snapshot is Some);
                        }
                    }
                },
                None => {
                    return Err(
                        SearchIndexError::Io(
                            "meeting changed while building the authorized restricted projection".to_owned(),
                        ),
                    );
                },
            }
        }
        assert(all.take(all.len() as int) =~= all);
        Ok(sort_by_date(results))
    }

    /// Searches the restricted meetings among the entries that a walk through the corpus came to.
    /// `in_time` says whether there was time left at its end. The query is left to whoever matches
    /// the results' files.
    pub fn search_restricted_live_with_budget(
        &self,
        query: &str,
        filters: &SearchFilters,
        entries: Vec<RestrictedEntry>,
        in_time: bool,
    ) -> (result: Result<Vec<SearchResult>, SearchIndexError>)
        ensures
            restricted_answer(self.root(), filters@, entries@, in_time, result),
    {
        let mut results: Vec<SearchResult> = Vec::new();
        if !filters.include_restricted {
            return Ok(results);
        }
        let ghost all = entries@;
        let ghost root = self.root();
        assert(results_view(results@) =~= Seq::<ResultView>::empty());
        for entry in it: entries
            invariant
                it.seq() == all,
                all == entries@,
                root == self.root(),
                filters.include_restricted,
                scan_outcome(root, filters@, all.take(it.index() as int)) == Ok::<
                    Seq<ResultView>,
                    Seq<char>,
                >(results_view(results@)),
        {
            let ghost n = it.index() as int;
            proof {
                assert(entry == all[n]);
                assert(all.take(n + 1).drop_last() =~= all.take(n));
                assert(all.take(n + 1).last() == all[n]);
                if entry_outcome(root, filters@, all[n]) is Refused {
                    refusal_ends_the_scan(root, filters@, all, n + 1);
                }
            }
            if let Err(error) = check_deadline(entry.in_time) {
                return Err(error);
            }
            let path = match entry.path {
                Some(path) => path,
                None => {
                    return Err(traversal_error());
                },
            };
            if !entry.path_in_budget {
                return Err(
                    SearchIndexError::Io(
                        "meeting corpus retained-path budget exceeded".to_owned(),
                    ),
                );
            }
            if entry.is_directory {
                if !is_excluded_path(&path, self.bound_root()) && !entry.directory_in_budget {
                    return Err(over_budget());
                }
            } else if entry.is_file && has_markdown_name(&path) && !is_excluded_path(
                &path,
                self.bound_root(),
            ) {
                if !entry.file_in_budget {
                    return Err(over_budget());
                }
                if let Some(snapshot) = entry.snapshot {
                    if !entry.content_in_budget {
                        return Err(over_budget());
                    }
                    add_result(
                        &mut results,
                        restricted_live_result(snapshot, entry.parsed, filters),
                    );
                }
            }
        }
        assert(all.take(all.len() as int) =~= all);
        if let Err(error) = check_deadline(in_time) {
            return Err(error);
        }
        Ok(sort_by_date(results))
    }

    /// Searches the restricted meetings among the entries that a walk through the corpus came to.
    /// A search that is refused finds nothing.
    pub fn search_restricted_live(
        &self,
        query: &str,
        filters: &SearchFilters,
        entries: Vec<RestrictedEntry>,
    ) -> (results: Vec<SearchResult>)
        ensures
            match scan_outcome(self.root(), filters@, entries@) {
                Ok(found) if filters.include_restricted => is_sorted_by_date(
                    found,
                    results_view(results@),
                ),
                _ => results@.len() == 0,
            },
    {
        match self.search_restricted_live_with_budget(query, filters, entries, true) {
            Ok(results) => results,
            Err(_) => Vec::new(),
        }
    }
}

/// What is found of a restricted meeting never holds any of its text.
pub proof fn restricted_results_hold_no_text(
    path: Seq<Seq<u8>>,
    parsed: Result<Frontmatter, String>,
    filters: FilterView,
)
    ensures
        restricted_result_of(path, parsed, filters) matches Some(result) ==> result.snippet.len()
            == 0,
{
}

/// A meeting that is not restricted is not found among the restricted ones.
pub proof fn normal_meetings_are_not_found_restricted(
    path: Seq<Seq<u8>>,
    frontmatter: Frontmatter,
    filters: FilterView,
)
    requires
        !is_restricted(frontmatter),
    ensures
        restricted_result_of(path, Ok(frontmatter), filters) is None,
{
}

/// Results that are sorted by date are in that order: none is earlier than one that follows it.
pub proof fn sorted_results_are_latest_first(
    before: Seq<ResultView>,
    after: Seq<ResultView>,
    i: int,
    j: int,
)
    requires
        is_sorted_by_date(before, after),
        0 <= i < j < after.len(),
    ensures
        !text_precedes(after[i].date, after[j].date),
{
    let order = choose|order: Seq<int>| #[trigger]
        is_reordered(before, after, order) && is_latest_first(after, order);
    assert(ranks_above(after, order, i, j));
    if text_precedes(after[i].date, after[j].date) {
        if text_precedes(after[j].date, after[i].date) {
            text_order_is_transitive(after[i].date, after[j].date, after[i].date);
        }
        text_order_is_irreflexive(after[i].date);
    }
}

} // verus!
