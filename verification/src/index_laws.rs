//! What holds of one entry of the index, and of what a sync makes of one entry of the corpus.

use vstd::prelude::*;
use crate::errors::SearchIndexError;
use crate::meeting::{
    has_frontmatter, is_document_of, is_restricted, is_well_formed, IndexableDocument,
};
use crate::paths::{absolute_bytes, lossy_text, AbsolutePath};
use crate::projection::{
    committed_tables, empty_tables, in_transaction, is_fingerprint, is_stored, pragma_answers,
    stored_as, transaction_at, without_attendees, working_tables, ProjectionTables,
    SourceFingerprint,
};
use crate::queries::texts_view;
use crate::search_index::{
    all_read, are_bounded_settings, attested_upserted, bound_to, forgets, hex_digit_of, hex_of,
    is_listed, is_memory_bounded, json_of, record_of, shows_normal_policy, stored_text, stores,
    stores_at, tables_agree, unbound_message, upserted, with_attendees, PolicyReading, SearchIndex,
    BUSY_TRIES,
};
use crate::sync::{
    admission, after_upsert, binds_onto, binds_to_itself, counted, document_written, is_begun,
    is_current, is_current_at, is_cut_short, is_deadline_error, is_judged, is_print_of, is_run,
    is_seen, is_sync, is_traversal_error, is_wanted, is_written, no_stats, only_indexable_added,
    paths_view, removal, removals, row_has_source, row_shows, row_was_there, same_pass,
    shows_document, shows_restricted, source_admitted, source_cut, source_refusal, source_shows,
    source_step, source_steps, stale_of, stale_removed, sync_outcome, sync_refusal, synced_from,
    wanted_restricted, wanted_shows, SourceReading, SyncMode, SyncPass, SyncRequest, SyncSource,
    SyncState, SyncStats,
};
use crate::text::unicode_lowercase;
use std::time::Instant;
use vstd::utf8::encode_utf8;

verus! {

/// A digest is written in hexadecimal, two small digits for each byte, the higher one first.
pub proof fn digests_are_written_in_hexadecimal(bytes: Seq<u8>, byte: u8)
    ensures
        hex_of(Seq::empty()).len() == 0,
        hex_of(bytes.push(byte)) == hex_of(bytes) + seq![
            "0123456789abcdef"@[(byte / 16) as int],
            "0123456789abcdef"@[(byte % 16) as int],
        ],
{
    reveal_strlit("0123456789abcdef");
    assert(bytes.push(byte).drop_last() =~= bytes);
    assert forall|n: u8| n < 16 implies hex_digit_of(n) == "0123456789abcdef"@[n as int] by {}
    assert(byte / 16 < 16 && byte % 16 < 16);
    assert(hex_digit_of(byte / 16) == "0123456789abcdef"@[(byte / 16) as int]);
    assert(hex_digit_of(byte % 16) == "0123456789abcdef"@[(byte % 16) as int]);
}

/// The row of a document holds its path as it is shown, what the document says of itself, its
/// attendees in JSON, its digest in hexadecimal, and when it was indexed.
pub proof fn rows_hold_their_document(document: IndexableDocument, indexed_at: i64)
    ensures
        record_of(document, indexed_at).path == lossy_text(absolute_bytes(document.path@)),
        stored_text(document.path@) == lossy_text(absolute_bytes(document.path@)),
        record_of(document, indexed_at).title == document.title@,
        record_of(document, indexed_at).date == document.date@,
        record_of(document, indexed_at).content_type == document.content_type@,
        json_of(texts_view(document.attendees@)) matches Some(json) ==> record_of(
            document,
            indexed_at,
        ).attendees_json == json,
        json_of(texts_view(document.attendees@)) is None ==> record_of(
            document,
            indexed_at,
        ).attendees_json == "[]"@,
        record_of(document, indexed_at).recorded_by == document.recorded_by@,
        record_of(document, indexed_at).mtime_ns == document.mtime_ns,
        record_of(document, indexed_at).size_bytes == document.size_bytes,
        record_of(document, indexed_at).body_hash == hex_of(document.source_sha256@),
        record_of(document, indexed_at).indexed_at == indexed_at,
{
}

/// A meeting's attendees are found under their names in lower case, and under no others.
pub proof fn attendees_are_found_in_lower_case(
    attendees: Set<(i64, Seq<char>)>,
    rowid: i64,
    names: Seq<Seq<char>>,
    entry: (i64, Seq<char>),
)
    ensures
        with_attendees(attendees, rowid, names).contains(entry) == (attendees.contains(entry) || (
        entry.0 == rowid && exists|i: int|
            0 <= i < names.len() && unicode_lowercase(#[trigger] names[i]) == entry.1)),
        without_attendees(attendees, rowid).contains(entry) == (attendees.contains(entry) && entry.0
            != rowid),
    decreases names.len(),
{
    if names.len() > 0 {
        let earlier = names.drop_last();
        attendees_are_found_in_lower_case(attendees, rowid, earlier, entry);
        assert(names.last() == names[names.len() - 1]);
        if exists|i: int|
            0 <= i < earlier.len() && unicode_lowercase(#[trigger] earlier[i]) == entry.1 {
            let i = choose|i: int|
                0 <= i < earlier.len() && unicode_lowercase(#[trigger] earlier[i]) == entry.1;
            assert(names[i] == earlier[i]);
        }
        if exists|i: int| 0 <= i < names.len() && unicode_lowercase(#[trigger] names[i]) == entry.1 {
            let i = choose|i: int|
                0 <= i < names.len() && unicode_lowercase(#[trigger] names[i]) == entry.1;
            if i < earlier.len() {
                assert(earlier[i] == names[i]);
            }
        }
    }
}

/// A stored document stands in one row, that of its path or a new one, with its title and body for
/// the full-text search and its own attendees alone; all other rows are as they were.
pub proof fn documents_are_stored_in_one_row(
    before: ProjectionTables,
    document: IndexableDocument,
    after: ProjectionTables,
    rowid: i64,
    indexed_at: i64,
    other: i64,
)
    requires
        stores_at(before, document, after, rowid, indexed_at),
        other != rowid,
    ensures
        is_stored(before, stored_text(document.path@)) ==> before.meetings.contains_key(rowid)
            && before.meetings[rowid].path == stored_text(document.path@),
        !is_stored(before, stored_text(document.path@)) ==> !before.meetings.contains_key(rowid),
        after.meetings.contains_key(rowid),
        after.meetings[rowid] == record_of(document, indexed_at),
        after.texts.contains_key(rowid),
        after.texts[rowid].title == document.title@,
        after.texts[rowid].body == document.body@,
        after.meetings.contains_key(other) == before.meetings.contains_key(other),
        after.meetings[other] == before.meetings[other],
        after.texts.contains_key(other) == before.texts.contains_key(other),
        after.texts[other] == before.texts[other],
        forall|name: Seq<char>| #[trigger]
            after.attendees.contains((rowid, name)) == exists|i: int|
                0 <= i < document.attendees@.len() && unicode_lowercase(
                    (#[trigger] document.attendees@[i])@,
                ) == name,
        forall|name: Seq<char>| #[trigger]
            after.attendees.contains((other, name)) == before.attendees.contains((other, name)),
{
    let names = texts_view(document.attendees@);
    let kept = without_attendees(before.attendees, rowid);
    assert forall|name: Seq<char>| #[trigger]
        after.attendees.contains((rowid, name)) == exists|i: int|
            0 <= i < document.attendees@.len() && unicode_lowercase(
                (#[trigger] document.attendees@[i])@,
            ) == name by {
        attendees_are_found_in_lower_case(kept, rowid, names, (rowid, name));
        attendees_are_found_in_lower_case(before.attendees, rowid, names, (rowid, name));
        if exists|i: int| 0 <= i < names.len() && unicode_lowercase(#[trigger] names[i]) == name {
            let i = choose|i: int|
                0 <= i < names.len() && unicode_lowercase(#[trigger] names[i]) == name;
            assert(names[i] == document.attendees@[i]@);
        }
        if exists|i: int|
            0 <= i < document.attendees@.len() && unicode_lowercase(
                (#[trigger] document.attendees@[i])@,
            ) == name {
            let i = choose|i: int|
                0 <= i < document.attendees@.len() && unicode_lowercase(
                    (#[trigger] document.attendees@[i])@,
                ) == name;
            assert(names[i] == document.attendees@[i]@);
        }
    }
    assert forall|name: Seq<char>| #[trigger]
        after.attendees.contains((other, name)) == before.attendees.contains((other, name)) by {
        attendees_are_found_in_lower_case(kept, rowid, names, (other, name));
        attendees_are_found_in_lower_case(before.attendees, rowid, names, (other, name));
    }
}

/// A forgotten meeting leaves no row, no text and no attendee behind; all others stay.
pub proof fn nothing_is_left_of_a_forgotten_meeting(
    before: ProjectionTables,
    path: Seq<char>,
    after: ProjectionTables,
)
    requires
        forgets(before, path, after),
    ensures
        !is_stored(before, path) ==> after == before,
        is_stored(before, path) ==> exists|rowid: i64|
            #![trigger before.meetings[rowid]]
            before.meetings.contains_key(rowid) && before.meetings[rowid].path == path
                && !after.meetings.contains_key(rowid) && !after.texts.contains_key(rowid) && (forall|
                name: Seq<char>,
            |
                !#[trigger] after.attendees.contains((rowid, name))) && (forall|other: i64|
                other != rowid ==> (#[trigger] after.meetings.contains_key(other)
                    == before.meetings.contains_key(other)) && after.meetings[other]
                    == before.meetings[other] && after.texts.contains_key(other)
                    == before.texts.contains_key(other) && after.texts[other]
                    == before.texts[other]),
{
}

/// The private database keeps its temporary tables in memory, on pages of 4096 bytes, and no more
/// than 32768 and 16384 of them.
pub proof fn memory_is_bounded_by_its_settings(
    mode: i64,
    page_size: i64,
    max_pages: i64,
    temp_max_pages: i64,
)
    ensures
        are_bounded_settings(mode, page_size, max_pages, temp_max_pages) == (mode == 2 && page_size
            == 4096 && max_pages <= 32768 && temp_max_pages <= 16384),
{
}

/// A removal from a busy database is tried five times.
pub proof fn removals_are_tried_five_times()
    ensures
        BUSY_TRIES == 5,
{
}

/// A reading lets a document be indexed exactly where the file could be read within the budget, is
/// the expected one, and has frontmatter that parses and does not restrict it.
pub proof fn readings_admit_unrestricted_files(
    reading: PolicyReading,
    expected: Option<[u8; 32]>,
)
    ensures
        shows_normal_policy(reading, expected) == (reading.snapshot is Some && (expected is None
            || reading.snapshot->0.content_sha256@ == expected->0@) && has_frontmatter(
            reading.snapshot->0.content@,
        ) && reading.within_budget && reading.parsed is Ok && !is_restricted(
            reading.parsed->Ok_0,
        )),
{
}

/// A document is stored only where a reading before and one after show that it may be; where either
/// does not, nothing that is kept changes and the caller is told which.
pub proof fn documents_are_stored_between_two_readings(
    index: SearchIndex,
    document: IndexableDocument,
    before: PolicyReading,
    after: PolicyReading,
    result: Result<bool, SearchIndexError>,
    stored: SearchIndex,
)
    requires
        upserted(index, document, before, after, result, stored),
    ensures
        result is Ok ==> shows_normal_policy(before, Some(document.source_sha256))
            && shows_normal_policy(after, Some(document.source_sha256)) && stores(
            index.kept(),
            document,
            stored.kept(),
        ) && index.idle() && stored.idle(),
        result == Ok::<bool, SearchIndexError>(false) ==> is_stored(
            index.kept(),
            stored_text(document.path@),
        ),
        result is Err ==> stored.kept() == index.kept(),
        !shows_normal_policy(before, Some(document.source_sha256)) ==> (
        result matches Err(SearchIndexError::Io(message)) && message@
            == "meeting changed before search projection update"@),
        shows_normal_policy(before, Some(document.source_sha256)) && !shows_normal_policy(
            after,
            Some(document.source_sha256),
        ) ==> (result matches Err(error) && (error is Sqlite || (error matches SearchIndexError::Io(
            message,
        ) && message@ == "meeting changed during search projection update"@))),
{
}

/// A document of a revision is stored as it is, or nothing that is kept changes.
pub proof fn documents_of_a_revision_are_stored_as_they_are(
    index: SearchIndex,
    document: IndexableDocument,
    result: Result<bool, SearchIndexError>,
    stored: SearchIndex,
)
    requires
        attested_upserted(index, document, result, stored),
    ensures
        result is Ok ==> stores(index.kept(), document, stored.kept()) && index.idle()
            && stored.idle(),
        result == Ok::<bool, SearchIndexError>(false) ==> is_stored(
            index.kept(),
            stored_text(document.path@),
        ),
        result matches Err(error) ==> error is Sqlite && stored.kept() == index.kept(),
{
}

/// A sync starts its counts at zero; a new document counts as indexed, one that was there as
/// updated, and a failure as an error, each by one and up to the largest number there is.
pub proof fn upserts_are_counted_by_what_they_said(
    stats: SyncStats,
    error: SearchIndexError,
    n: usize,
)
    ensures
        no_stats().indexed == 0 && no_stats().updated == 0 && no_stats().removed == 0
            && no_stats().errored == 0 && no_stats().duration_ms == 0,
        n < usize::MAX ==> counted(n) == n + 1,
        n == usize::MAX ==> counted(n) == n,
        after_upsert(stats, Ok(true)) == (SyncStats { indexed: counted(stats.indexed), ..stats }),
        after_upsert(stats, Ok(false)) == (SyncStats { updated: counted(stats.updated), ..stats }),
        after_upsert(stats, Err(error)) == (SyncStats { errored: counted(stats.errored), ..stats }),
{
}

/// A forced sync begins with nothing; any other with all that is kept.
pub proof fn only_forced_syncs_begin_anew(kept: ProjectionTables)
    ensures
        synced_from(SyncMode::Force, kept) == empty_tables(),
        synced_from(SyncMode::Auto, kept) == kept,
        synced_from(SyncMode::Skip, kept) == kept,
        empty_tables().meetings.dom() == Set::<i64>::empty(),
        empty_tables().texts.dom() == Set::<i64>::empty(),
        empty_tables().attendees == Set::<(i64, Seq<char>)>::empty(),
{
}

/// A row is current where its time of change, its length and its digest are the document's; one
/// that differs in any of the three is not.
pub proof fn rows_are_current_by_three_marks(
    tables: ProjectionTables,
    document: IndexableDocument,
    rowid: i64,
    print: SourceFingerprint,
)
    ensures
        is_current_at(tables, document, rowid) == (tables.meetings[rowid].mtime_ns
            == document.mtime_ns && tables.meetings[rowid].size_bytes == document.size_bytes
            && tables.meetings[rowid].body_hash == hex_of(document.source_sha256@)),
        is_print_of(print, document) == (print.mtime_ns == document.mtime_ns && print.size_bytes
            == document.size_bytes && print.body_hash@ == hex_of(document.source_sha256@)),
        is_fingerprint(tables.meetings[rowid], print) ==> is_print_of(print, document)
            == is_current_at(tables, document, rowid),
{
}

/// A stored path is seen where it spells one of the paths that were, and stale where it could be
/// read and was not seen; stale paths stay in their order.
pub proof fn unseen_paths_are_stale(
    rows: Seq<Option<String>>,
    seen: Seq<Seq<Seq<u8>>>,
    path: String,
)
    ensures
        is_seen(seen, path@) == exists|i: int|
            0 <= i < seen.len() && absolute_bytes(#[trigger] seen[i]) == encode_utf8(path@),
        stale_of(Seq::empty(), seen).len() == 0,
        stale_of(rows.push(None), seen) == stale_of(rows, seen),
        is_seen(seen, path@) ==> stale_of(rows.push(Some(path)), seen) == stale_of(rows, seen),
        !is_seen(seen, path@) ==> stale_of(rows.push(Some(path)), seen) == stale_of(
            rows,
            seen,
        ).push(path@),
{
    assert(rows.push(None).drop_last() =~= rows);
    assert(rows.push(Some(path)).drop_last() =~= rows);
}

/// A stale path is forgotten and counted as removed, or an error is counted; nothing else is.
pub proof fn stale_paths_are_removed_or_counted(
    before: SyncState,
    path: Seq<char>,
    canonical: Seq<(Seq<Seq<u8>>, Seq<Seq<u8>>)>,
    after: SyncState,
)
    requires
        removal(before, path, canonical, after),
    ensures
        after.pass.seen@ == before.pass.seen@,
        after.pass.stats.indexed == before.pass.stats.indexed,
        after.pass.stats.updated == before.pass.stats.updated,
        after.pass.stats == (SyncStats {
            removed: counted(before.pass.stats.removed),
            ..before.pass.stats
        }) || after.pass.stats == (SyncStats {
            errored: counted(before.pass.stats.errored),
            ..before.pass.stats
        }),
        after.pass.stats.errored == before.pass.stats.errored && before.pass.stats.errored
            < usize::MAX ==> after.pass.stats.removed == counted(before.pass.stats.removed) && (
        bound_to(before.index.root(), encode_utf8(path), canonical) matches Some(bound) && forgets(
            before.index.kept(),
            stored_text(bound),
            after.index.kept(),
        )),
        bound_to(before.index.root(), encode_utf8(path), canonical) is None
            ==> after.index.kept() == before.index.kept() && after.pass.stats.errored == counted(
            before.pass.stats.errored,
        ),
{
    assert(stale_removed(
        before.index,
        before.pass.stats,
        path,
        canonical,
        after.pass.stats,
        after.index,
    ));
}

/// A reading can be judged where the file could be read and is well formed; it then shows a
/// restricted meeting, or a document.
pub proof fn judged_readings_show_one_of_two(reading: SourceReading, document: IndexableDocument)
    ensures
        is_judged(reading) == (reading.snapshot is Some && is_well_formed(
            reading.snapshot->0,
            reading.facts,
            reading.parsed,
        )),
        shows_restricted(reading) == (is_judged(reading) && is_restricted(reading.parsed->Ok_0)),
        shows_document(reading, document) == (is_judged(reading) && !is_restricted(
            reading.parsed->Ok_0,
        ) && is_document_of(
            document,
            reading.snapshot->0,
            reading.facts->Ok_0,
            reading.parsed->Ok_0,
        )),
{
}

/// An entry that is not wanted changes nothing. A wanted one that cannot be judged counts as an
/// error, unless it is of a revision and gone, which ends the sync.
pub proof fn unwanted_entries_change_nothing(
    before: SyncState,
    source: SyncSource,
    canonical: Seq<(Seq<Seq<u8>>, Seq<Seq<u8>>)>,
    after: SyncState,
)
    requires
        source_step(before, source, canonical, after),
    ensures
        source.path is Some,
        !is_wanted(before.index.root(), source.path->0@, source.is_directory) ==> after == before,
        is_wanted(before.index.root(), source.path->0@, source.is_directory) && !is_judged(
            source.reading,
        ) ==> after.pass.seen@ == before.pass.seen@ && after.pass.stats == (SyncStats {
            errored: counted(before.pass.stats.errored),
            ..before.pass.stats
        }) && !(source.reading.snapshot is None && before.pass.bound_revision),
{
    if is_wanted(before.index.root(), source.path->0@, source.is_directory) {
        let (admitted, document) = choose|
            admitted: SyncState,
            document: Option<IndexableDocument>,
        | #[trigger]
            source_admitted(before, source, canonical, admitted, document) && match document {
                None => after == admitted,
                Some(document) => document_written(admitted, document, source, after),
            };
    }
}

/// A wanted entry that shows a restricted meeting is not seen; what was stored of it is forgotten and
/// then counts as removed, and else nothing is counted.
pub proof fn restricted_entries_are_removed(
    before: SyncState,
    source: SyncSource,
    canonical: Seq<(Seq<Seq<u8>>, Seq<Seq<u8>>)>,
    after: SyncState,
)
    requires
        source_step(before, source, canonical, after),
        is_wanted(before.index.root(), source.path->0@, source.is_directory),
        shows_restricted(source.reading),
    ensures
        after.pass.seen@ == before.pass.seen@,
        bound_to(before.index.root(), absolute_bytes(source.path->0@), canonical) matches Some(bound)
            && forgets(before.index.kept(), stored_text(bound), after.index.kept())
            && after.pass.stats == if is_stored(before.index.kept(), stored_text(bound)) {
            SyncStats { removed: counted(before.pass.stats.removed), ..before.pass.stats }
        } else {
            before.pass.stats
        },
{
    let (admitted, document) = choose|admitted: SyncState, document: Option<IndexableDocument>| #[trigger]
        source_admitted(before, source, canonical, admitted, document) && match document {
            None => after == admitted,
            Some(document) => document_written(admitted, document, source, after),
        };
}

/// A wanted entry that may be indexed is seen. It is written where the index does not have it as it
/// is, and counts as indexed, updated or an error; else nothing is counted and nothing changes.
pub proof fn indexable_entries_are_seen_and_written(
    before: SyncState,
    source: SyncSource,
    canonical: Seq<(Seq<Seq<u8>>, Seq<Seq<u8>>)>,
    after: SyncState,
)
    requires
        source_step(before, source, canonical, after),
        is_wanted(before.index.root(), source.path->0@, source.is_directory),
        is_judged(source.reading),
        !shows_restricted(source.reading),
    ensures
        paths_view(after.pass.seen@) == paths_view(before.pass.seen@).push(
            source.reading.snapshot->0.path@,
        ),
        after.pass.stats == before.pass.stats || after.pass.stats == (SyncStats {
            indexed: counted(before.pass.stats.indexed),
            ..before.pass.stats
        }) || after.pass.stats == (SyncStats {
            updated: counted(before.pass.stats.updated),
            ..before.pass.stats
        }) || after.pass.stats == (SyncStats {
            errored: counted(before.pass.stats.errored),
            ..before.pass.stats
        }),
        after.index.kept() != before.index.kept() ==> exists|document: IndexableDocument| #[trigger]
            shows_document(source.reading, document) && stores(
                before.index.kept(),
                document,
                after.index.kept(),
            ),
        after.pass.stats.removed == before.pass.stats.removed,
{
    let (admitted, document) = choose|admitted: SyncState, document: Option<IndexableDocument>| #[trigger]
        source_admitted(before, source, canonical, admitted, document) && match document {
            None => after == admitted,
            Some(document) => document_written(admitted, document, source, after),
        };
    if let Some(document) = document {
        assert(shows_document(source.reading, document));
        let result = choose|result: Result<bool, SearchIndexError>| #[trigger]
            is_written(admitted, document, source, result, after.index) && after.pass.stats
                == after_upsert(admitted.pass.stats, result);
    }
}

/// A sync that ran out of time, or whose walk failed, says so.
pub proof fn late_and_failed_walks_say_so(error: SearchIndexError)
    ensures
        is_deadline_error(error) == (error matches SearchIndexError::Io(message) && message@
            == "meeting corpus authorization deadline elapsed"@),
        is_traversal_error(error) == (error matches SearchIndexError::Io(message) && message@
            == "meeting corpus traversal could not be verified"@),
{
}

/// A list was read whole where each of its paths was, and has the paths that were read.
pub proof fn lists_have_the_paths_that_were_read(paths: Seq<Option<String>>, path: String)
    ensures
        all_read(Seq::empty()),
        all_read(paths.push(Some(path))) == all_read(paths),
        !all_read(paths.push(None)),
        is_listed(paths.push(Some(path)), path@),
        forall|other: Seq<char>| #[trigger]
            is_listed(paths.push(Some(path)), other) == (is_listed(paths, other) || other == path@),
        forall|other: Seq<char>| !#[trigger] is_listed(Seq::empty(), other),
{
    let more = paths.push(Some(path));
    let n = paths.len() as int;
    assert(more[n] == Some(path));
    assert(paths.push(None)[n] is None);
    if all_read(more) {
        assert forall|i: int| 0 <= i < paths.len() implies (#[trigger] paths[i]) is Some by {
            assert(more[i] == paths[i]);
        }
    }
    assert forall|other: Seq<char>| #[trigger]
        is_listed(more, other) == (is_listed(paths, other) || other == path@) by {
        if is_listed(paths, other) {
            let i = choose|i: int|
                0 <= i < paths.len() && (#[trigger] paths[i] matches Some(text) && text@ == other);
            assert(more[i] == paths[i]);
        }
        if is_listed(more, other) && other != path@ {
            let i = choose|i: int|
                0 <= i < more.len() && (#[trigger] more[i] matches Some(text) && text@ == other);
            assert(paths[i] == more[i]);
        }
    }
}

/// The two tables of one meeting hold its title alike, no path is stored twice, and no attendee is
/// left without a meeting.
pub proof fn tables_agree_row_by_row(
    tables: ProjectionTables,
    i: i64,
    j: i64,
    name: Seq<char>,
)
    requires
        tables_agree(tables),
    ensures
        tables.texts.contains_key(i) == tables.meetings.contains_key(i),
        tables.meetings.contains_key(i) ==> tables.texts[i].title == tables.meetings[i].title,
        tables.meetings.contains_key(i) && tables.meetings.contains_key(j) && i != j
            ==> tables.meetings[i].path != tables.meetings[j].path,
        tables.attendees.contains((i, name)) ==> tables.meetings.contains_key(i),
{
    assert(tables.texts.dom().contains(i) == tables.meetings.dom().contains(i));
}

/// A database is bounded by what it answers to the four settings that bound its memory.
pub proof fn memory_is_bounded_by_four_answers(conn: rusqlite::Connection)
    ensures
        is_memory_bounded(conn) == (pragma_answers(conn)["PRAGMA temp_store"@] == 2
            && pragma_answers(conn)["PRAGMA page_size"@] == 4096 && pragma_answers(
            conn,
        )["PRAGMA max_page_count"@] <= 32768 && pragma_answers(
            conn,
        )["PRAGMA temp.max_page_count"@] <= 16384),
{
}

/// A document is current where the row of its path has its three marks.
pub proof fn documents_are_current_in_their_own_row(
    tables: ProjectionTables,
    document: IndexableDocument,
)
    ensures
        is_current(tables, document) == exists|rowid: i64|
            #![trigger tables.meetings[rowid]]
            tables.meetings.contains_key(rowid) && tables.meetings[rowid].path == stored_text(
                document.path@,
            ) && tables.meetings[rowid].mtime_ns == document.mtime_ns
                && tables.meetings[rowid].size_bytes == document.size_bytes
                && tables.meetings[rowid].body_hash == hex_of(document.source_sha256@),
{
    if is_current(tables, document) {
        let rowid = choose|rowid: i64| #[trigger]
            stored_as(tables, stored_text(document.path@), rowid) && is_current_at(
                tables,
                document,
                rowid,
            );
        assert(tables.meetings[rowid].mtime_ns == document.mtime_ns);
    }
    if exists|rowid: i64|
        #![trigger tables.meetings[rowid]]
        tables.meetings.contains_key(rowid) && tables.meetings[rowid].path == stored_text(
            document.path@,
        ) && tables.meetings[rowid].mtime_ns == document.mtime_ns
            && tables.meetings[rowid].size_bytes == document.size_bytes
            && tables.meetings[rowid].body_hash == hex_of(document.source_sha256@) {
        let rowid = choose|rowid: i64|
            #![trigger tables.meetings[rowid]]
            tables.meetings.contains_key(rowid) && tables.meetings[rowid].path == stored_text(
                document.path@,
            ) && tables.meetings[rowid].mtime_ns == document.mtime_ns
                && tables.meetings[rowid].size_bytes == document.size_bytes
                && tables.meetings[rowid].body_hash == hex_of(document.source_sha256@);
        assert(stored_as(tables, stored_text(document.path@), rowid));
        assert(is_current_at(tables, document, rowid));
    }
}

/// An entry may be indexed where it is wanted, its reading shows a document, and, unless it is of a
/// revision, the readings before and after it is written both admit it.
pub proof fn entries_are_admitted_by_three_readings(
    root: Seq<Seq<u8>>,
    revision: bool,
    source: SyncSource,
    document: IndexableDocument,
)
    ensures
        source_shows(root, revision, source, document) == (source.path is Some && is_wanted(
            root,
            source.path->0@,
            source.is_directory,
        ) && shows_document(source.reading, document) && (revision || (shows_normal_policy(
            source.before,
            Some(document.source_sha256),
        ) && shows_normal_policy(source.after, Some(document.source_sha256))))),
        wanted_shows(root, source, document) == (source.path is Some && is_wanted(
            root,
            source.path->0@,
            source.is_directory,
        ) && shows_document(source.reading, document)),
        wanted_restricted(root, source) == (source.path is Some && is_wanted(
            root,
            source.path->0@,
            source.is_directory,
        ) && shows_restricted(source.reading)),
{
}

/// Whatever a sync comes to, each row that it leaves was there before, with its text, or holds the
/// document of an entry that may be indexed, with its title and body.
pub proof fn rows_have_a_source(
    root: Seq<Seq<u8>>,
    revision: bool,
    sources: Seq<SyncSource>,
    before: ProjectionTables,
    after: ProjectionTables,
    rowid: i64,
)
    requires
        only_indexable_added(root, revision, sources, before, after),
        after.meetings.contains_key(rowid),
    ensures
        (before.meetings.contains_key(rowid) && after.meetings[rowid] == before.meetings[rowid]
            && after.texts[rowid] == before.texts[rowid]) || exists|
            j: int,
            document: IndexableDocument,
            indexed_at: i64,
        |
            #![trigger sources[j], record_of(document, indexed_at)]
            0 <= j < sources.len() && source_shows(root, revision, sources[j], document)
                && after.meetings[rowid] == record_of(document, indexed_at)
                && after.texts[rowid].title == document.title@ && after.texts[rowid].body
                == document.body@,
{
    assert(row_was_there(before, after, rowid) || row_has_source(
        root,
        revision,
        sources,
        after,
        rowid,
    ));
    if !row_was_there(before, after, rowid) {
        let (j, document, indexed_at) = choose|
            j: int,
            document: IndexableDocument,
            indexed_at: i64,
        |
            0 <= j < sources.len() && #[trigger] row_shows(
                root,
                revision,
                sources[j],
                after,
                rowid,
                document,
                indexed_at,
            );
        assert(source_shows(root, revision, sources[j], document));
        assert(after.meetings[rowid] == record_of(document, indexed_at));
    }
}

/// A sync begins with nothing counted and nothing seen, bound to the same corpus, with what is kept
/// or, where it is forced, with nothing.
pub proof fn syncs_begin_with_nothing_counted(
    index: SearchIndex,
    mode: SyncMode,
    revision: bool,
    begun: SyncState,
)
    requires
        is_begun(index, mode, revision, begun),
    ensures
        begun.index.root() == index.root(),
        begun.pass.seen@.len() == 0,
        begun.pass.bound_revision == revision,
        begun.pass.stats.indexed == 0 && begun.pass.stats.updated == 0 && begun.pass.stats.removed
            == 0 && begun.pass.stats.errored == 0,
        mode == SyncMode::Force ==> begun.index.idle() && begun.index.kept() == empty_tables(),
        mode != SyncMode::Force ==> begun.index.same_as(index) && begun.index.kept()
            == index.kept(),
{
}

/// A sync that is refused, other than by SQLite, is told why: that its time ran out, that the corpus
/// cannot be found, that the configured path leads elsewhere now, or what one of its entries was
/// refused for.
pub proof fn refused_syncs_are_told_why(
    root: Seq<Seq<u8>>,
    revision: bool,
    deadline: Option<Instant>,
    corpus: Result<AbsolutePath, SearchIndexError>,
    configured: Seq<u8>,
    sources: Seq<SyncSource>,
    canonical: Seq<(Seq<Seq<u8>>, Seq<Seq<u8>>)>,
    error: SearchIndexError,
)
    requires
        sync_refusal(root, revision, deadline, corpus, configured, sources, canonical, error),
        deadline is None,
    ensures
        corpus matches Err(problem) ==> error == problem,
        corpus matches Ok(found) ==> found@ != root ==> (error matches SearchIndexError::Io(message)
            && message@ == "configured meeting corpus no longer matches the index binding: "@
            + lossy_text(configured)),
        corpus matches Ok(found) ==> found@ == root ==> exists|j: int|
            0 <= j < sources.len() && source_refusal(
                root,
                revision,
                #[trigger] sources[j],
                canonical,
                error,
            ),
{
}

/// One entry ends a sync where the walk did not reach it, where it is a restricted meeting that does
/// not bind to the corpus, or where it is of a revision and gone.
pub proof fn entries_end_a_sync_for_a_reason(
    root: Seq<Seq<u8>>,
    revision: bool,
    source: SyncSource,
    canonical: Seq<(Seq<Seq<u8>>, Seq<Seq<u8>>)>,
    error: SearchIndexError,
)
    requires
        source_refusal(root, revision, source, canonical, error),
    ensures
        error is Io,
        source.path is None || (shows_restricted(source.reading) && bound_to(
            root,
            absolute_bytes(source.path->0@),
            canonical,
        ) is None) || (revision && source.reading.snapshot is None),
        error matches SearchIndexError::Io(message) ==> message@
            == "meeting corpus traversal could not be verified"@ || message@
            == "meeting changed while building the authorized search projection"@ || message@
            == unbound_message(root, absolute_bytes(source.path->0@)),
{
}

/// A sync that is through reports what its run counted, and how long it took; one for which the
/// configured path leads elsewhere changes nothing.
pub proof fn syncs_report_what_they_counted(
    before: SearchIndex,
    request: SyncRequest,
    sources: Seq<SyncSource>,
    canonical: Seq<(Seq<Seq<u8>>, Seq<Seq<u8>>)>,
    result: Result<SyncStats, SearchIndexError>,
    after: SearchIndex,
)
    requires
        sync_outcome(before, request, sources, canonical, result, after),
    ensures
        result is Ok ==> request.corpus is Ok && request.corpus->Ok_0@ == before.root(),
        result matches Ok(stats) ==> request.elapsed_ms <= u64::MAX ==> stats.duration_ms
            == request.elapsed_ms,
        result is Ok ==> forall|j: int|
            0 <= j < sources.len() ==> (#[trigger] sources[j]).path is Some,
        result matches Ok(stats) ==> exists|
            begun: SyncState,
            read: SyncState,
            rows: Seq<Option<String>>,
            end: SyncState,
        | #[trigger]
            is_sync(
                before,
                request.mode,
                request.revision,
                sources,
                canonical,
                begun,
                read,
                rows,
                end,
            ) && end.index == after && stats.indexed == end.pass.stats.indexed && stats.updated
                == end.pass.stats.updated && stats.removed == end.pass.stats.removed
                && stats.errored == end.pass.stats.errored,
        !(request.corpus is Ok && request.corpus->Ok_0@ == before.root()) ==> result is Err
            && after.same_as(before),
        only_indexable_added(
            before.root(),
            request.revision,
            sources,
            before.kept(),
            after.kept(),
        ),
{
    if let Ok(stats) = result {
        let (begun, read, rows, end) = choose|
            begun: SyncState,
            read: SyncState,
            rows: Seq<Option<String>>,
            end: SyncState,
        | #[trigger]
            is_run(before, request, sources, canonical, begun, read, rows, end) && end.index
                == after && stats == (SyncStats {
                duration_ms: request.elapsed_ms as u64,
                ..end.pass.stats
            });
        assert(is_sync(
            before,
            request.mode,
            request.revision,
            sources,
            canonical,
            begun,
            read,
            rows,
            end,
        ));
    }
}

/// A whole sync begins, takes each entry in turn, and then removes each stored path that it read and
/// did not see.
pub proof fn syncs_take_entries_and_then_remove(
    index: SearchIndex,
    mode: SyncMode,
    revision: bool,
    sources: Seq<SyncSource>,
    canonical: Seq<(Seq<Seq<u8>>, Seq<Seq<u8>>)>,
    begun: SyncState,
    read: SyncState,
    rows: Seq<Option<String>>,
    end: SyncState,
)
    requires
        is_sync(index, mode, revision, sources, canonical, begun, read, rows, end),
    ensures
        is_begun(index, mode, revision, begun),
        sources.len() == 0 ==> read == begun,
        sources.len() == 1 ==> source_step(begun, sources[0], canonical, read),
        rows.len() == 0 ==> end == read,
        all_read(rows) ==> forall|path: Seq<char>| #[trigger]
            is_stored(read.index.shown(), path) ==> is_listed(rows, path),
        removals(read, stale_of(rows, paths_view(read.pass.seen@)), canonical, end),
{
    if sources.len() == 1 {
        let mid = choose|mid: SyncState|
            source_steps(begun, sources.drop_last(), canonical, mid) && #[trigger] source_step(
                mid,
                sources.last(),
                canonical,
                read,
            );
        assert(sources.drop_last().len() == 0);
        assert(mid == begun);
    }
}

/// A file of a revision that can no longer be read ends the sync, with nothing counted and nothing
/// changed.
pub proof fn files_gone_from_a_revision_end_the_sync(
    before: SearchIndex,
    passed: SyncPass,
    path: Seq<Seq<u8>>,
    canonical: Seq<(Seq<Seq<u8>>, Seq<Seq<u8>>)>,
    reading: SourceReading,
    result: Result<Option<IndexableDocument>, SearchIndexError>,
    pass: SyncPass,
    after: SearchIndex,
)
    requires
        admission(before, passed, path, canonical, reading, result, pass, after),
        reading.snapshot is None,
    ensures
        passed.bound_revision ==> after == before && pass == passed && (
        result matches Err(SearchIndexError::Io(message)) && message@
            == "meeting changed while building the authorized search projection"@),
        !passed.bound_revision ==> result is Ok && result->Ok_0 is None && pass.stats == (SyncStats {
            errored: counted(passed.stats.errored),
            ..passed.stats
        }),
{
}

/// A judged entry that may be indexed is handed on to be written where the index does not have it as
/// it is, and is not where it does; nothing changes yet but that it is seen.
pub proof fn only_changed_documents_are_handed_on(
    before: SearchIndex,
    passed: SyncPass,
    path: Seq<Seq<u8>>,
    canonical: Seq<(Seq<Seq<u8>>, Seq<Seq<u8>>)>,
    reading: SourceReading,
    result: Result<Option<IndexableDocument>, SearchIndexError>,
    pass: SyncPass,
    after: SearchIndex,
)
    requires
        admission(before, passed, path, canonical, reading, result, pass, after),
        is_judged(reading),
        !shows_restricted(reading),
    ensures
        after == before,
        pass.stats == passed.stats,
        paths_view(pass.seen@) == paths_view(passed.seen@).push(reading.snapshot->0.path@),
        result matches Ok(Some(document)) ==> shows_document(reading, document) && (tables_agree(
            before.shown(),
        ) ==> !is_current(before.shown(), document)),
        result matches Ok(None) ==> exists|document: IndexableDocument| #[trigger]
            shows_document(reading, document) && is_current(before.shown(), document),
        result matches Err(error) ==> error is Sqlite,
{
}

/// A restricted entry is handed on in no case. Where it does not bind to the corpus the caller is
/// told so, and nothing that is kept changes.
pub proof fn restricted_documents_are_not_handed_on(
    before: SearchIndex,
    passed: SyncPass,
    path: Seq<Seq<u8>>,
    canonical: Seq<(Seq<Seq<u8>>, Seq<Seq<u8>>)>,
    reading: SourceReading,
    result: Result<Option<IndexableDocument>, SearchIndexError>,
    pass: SyncPass,
    after: SearchIndex,
)
    requires
        admission(before, passed, path, canonical, reading, result, pass, after),
        shows_restricted(reading),
    ensures
        result is Ok ==> result->Ok_0 is None,
        pass.seen@ == passed.seen@,
        bound_to(before.root(), absolute_bytes(path), canonical) is None ==> after.kept()
            == before.kept() && pass.stats == passed.stats && (
        result matches Err(SearchIndexError::Io(message)) && message@ == unbound_message(
            before.root(),
            absolute_bytes(path),
        )),
        bound_to(before.root(), absolute_bytes(path), canonical) matches Some(bound) ==> (
        result matches Err(error) ==> error is Sqlite && pass.stats == passed.stats),
        bound_to(before.root(), absolute_bytes(path), canonical) matches Some(bound) ==> result is Ok
            ==> forgets(before.kept(), stored_text(bound), after.kept()),
{
}

/// An index shows what its readers see and keeps what was committed last; it is idle or updating,
/// and not both. Two indexes are the same where their corpus and all of these are.
pub proof fn indexes_are_idle_or_updating(index: SearchIndex, other: SearchIndex)
    ensures
        index.wf() ==> tables_agree(index.kept()) && (index.idle() || index.updating()),
        !(index.idle() && index.updating()),
        index.idle() ==> index.shown() == index.kept(),
        index.same_as(other) ==> index.root() == other.root() && index.shown() == other.shown()
            && index.kept() == other.kept() && index.idle() == other.idle() && index.updating()
            == other.updating(),
{
}

/// A transaction goes on to new tables, and what was committed stays as it was.
pub proof fn transactions_leave_what_is_committed(
    before: rusqlite::Connection,
    after: rusqlite::Connection,
    tables: ProjectionTables,
)
    requires
        transaction_at(before, after, tables),
    ensures
        in_transaction(after),
        working_tables(after) == tables,
        committed_tables(after) == committed_tables(before),
{
}

/// Two states of a sync are of one pass where the corpus, what was seen and the revision are the
/// same.
pub proof fn one_pass_keeps_what_was_seen(before: SyncState, after: SyncState)
    ensures
        same_pass(before, after) == (after.index.root() == before.index.root()
            && after.pass.seen@ == before.pass.seen@ && after.pass.bound_revision
            == before.pass.bound_revision),
{
}

/// A sync that is cut short had taken in all entries before the one that it ended at; without such
/// an entry it ended with SQLite, or while it removed what was not seen and its time ran out.
pub proof fn syncs_cut_short_took_in_what_came_before(
    begun: SyncState,
    deadline: Option<Instant>,
    sources: Seq<SyncSource>,
    canonical: Seq<(Seq<Seq<u8>>, Seq<Seq<u8>>)>,
    error: SearchIndexError,
    read: SyncState,
    n: int,
    end: SyncState,
)
    requires
        is_cut_short(begun, deadline, sources, canonical, error, read, n, end),
    ensures
        0 <= n <= sources.len(),
        source_steps(begun, sources.take(n), canonical, read),
        n < sources.len() ==> source_cut(read, sources[n], canonical, deadline, error, end),
        n == sources.len() && error is Sqlite ==> end == read,
        n == sources.len() && !(error is Sqlite) ==> deadline is Some && is_deadline_error(error),
{
}

/// A stored path binds to itself where removing it removes its own row, and binds onto another where
/// removing it removes that one's.
pub proof fn stored_paths_bind_by_their_text(
    root: Seq<Seq<u8>>,
    path: Seq<char>,
    other: Seq<u8>,
    canonical: Seq<(Seq<Seq<u8>>, Seq<Seq<u8>>)>,
)
    ensures
        binds_to_itself(root, path, canonical) == binds_onto(
            root,
            encode_utf8(path),
            canonical,
            path,
        ),
        bound_to(root, other, canonical) is None ==> !binds_onto(root, other, canonical, path),
        bound_to(root, other, canonical) matches Some(bound) ==> binds_onto(
            root,
            other,
            canonical,
            path,
        ) == (lossy_text(absolute_bytes(bound)) == path),
{
}

} // verus!
