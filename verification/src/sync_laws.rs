//! What holds of one sync after another.

use vstd::prelude::*;
use crate::meeting::IndexableDocument;
use crate::paths::absolute_bytes;
use crate::projection::{is_stored, ProjectionTables};
use crate::search_index::{bound_to, stored_text, tables_agree, SearchIndex};
use crate::sync::{
    binds_onto, document_written, is_current, is_judged, is_run, is_seen, is_sound_list, is_wanted,
    no_stats, only_seen_remain, paths_view, removal, removals, shows_document, shows_restricted,
    source_admitted, source_shows, source_step, source_steps, stale_of, sync_outcome, undisturbed,
    wanted_restricted, wanted_shows, SyncMode, SyncRequest, SyncSource, SyncState, SyncStats,
};
use vstd::utf8::encode_utf8;

verus! {

/// Whether one of the entries that may be indexed is at `path`.
pub open spec fn is_shown_at(
    root: Seq<Seq<u8>>,
    sources: Seq<SyncSource>,
    path: Seq<Seq<u8>>,
) -> bool {
    exists|j: int, document: IndexableDocument|
        0 <= j < sources.len() && #[trigger] wanted_shows(root, sources[j], document)
            && document.path@ == path
}

/// Whether one of the entries that may be indexed is spelled by `text`.
pub open spec fn is_shown_as(
    root: Seq<Seq<u8>>,
    sources: Seq<SyncSource>,
    text: Seq<char>,
) -> bool {
    exists|j: int, document: IndexableDocument|
        0 <= j < sources.len() && #[trigger] wanted_shows(root, sources[j], document)
            && absolute_bytes(document.path@) == encode_utf8(text)
}

/// Whether tables are in line with the entries: each that may be indexed is stored as it is, nothing
/// is stored of one that is restricted, and nothing else is stored.
pub open spec fn is_in_line(
    root: Seq<Seq<u8>>,
    canonical: Seq<(Seq<Seq<u8>>, Seq<Seq<u8>>)>,
    sources: Seq<SyncSource>,
    tables: ProjectionTables,
) -> bool {
    &&& tables_agree(tables)
    &&& forall|j: int, document: IndexableDocument|
        0 <= j < sources.len() && #[trigger] wanted_shows(root, sources[j], document)
            ==> is_current(tables, document)
    &&& forall|j: int|
        0 <= j < sources.len() && #[trigger] wanted_restricted(root, sources[j]) ==> (bound_to(
            root,
            absolute_bytes(sources[j].path->0@),
            canonical,
        ) matches Some(bound) && !is_stored(tables, stored_text(bound)))
    &&& forall|text: Seq<char>| #[trigger]
        is_stored(tables, text) ==> is_shown_as(root, sources, text)
}

/// Whether nothing else stands under the text that any of the entries is stored by.
pub open spec fn none_disturbed(
    root: Seq<Seq<u8>>,
    canonical: Seq<(Seq<Seq<u8>>, Seq<Seq<u8>>)>,
    start: ProjectionTables,
    sources: Seq<SyncSource>,
) -> bool {
    forall|j: int, document: IndexableDocument|
        0 <= j < sources.len() && #[trigger] wanted_shows(root, sources[j], document)
            ==> undisturbed(root, canonical, start, sources, j, document.path@)
}

proof fn seen_paths_are_shown(
    before: SyncState,
    sources: Seq<SyncSource>,
    canonical: Seq<(Seq<Seq<u8>>, Seq<Seq<u8>>)>,
    after: SyncState,
)
    requires
        source_steps(before, sources, canonical, after),
        before.pass.seen@.len() == 0,
    ensures
        after.index.root() == before.index.root(),
        forall|i: int|
            0 <= i < after.pass.seen@.len() ==> is_shown_at(
                before.index.root(),
                sources,
                #[trigger] paths_view(after.pass.seen@)[i],
            ),
    decreases sources.len(),
{
    if sources.len() > 0 {
        let root = before.index.root();
        let earlier = sources.drop_last();
        let source = sources.last();
        let n = sources.len() - 1;
        let mid = choose|mid: SyncState|
            source_steps(before, earlier, canonical, mid) && #[trigger] source_step(
                mid,
                source,
                canonical,
                after,
            );
        seen_paths_are_shown(before, earlier, canonical, mid);
        let seen = paths_view(mid.pass.seen@);
        let all = paths_view(after.pass.seen@);
        assert forall|i: int| 0 <= i < all.len() implies is_shown_at(
            root,
            sources,
            #[trigger] all[i],
        ) by {
            if i < seen.len() && all[i] == seen[i] {
                let (j, document) = choose|j: int, document: IndexableDocument|
                    0 <= j < earlier.len() && #[trigger] wanted_shows(root, earlier[j], document)
                        && document.path@ == seen[i];
                assert(wanted_shows(root, sources[j], document));
            } else {
                let (admitted, found) = choose|
                    admitted: SyncState,
                    found: Option<IndexableDocument>,
                | #[trigger]
                    source_admitted(mid, source, canonical, admitted, found) && match found {
                        None => after == admitted,
                        Some(found) => document_written(admitted, found, source, after),
                    };
                let document = match found {
                    Some(found) => found,
                    None => choose|document: IndexableDocument| #[trigger]
                        shows_document(source.reading, document) && is_current(
                            mid.index.shown(),
                            document,
                        ),
                };
                assert(all == seen.push(source.reading.snapshot->0.path@));
                assert(wanted_shows(root, sources[n], document));
            }
        }
    }
}

proof fn errors_stay_counted(
    before: SyncState,
    source: SyncSource,
    canonical: Seq<(Seq<Seq<u8>>, Seq<Seq<u8>>)>,
    after: SyncState,
)
    requires
        source_step(before, source, canonical, after),
        after.pass.stats.errored == 0,
    ensures
        before.pass.stats.errored == 0,
{
}

/// An entry of an index that is in line with it changes nothing, and counts for nothing.
proof fn quiet_step(
    before: SyncState,
    sources: Seq<SyncSource>,
    j: int,
    canonical: Seq<(Seq<Seq<u8>>, Seq<Seq<u8>>)>,
    after: SyncState,
)
    requires
        0 <= j < sources.len(),
        source_step(before, sources[j], canonical, after),
        before.index.idle(),
        is_in_line(before.index.root(), canonical, sources, before.index.kept()),
        after.pass.stats.errored == 0,
    ensures
        after.index.idle(),
        after.index.root() == before.index.root(),
        after.index.kept() == before.index.kept(),
        after.pass.stats == before.pass.stats,
        paths_view(before.pass.seen@).is_prefix_of(paths_view(after.pass.seen@)),
        forall|document: IndexableDocument| #[trigger]
            wanted_shows(before.index.root(), sources[j], document) ==> paths_view(
                after.pass.seen@,
            ).contains(document.path@),
{
    let root = before.index.root();
    let source = sources[j];
    let seen = paths_view(before.pass.seen@);
    let all = paths_view(after.pass.seen@);
    if is_wanted(root, source.path->0@, source.is_directory) {
        let (admitted, found) = choose|admitted: SyncState, found: Option<IndexableDocument>| #[trigger]
            source_admitted(before, source, canonical, admitted, found) && match found {
                None => after == admitted,
                Some(found) => document_written(admitted, found, source, after),
            };
        if shows_restricted(source.reading) {
            assert(wanted_restricted(root, source));
            assert(all == seen);
        } else if is_judged(source.reading) {
            let document = match found {
                Some(found) => found,
                None => choose|document: IndexableDocument| #[trigger]
                    shows_document(source.reading, document) && is_current(
                        before.index.shown(),
                        document,
                    ),
            };
            assert(wanted_shows(root, source, document));
            crate::sync::unchanged_meetings_are_not_written_again(
                before,
                source,
                canonical,
                after,
                document,
            );
            assert(all == seen.push(source.reading.snapshot->0.path@));
            assert(all[seen.len() as int] == source.reading.snapshot->0.path@);
        }
    }
}

proof fn quiet_steps(
    before: SyncState,
    sources: Seq<SyncSource>,
    n: int,
    canonical: Seq<(Seq<Seq<u8>>, Seq<Seq<u8>>)>,
    after: SyncState,
)
    requires
        0 <= n <= sources.len(),
        source_steps(before, sources.take(n), canonical, after),
        before.index.idle(),
        is_in_line(before.index.root(), canonical, sources, before.index.kept()),
        after.pass.stats.errored == 0,
    ensures
        after.index.idle(),
        after.index.root() == before.index.root(),
        after.index.kept() == before.index.kept(),
        after.pass.stats == before.pass.stats,
        forall|j: int, document: IndexableDocument|
            0 <= j < n && #[trigger] wanted_shows(before.index.root(), sources[j], document)
                ==> paths_view(after.pass.seen@).contains(document.path@),
    decreases n,
{
    if n > 0 {
        let root = before.index.root();
        let some = sources.take(n);
        assert(some.drop_last() =~= sources.take(n - 1));
        assert(some.last() == sources[n - 1]);
        let mid = choose|mid: SyncState|
            source_steps(before, some.drop_last(), canonical, mid) && #[trigger] source_step(
                mid,
                some.last(),
                canonical,
                after,
            );
        errors_stay_counted(mid, some.last(), canonical, after);
        quiet_steps(before, sources, n - 1, canonical, mid);
        quiet_step(mid, sources, n - 1, canonical, after);
        let seen = paths_view(mid.pass.seen@);
        let all = paths_view(after.pass.seen@);
        assert forall|j: int, document: IndexableDocument|
            0 <= j < n && #[trigger] wanted_shows(
                root,
                sources[j],
                document,
            ) implies all.contains(document.path@) by {
            if j < n - 1 {
                assert(seen.contains(document.path@));
                let i = seen.index_of(document.path@);
                assert(all[i] == seen[i]);
            }
        }
    }
}

proof fn nothing_seen_is_stale(rows: Seq<Option<String>>, seen: Seq<Seq<Seq<u8>>>)
    requires
        forall|i: int|
            0 <= i < rows.len() ==> (#[trigger] rows[i] matches Some(path) ==> is_seen(seen, path@)),
    ensures
        stale_of(rows, seen).len() == 0,
    decreases rows.len(),
{
    if rows.len() > 0 {
        let earlier = rows.drop_last();
        assert forall|i: int| 0 <= i < earlier.len() implies (#[trigger] earlier[i] matches Some(path)
            ==> is_seen(seen, path@)) by {
            assert(earlier[i] == rows[i]);
        }
        nothing_seen_is_stale(earlier, seen);
        assert(rows[rows.len() - 1] == rows.last());
    }
}

proof fn errors_stay_counted_by_removals(
    before: SyncState,
    paths: Seq<Seq<char>>,
    canonical: Seq<(Seq<Seq<u8>>, Seq<Seq<u8>>)>,
    after: SyncState,
)
    requires
        removals(before, paths, canonical, after),
        after.pass.stats.errored == 0,
    ensures
        before.pass.stats.errored == 0,
    decreases paths.len(),
{
    if paths.len() > 0 {
        let mid = choose|mid: SyncState|
            removals(before, paths.drop_last(), canonical, mid)
                && #[trigger] removal(mid, paths.last(), canonical, after);
        errors_stay_counted_by_removals(before, paths.drop_last(), canonical, mid);
    }
}

/// A sync that is through without an error leaves the index in line with the entries, where every
/// stored path was read and binds to itself, and nothing else stands under the text of an entry.
pub proof fn syncing_brings_in_line(
    before: SearchIndex,
    request: SyncRequest,
    sources: Seq<SyncSource>,
    canonical: Seq<(Seq<Seq<u8>>, Seq<Seq<u8>>)>,
    stats: SyncStats,
    after: SearchIndex,
    begun: SyncState,
    read: SyncState,
    rows: Seq<Option<String>>,
    end: SyncState,
)
    requires
        before.idle(),
        after.wf(),
        sync_outcome(before, request, sources, canonical, Ok(stats), after),
        stats.errored == 0,
        is_run(before, request, sources, canonical, begun, read, rows, end),
        end.index == after,
        end.pass.stats.errored == 0,
        is_sound_list(before.root(), rows, canonical),
        none_disturbed(before.root(), canonical, before.kept(), sources),
    ensures
        after.idle(),
        is_in_line(before.root(), canonical, sources, after.kept()),
{
    let root = before.root();
    let tables = after.kept();
    seen_paths_are_shown(begun, sources, canonical, read);
    assert forall|j: int, document: IndexableDocument|
        0 <= j < sources.len() && #[trigger] wanted_shows(root, sources[j], document)
            implies is_current(tables, document) by {
        assert(undisturbed(root, canonical, before.kept(), sources, j, document.path@));
    }
    assert forall|j: int|
        0 <= j < sources.len() && #[trigger] wanted_restricted(root, sources[j]) implies (bound_to(
        root,
        absolute_bytes(sources[j].path->0@),
        canonical,
    ) matches Some(bound) && !is_stored(tables, stored_text(bound))) by {
        let text = stored_text(bound_to(root, absolute_bytes(sources[j].path->0@), canonical)->0);
        if is_stored(tables, text) {
            let (k, document) = choose|k: int, document: IndexableDocument|
                0 <= k < sources.len() && #[trigger] source_shows(
                    root,
                    request.revision,
                    sources[k],
                    document,
                ) && stored_text(document.path@) == text;
            assert(wanted_shows(root, sources[k], document));
            assert(undisturbed(root, canonical, before.kept(), sources, k, document.path@));
            assert(!binds_onto(root, absolute_bytes(sources[j].path->0@), canonical, text));
        }
    }
    let seen = paths_view(read.pass.seen@);
    assert(only_seen_remain(tables, seen));
    assert forall|text: Seq<char>| #[trigger] is_stored(tables, text) implies is_shown_as(
        root,
        sources,
        text,
    ) by {
        let i = choose|i: int|
            0 <= i < seen.len() && absolute_bytes(#[trigger] seen[i]) == encode_utf8(text);
        assert(is_shown_at(root, sources, seen[i]));
        let (j, document) = choose|j: int, document: IndexableDocument|
            0 <= j < sources.len() && #[trigger] wanted_shows(root, sources[j], document)
                && document.path@ == seen[i];
        assert(wanted_shows(root, sources[j], document));
    }
}

/// A sync of an index that is in line with the entries counts nothing and keeps every row, where it
/// is through without an error and does not begin anew.
pub proof fn syncing_what_is_in_line_changes_nothing(
    before: SearchIndex,
    request: SyncRequest,
    sources: Seq<SyncSource>,
    canonical: Seq<(Seq<Seq<u8>>, Seq<Seq<u8>>)>,
    stats: SyncStats,
    after: SearchIndex,
)
    requires
        before.idle(),
        is_in_line(before.root(), canonical, sources, before.kept()),
        request.mode != SyncMode::Force,
        sync_outcome(before, request, sources, canonical, Ok(stats), after),
        stats.errored == 0,
    ensures
        stats == (SyncStats { duration_ms: stats.duration_ms, ..no_stats() }),
        after.idle(),
        after.kept() == before.kept(),
        after.shown() == before.shown(),
{
    let root = before.root();
    let (begun, read, rows, end) = choose|
        begun: SyncState,
        read: SyncState,
        rows: Seq<Option<String>>,
        end: SyncState,
    | #[trigger]
        is_run(before, request, sources, canonical, begun, read, rows, end) && end.index == after
            && stats == (SyncStats {
            duration_ms: request.elapsed_ms as u64,
            ..end.pass.stats
        });
    let stale = stale_of(rows, paths_view(read.pass.seen@));
    assert(sources.take(sources.len() as int) =~= sources);
    errors_stay_counted_by_removals(read, stale, canonical, end);
    quiet_steps(begun, sources, sources.len() as int, canonical, read);
    let seen = paths_view(read.pass.seen@);
    assert forall|i: int| 0 <= i < rows.len() implies (#[trigger] rows[i] matches Some(path)
        ==> is_seen(seen, path@)) by {
        if let Some(path) = rows[i] {
            assert(is_stored(read.index.shown(), path@));
            assert(is_shown_as(root, sources, path@));
            let (j, document) = choose|j: int, document: IndexableDocument|
                0 <= j < sources.len() && #[trigger] wanted_shows(root, sources[j], document)
                    && absolute_bytes(document.path@) == encode_utf8(path@);
            assert(seen.contains(document.path@));
            let k = seen.index_of(document.path@);
            assert(absolute_bytes(seen[k]) == encode_utf8(path@));
        }
    }
    nothing_seen_is_stale(rows, seen);
}

/// A second sync of files that have not changed since the first counts nothing and keeps every row,
/// so that every search gives what it gave before. That holds where both are through without an
/// error, the second does not begin anew, and in the first every stored path was read and binds to
/// itself, and nothing else stands under the text of an entry.
pub proof fn syncing_again_changes_nothing(
    before: SearchIndex,
    request: SyncRequest,
    sources: Seq<SyncSource>,
    canonical: Seq<(Seq<Seq<u8>>, Seq<Seq<u8>>)>,
    stats: SyncStats,
    synced: SearchIndex,
    begun: SyncState,
    read: SyncState,
    rows: Seq<Option<String>>,
    end: SyncState,
    again: SyncRequest,
    again_stats: SyncStats,
    after: SearchIndex,
)
    requires
        before.idle(),
        synced.wf(),
        synced.root() == before.root(),
        sync_outcome(before, request, sources, canonical, Ok(stats), synced),
        stats.errored == 0,
        is_run(before, request, sources, canonical, begun, read, rows, end),
        end.index == synced,
        end.pass.stats.errored == 0,
        is_sound_list(before.root(), rows, canonical),
        none_disturbed(before.root(), canonical, before.kept(), sources),
        again.mode != SyncMode::Force,
        sync_outcome(synced, again, sources, canonical, Ok(again_stats), after),
        again_stats.errored == 0,
    ensures
        again_stats.indexed == 0,
        again_stats.updated == 0,
        again_stats.removed == 0,
        after.kept() == synced.kept(),
        after.shown() == synced.shown(),
{
    syncing_brings_in_line(
        before,
        request,
        sources,
        canonical,
        stats,
        synced,
        begun,
        read,
        rows,
        end,
    );
    syncing_what_is_in_line_changes_nothing(
        synced,
        again,
        sources,
        canonical,
        again_stats,
        after,
    );
}

} // verus!
