//! Bringing the index in line with the meeting files.

use vstd::prelude::*;
use crate::corpus::{has_markdown_name, is_excluded, is_excluded_path, is_markdown, CanonicalPaths};
use crate::errors::SearchIndexError;
use crate::meeting::{
    indexable_document_from_snapshot, is_document_of, is_restricted, is_well_formed, FileFacts,
    Frontmatter, IndexableDocument, StableMarkdownSnapshot,
};
use crate::paths::{absolute_bytes, path_error, path_message, same_bytes, AbsolutePath, FilePath};
use crate::projection::{
    empty_tables, is_fingerprint, is_stored, stored_as, ProjectionTables, SourceFingerprint,
    TextRecord,
};
use crate::queries::texts_view;
use crate::search_index::{
    all_read, attested_upserted, bound_to, forgets, hex_of, hex_sha256, is_listed, is_listing,
    record_of, shows_normal_policy, stored_text, stores, stores_at, tables_agree, unbound_message,
    upserted, without_meeting, PolicyReading, SearchIndex,
};
use crate::text::same_text;
use crate::timing::time_is_left;
use std::time::Instant;
use vstd::string::StrSliceExecFns;
use vstd::utf8::encode_utf8;

verus! {

/// How an index is brought in line with its files.
#[derive(Debug, Clone, Copy, PartialEq, Eq, Structural)]
pub enum SyncMode {
    /// Every file is looked at.
    Auto,
    /// All is forgotten first, and then every file is looked at.
    Force,
    /// As [`SyncMode::Auto`]: a fresh projection holds nothing that could be searched unsynced.
    Skip,
}

impl Default for SyncMode {
    /// [`SyncMode::Auto`].
    fn default() -> (mode: Self)
        ensures
            mode == SyncMode::Auto,
    {
        SyncMode::Auto
    }
}

/// What one sync did. A count stops at the largest number there is.
#[derive(Debug, Clone, Copy)]
pub struct SyncStats {
    pub indexed: usize,
    pub updated: usize,
    pub removed: usize,
    pub errored: usize,
    pub duration_ms: u64,
}

impl Default for SyncStats {
    /// Nothing done.
    fn default() -> (stats: Self)
        ensures
            stats == no_stats(),
    {
        SyncStats { indexed: 0, updated: 0, removed: 0, errored: 0, duration_ms: 0 }
    }
}

/// The stats of a sync that did nothing.
pub open spec fn no_stats() -> SyncStats {
    SyncStats { indexed: 0, updated: 0, removed: 0, errored: 0, duration_ms: 0 }
}

/// One more, up to the largest number there is.
pub open spec fn counted(n: usize) -> usize {
    if n < usize::MAX {
        (n + 1) as usize
    } else {
        n
    }
}

fn count(n: usize) -> (more: usize)
    ensures
        more == counted(n),
{
    if n < usize::MAX {
        n + 1
    } else {
        n
    }
}

/// Where a sync stands.
pub struct SyncPass {
    pub stats: SyncStats,
    /// The paths of the documents that were admitted.
    pub seen: Vec<AbsolutePath>,
    /// Whether the files are those of a revision that was read beforehand. A file of it that can
    /// no longer be read ends the sync.
    pub bound_revision: bool,
}

/// The names of a list of paths.
pub open spec fn paths_view(paths: Seq<AbsolutePath>) -> Seq<Seq<Seq<u8>>> {
    Seq::new(paths.len(), |i: int| paths[i]@)
}

/// One reading of a source file.
pub struct SourceReading {
    /// The file, where it could be read.
    pub snapshot: Option<StableMarkdownSnapshot>,
    /// What the operating system says of it.
    pub facts: Result<FileFacts, String>,
    /// What its frontmatter parses to.
    pub parsed: Result<Frontmatter, String>,
}

/// Whether a reading can be judged.
pub open spec fn is_judged(reading: SourceReading) -> bool {
    reading.snapshot matches Some(snapshot) && is_well_formed(
        snapshot,
        reading.facts,
        reading.parsed,
    )
}

/// Whether a reading shows a restricted meeting.
pub open spec fn shows_restricted(reading: SourceReading) -> bool {
    is_judged(reading) && is_restricted(reading.parsed->Ok_0)
}

/// Whether a reading shows a meeting that may be indexed, as `document`.
pub open spec fn shows_document(reading: SourceReading, document: IndexableDocument) -> bool {
    &&& is_judged(reading)
    &&& !is_restricted(reading.parsed->Ok_0)
    &&& is_document_of(document, reading.snapshot->0, reading.facts->Ok_0, reading.parsed->Ok_0)
}

/// Whether a document is stored as it is: with its time of change, its length and its digest.
pub open spec fn is_current(tables: ProjectionTables, document: IndexableDocument) -> bool {
    exists|rowid: i64| #[trigger]
        stored_as(tables, stored_text(document.path@), rowid) && is_current_at(
            tables,
            document,
            rowid,
        )
}

/// Whether the row at `rowid` has a document's time of change, its length and its digest.
pub open spec fn is_current_at(
    tables: ProjectionTables,
    document: IndexableDocument,
    rowid: i64,
) -> bool {
    let row = tables.meetings[rowid];
    &&& row.mtime_ns == document.mtime_ns
    &&& row.size_bytes == document.size_bytes
    &&& row.body_hash == hex_of(document.source_sha256@)
}

/// Whether an error says that the time has run out.
pub open spec fn is_deadline_error(error: SearchIndexError) -> bool {
    error matches SearchIndexError::Io(message) && message@
        == "meeting corpus authorization deadline elapsed"@
}

/// Refuses to go on once the time for it has run out.
pub fn check_deadline(in_time: bool) -> (result: Result<(), SearchIndexError>)
    ensures
        result is Ok == in_time,
        result matches Err(error) ==> is_deadline_error(error),
{
    if in_time {
        Ok(())
    } else {
        Err(SearchIndexError::Io("meeting corpus authorization deadline elapsed".to_owned()))
    }
}

/// Whether an error says that a walk through the corpus failed.
pub open spec fn is_traversal_error(error: SearchIndexError) -> bool {
    error matches SearchIndexError::Io(message) && message@
        == "meeting corpus traversal could not be verified"@
}

/// The error for a walk through the corpus that failed.
pub fn traversal_error() -> (error: SearchIndexError)
    ensures
        is_traversal_error(error),
{
    SearchIndexError::Io("meeting corpus traversal could not be verified".to_owned())
}

/// Whether a sync looks at an entry of the corpus: a file named like a meeting, outside the
/// directories that are never indexed.
pub open spec fn is_wanted(root: Seq<Seq<u8>>, path: Seq<Seq<u8>>, is_directory: bool) -> bool {
    !is_directory && is_markdown(path) && !is_excluded(root, path)
}

/// Whether the configured path leads to the corpus at `root`.
pub open spec fn leads_to(
    corpus: Result<AbsolutePath, SearchIndexError>,
    root: Seq<Seq<u8>>,
) -> bool {
    corpus matches Ok(found) && found@ == root
}

/// How a sync begins: with all kept, or with nothing.
pub open spec fn synced_from(mode: SyncMode, kept: ProjectionTables) -> ProjectionTables {
    if mode == SyncMode::Force {
        empty_tables()
    } else {
        kept
    }
}

impl SearchIndex {
    /// Begins a sync. `corpus` is where the configured path leads now, or why that is not known.
    pub fn begin_sync(
        &mut self,
        mode: SyncMode,
        in_time: bool,
        corpus: Result<AbsolutePath, SearchIndexError>,
        configured: &FilePath,
        bound_revision: bool,
    ) -> (result: Result<SyncPass, SearchIndexError>)
        requires
            old(self).wf(),
        ensures
            final(self).wf(),
            final(self).root() == old(self).root(),
            match result {
                Ok(pass) => {
                    &&& in_time
                    &&& leads_to(corpus, old(self).root())
                    &&& pass.stats == no_stats()
                    &&& pass.seen@.len() == 0
                    &&& pass.bound_revision == bound_revision
                    &&& final(self).kept() == synced_from(mode, old(self).kept())
                    &&& if mode == SyncMode::Force {
                        final(self).idle()
                    } else {
                        final(self).same_as(*old(self))
                    }
                },
                Err(error) => {
                    &&& final(self).kept() == old(self).kept()
                    &&& !(in_time && leads_to(corpus, old(self).root())) ==> final(self).same_as(
                        *old(self),
                    )
                    &&& if !in_time {
                        is_deadline_error(error)
                    } else {
                        match corpus {
                            Err(problem) => error == problem,
                            Ok(found) => if found@ != old(self).root() {
                                error matches SearchIndexError::Io(message) && message@
                                    == path_message(
                                    "configured meeting corpus no longer matches the index binding: "@,
                                    configured@,
                                )
                            } else {
                                mode == SyncMode::Force && error is Sqlite
                            },
                        }
                    }
                },
            },
    {
        if let Err(error) = check_deadline(in_time) {
            return Err(error);
        }
        let found = match corpus {
            Ok(found) => found,
            Err(error) => {
                return Err(error);
            },
        };
        if !self.bound_root().same(&found) {
            return Err(
                path_error(
                    "configured meeting corpus no longer matches the index binding: ",
                    configured,
                ),
            );
        }
        if mode == SyncMode::Force {
            if let Err(error) = self.forget_all() {
                return Err(SearchIndexError::Sqlite(error));
            }
        }
        Ok(SyncPass { stats: SyncStats::default(), seen: Vec::new(), bound_revision })
    }

    /// Whether a sync looks at an entry of the corpus.
    pub fn wants_source(&self, path: &AbsolutePath, is_directory: bool) -> (yes: bool)
        ensures
            yes == is_wanted(self.root(), path@, is_directory),
    {
        !is_directory && has_markdown_name(path) && !is_excluded_path(path, self.bound_root())
    }
}

/// What became of an admitted source: the index and the pass before and after.
pub open spec fn admission(
    before: SearchIndex,
    passed: SyncPass,
    path: Seq<Seq<u8>>,
    canonical: Seq<(Seq<Seq<u8>>, Seq<Seq<u8>>)>,
    reading: SourceReading,
    result: Result<Option<IndexableDocument>, SearchIndexError>,
    pass: SyncPass,
    after: SearchIndex,
) -> bool {
    let gone = |kept: ProjectionTables|
        bound_to(before.root(), absolute_bytes(path), canonical) matches Some(bound) && forgets(
            before.kept(),
            stored_text(bound),
            kept,
        );
    &&& pass.bound_revision == passed.bound_revision
    &&& if shows_restricted(reading) {
        &&& pass.seen@ == passed.seen@
        &&& match result {
            Ok(None) => {
                &&& gone(after.kept())
                &&& after.idle()
                &&& pass.stats == if is_stored(
                    before.kept(),
                    stored_text(bound_to(before.root(), absolute_bytes(path), canonical)->0),
                ) {
                    SyncStats { removed: counted(passed.stats.removed), ..passed.stats }
                } else {
                    passed.stats
                }
            },
            Ok(Some(_)) => false,
            Err(error) => {
                &&& pass.stats == passed.stats
                &&& after.kept() == before.kept() || gone(after.kept())
                &&& match bound_to(before.root(), absolute_bytes(path), canonical) {
                    None => error matches SearchIndexError::Io(message) && message@
                        == unbound_message(before.root(), absolute_bytes(path)),
                    Some(_) => error is Sqlite,
                }
            },
        }
    } else if is_judged(reading) {
        &&& after == before
        &&& pass.stats == passed.stats
        &&& paths_view(pass.seen@) == paths_view(passed.seen@).push(reading.snapshot->0.path@)
        &&& match result {
            Ok(Some(document)) => {
                &&& shows_document(reading, document)
                &&& tables_agree(before.shown()) ==> !is_current(before.shown(), document)
            },
            Ok(None) => exists|document: IndexableDocument| #[trigger]
                shows_document(reading, document) && is_current(before.shown(), document),
            Err(error) => error is Sqlite,
        }
    } else if reading.snapshot is None && passed.bound_revision {
        &&& after == before
        &&& pass == passed
        &&& result matches Err(SearchIndexError::Io(message)) && message@
            == "meeting changed while building the authorized search projection"@
    } else {
        &&& result matches Ok(None)
        &&& pass.seen@ == passed.seen@
        &&& pass.stats == (SyncStats { errored: counted(passed.stats.errored), ..passed.stats })
        &&& after.kept() == before.kept() || gone(after.kept())
    }
}

/// Whether a fingerprint is that of a document: of its time of change, its length and its digest.
pub open spec fn is_print_of(print: SourceFingerprint, document: IndexableDocument) -> bool {
    &&& print.mtime_ns == document.mtime_ns
    &&& print.size_bytes == document.size_bytes
    &&& print.body_hash@ == hex_of(document.source_sha256@)
}

/// Whether a document has to be written, from the fingerprint that the index has of it: there is
/// none, or it is another's. A lookup that failed says nothing.
pub fn needed_after(
    found: Result<Option<SourceFingerprint>, rusqlite::Error>,
    document: &IndexableDocument,
) -> (needed: Result<bool, rusqlite::Error>)
    ensures
        needed == match found {
            Ok(Some(print)) => Ok(!is_print_of(print, *document)),
            Ok(None) => Ok(true),
            Err(error) => Err(error),
        },
{
    match found {
        Err(error) => Err(error),
        Ok(None) => Ok(true),
        Ok(Some(print)) => {
            let hash = hex_sha256(&document.source_sha256);
            Ok(
                !(print.mtime_ns == document.mtime_ns && print.size_bytes == document.size_bytes
                    && same_text(print.body_hash.as_str(), hash.as_str())),
            )
        },
    }
}

impl SearchIndex {
    /// Whether a document has to be written: it is not stored, or not as it is now.
    pub fn needs_index(&self, document: &IndexableDocument) -> (result: Result<bool, rusqlite::Error>)
        requires
            self.wf(),
        ensures
            result matches Ok(false) ==> is_current(self.shown(), *document),
            result matches Ok(true) ==> tables_agree(self.shown()) ==> !is_current(
                self.shown(),
                *document,
            ),
    {
        let path = document.path.display();
        let found = self.fingerprint(path.as_str());
        proof {
            if found matches Ok(Some(_)) {
                let print = found->Ok_0->0;
                let tables = self.shown();
                let rowid = choose|rowid: i64| #[trigger]
                    stored_as(tables, path@, rowid) && is_fingerprint(tables.meetings[rowid], print);
                assert(path@ == stored_text(document.path@));
                assert(is_print_of(print, *document) == is_current_at(tables, *document, rowid));
                if tables_agree(tables) {
                    assert forall|other: i64| #[trigger]
                        stored_as(tables, path@, other) implies other == rowid by {
                        assert(tables.meetings[other].path == tables.meetings[rowid].path);
                    }
                }
            }
        }
        needed_after(found, document)
    }

    /// Judges one source. A restricted one is removed, or the sync ends. Of one that is malformed or
    /// cannot be read the removal is tried, whatever SQLite makes of it: it does not count as seen,
    /// so that the sweep at the end takes care of what stayed. One of a revision that cannot be read
    /// ends the sync. A document that has to be written is handed back.
    pub fn admit_source(
        &mut self,
        pass: &mut SyncPass,
        path: &AbsolutePath,
        canonical: &CanonicalPaths,
        reading: SourceReading,
    ) -> (result: Result<Option<IndexableDocument>, SearchIndexError>)
        requires
            old(self).wf(),
        ensures
            final(self).wf(),
            final(self).root() == old(self).root(),
            admission(
                *old(self),
                *old(pass),
                path@,
                canonical@,
                reading,
                result,
                *final(pass),
                *final(self),
            ),
    {
        let ghost read = reading;
        let SourceReading { snapshot, facts, parsed } = reading;
        let snapshot = match snapshot {
            Some(snapshot) => snapshot,
            None => {
                if pass.bound_revision {
                    return Err(
                        SearchIndexError::Io(
                            "meeting changed while building the authorized search projection".to_owned(),
                        ),
                    );
                }
                let removed = self.delete_file_inner(&path.file_path(), canonical);
                pass.stats.errored = count(pass.stats.errored);
                return Ok(None);
            },
        };
        let ghost source = snapshot.path@;
        match indexable_document_from_snapshot(snapshot, facts, parsed) {
            Ok(Some(document)) => {
                let ghost before = paths_view(pass.seen@);
                pass.seen.push(document.path.copied());
                assert(paths_view(pass.seen@) =~= before.push(source));
                assert(shows_document(read, document));
                match self.needs_index(&document) {
                    Err(error) => Err(SearchIndexError::Sqlite(error)),
                    Ok(true) => Ok(Some(document)),
                    Ok(false) => Ok(None),
                }
            },
            Ok(None) => match self.delete_file_inner(&path.file_path(), canonical) {
                Ok(removed) => {
                    if removed {
                        pass.stats.removed = count(pass.stats.removed);
                    }
                    Ok(None)
                },
                Err(error) => Err(error),
            },
            Err(_) => {
                let removed = self.delete_file_inner(&path.file_path(), canonical);
                pass.stats.errored = count(pass.stats.errored);
                Ok(None)
            },
        }
    }
}

/// The stats after one more upsert.
pub open spec fn after_upsert(
    stats: SyncStats,
    result: Result<bool, SearchIndexError>,
) -> SyncStats {
    match result {
        Ok(true) => SyncStats { indexed: counted(stats.indexed), ..stats },
        Ok(false) => SyncStats { updated: counted(stats.updated), ..stats },
        Err(_) => SyncStats { errored: counted(stats.errored), ..stats },
    }
}

impl SyncPass {
    /// Counts an upsert by what it said: a new document, one that was written again, or a failure.
    pub fn note_upsert(&mut self, result: &Result<bool, SearchIndexError>)
        ensures
            final(self).stats == after_upsert(old(self).stats, *result),
            final(self).seen@ == old(self).seen@,
            final(self).bound_revision == old(self).bound_revision,
    {
        match result {
            Ok(true) => {
                self.stats.indexed = count(self.stats.indexed);
            },
            Ok(false) => {
                self.stats.updated = count(self.stats.updated);
            },
            Err(_) => {
                self.stats.errored = count(self.stats.errored);
            },
        }
    }

    /// The stats of a sync that took this long.
    pub fn finish(self, elapsed_ms: u128) -> (stats: SyncStats)
        ensures
            stats == (SyncStats { duration_ms: elapsed_ms as u64, ..self.stats }),
    {
        let duration_ms: u64 = #[verifier::truncate] (elapsed_ms as u64);
        SyncStats { duration_ms, ..self.stats }
    }
}

/// Whether a stored path is the spelling of one of `seen`.
pub open spec fn is_seen(seen: Seq<Seq<Seq<u8>>>, stored: Seq<char>) -> bool {
    exists|i: int| 0 <= i < seen.len() && absolute_bytes(#[trigger] seen[i]) == encode_utf8(stored)
}

/// The stored paths that were read and are not of `seen`, in their order.
pub open spec fn stale_of(rows: Seq<Option<String>>, seen: Seq<Seq<Seq<u8>>>) -> Seq<Seq<char>>
    decreases rows.len(),
{
    if rows.len() == 0 {
        Seq::empty()
    } else {
        match rows.last() {
            Some(path) if !is_seen(seen, path@) => stale_of(rows.drop_last(), seen).push(path@),
            _ => stale_of(rows.drop_last(), seen),
        }
    }
}

fn seen_path(seen: &Vec<AbsolutePath>, stored: &str) -> (yes: bool)
    ensures
        yes == is_seen(paths_view(seen@), stored@),
{
    let bytes = stored.as_bytes_vec();
    let mut i: usize = 0;
    while i < seen.len()
        invariant
            bytes@ == encode_utf8(stored@),
            i <= seen@.len(),
            forall|k: int|
                0 <= k < i ==> absolute_bytes(#[trigger] paths_view(seen@)[k]) != encode_utf8(
                    stored@,
                ),
        decreases seen@.len() - i,
    {
        assert(paths_view(seen@)[i as int] == seen@[i as int]@);
        if same_bytes(&seen[i].bytes(), &bytes) {
            return true;
        }
        i = i + 1;
    }
    false
}

/// The stored paths that no longer have a source.
pub fn stale_paths(rows: &Vec<Option<String>>, seen: &Vec<AbsolutePath>) -> (stale: Vec<String>)
    ensures
        texts_view(stale@) == stale_of(rows@, paths_view(seen@)),
{
    let mut stale: Vec<String> = Vec::new();
    let mut i: usize = 0;
    assert(texts_view(stale@) =~= stale_of(rows@.take(0), paths_view(seen@)));
    while i < rows.len()
        invariant
            i <= rows@.len(),
            texts_view(stale@) == stale_of(rows@.take(i as int), paths_view(seen@)),
        decreases rows@.len() - i,
    {
        let ghost before = texts_view(stale@);
        assert(rows@.take(i + 1).drop_last() =~= rows@.take(i as int));
        if let Some(path) = &rows[i] {
            if !seen_path(seen, path.as_str()) {
                stale.push(path.clone());
                assert(texts_view(stale@) =~= before.push(path@));
            }
        }
        i = i + 1;
    }
    assert(rows@.take(i as int) =~= rows@);
    stale
}

impl SearchIndex {
    /// Removes one stored path that no longer has a source.
    pub fn remove_stale(&mut self, pass: &mut SyncPass, path: &String, canonical: &CanonicalPaths)
        requires
            old(self).wf(),
        ensures
            final(self).wf(),
            final(self).root() == old(self).root(),
            final(pass).seen@ == old(pass).seen@,
            final(pass).bound_revision == old(pass).bound_revision,
            stale_removed(
                *old(self),
                old(pass).stats,
                path@,
                canonical@,
                final(pass).stats,
                *final(self),
            ),
    {
        let stored = FilePath { bytes: path.as_str().as_bytes_vec() };
        match self.delete_file(&stored, canonical) {
            Ok(_) => {
                pass.stats.removed = count(pass.stats.removed);
            },
            Err(_) => {
                pass.stats.errored = count(pass.stats.errored);
            },
        }
    }
}

/// What becomes of a stored path that no longer has a source: it is forgotten and counted as
/// removed, or an error is counted.
pub open spec fn stale_removed(
    before: SearchIndex,
    stats: SyncStats,
    path: Seq<char>,
    canonical: Seq<(Seq<Seq<u8>>, Seq<Seq<u8>>)>,
    after_stats: SyncStats,
    after: SearchIndex,
) -> bool {
    let bound = bound_to(before.root(), encode_utf8(path), canonical);
    ||| {
        &&& bound is Some
        &&& after.idle()
        &&& forgets(before.kept(), stored_text(bound->0), after.kept())
        &&& after_stats == (SyncStats { removed: counted(stats.removed), ..stats })
    }
    ||| {
        &&& after_stats == (SyncStats { errored: counted(stats.errored), ..stats })
        &&& after.kept() == before.kept() || (bound is Some && forgets(
            before.kept(),
            stored_text(bound->0),
            after.kept(),
        ))
    }
}

/// Where a sync stands, with the index as it is then.
pub struct SyncState {
    pub index: SearchIndex,
    pub pass: SyncPass,
}

/// Whether two states differ by the index and the stats alone.
pub open spec fn same_pass(before: SyncState, after: SyncState) -> bool {
    &&& after.index.root() == before.index.root()
    &&& after.pass.seen@ == before.pass.seen@
    &&& after.pass.bound_revision == before.pass.bound_revision
}

/// The removal of one stored path that no longer has a source.
pub open spec fn removal(
    before: SyncState,
    path: Seq<char>,
    canonical: Seq<(Seq<Seq<u8>>, Seq<Seq<u8>>)>,
    after: SyncState,
) -> bool {
    &&& same_pass(before, after)
    &&& stale_removed(
        before.index,
        before.pass.stats,
        path,
        canonical,
        after.pass.stats,
        after.index,
    )
}

/// The removal of stored paths, one after another.
pub open spec fn removals(
    before: SyncState,
    paths: Seq<Seq<char>>,
    canonical: Seq<(Seq<Seq<u8>>, Seq<Seq<u8>>)>,
    after: SyncState,
) -> bool
    decreases paths.len(),
{
    if paths.len() == 0 {
        after == before
    } else {
        exists|mid: SyncState|
            removals(before, paths.drop_last(), canonical, mid) && #[trigger] removal(
                mid,
                paths.last(),
                canonical,
                after,
            )
    }
}

/// The removal of the first of some stored paths, one after another.
pub open spec fn removals_begun(
    before: SyncState,
    paths: Seq<Seq<char>>,
    canonical: Seq<(Seq<Seq<u8>>, Seq<Seq<u8>>)>,
    after: SyncState,
) -> bool {
    exists|m: int|
        0 <= m <= paths.len() && removals(before, #[trigger] paths.take(m), canonical, after)
}

/// Whether a stored path binds to itself, so that removing it removes its own row.
pub open spec fn binds_to_itself(
    root: Seq<Seq<u8>>,
    path: Seq<char>,
    canonical: Seq<(Seq<Seq<u8>>, Seq<Seq<u8>>)>,
) -> bool {
    bound_to(root, encode_utf8(path), canonical) matches Some(bound) && stored_text(bound) == path
}

proof fn stale_paths_are_the_unseen(
    rows: Seq<Option<String>>,
    seen: Seq<Seq<Seq<u8>>>,
    path: Seq<char>,
)
    requires
        is_listed(rows, path),
        !is_seen(seen, path),
    ensures
        stale_of(rows, seen).contains(path),
    decreases rows.len(),
{
    let before = stale_of(rows.drop_last(), seen);
    let whole = stale_of(rows, seen);
    let i = choose|i: int|
        0 <= i < rows.len() && (#[trigger] rows[i] matches Some(text) && text@ == path);
    if i == rows.len() - 1 {
        assert(whole == before.push(path));
        assert(whole[before.len() as int] == path);
    } else {
        assert(rows.drop_last()[i] == rows[i]);
        assert(is_listed(rows.drop_last(), path));
        stale_paths_are_the_unseen(rows.drop_last(), seen, path);
        let k = before.index_of(path);
        assert(whole[k] == path);
    }
}

proof fn stale_paths_are_unseen(rows: Seq<Option<String>>, seen: Seq<Seq<Seq<u8>>>, k: int)
    requires
        0 <= k < stale_of(rows, seen).len(),
    ensures
        !is_seen(seen, stale_of(rows, seen)[k]),
        is_listed(rows, stale_of(rows, seen)[k]),
    decreases rows.len(),
{
    let before = stale_of(rows.drop_last(), seen);
    if k < before.len() {
        stale_paths_are_unseen(rows.drop_last(), seen, k);
        let path = before[k];
        let i = choose|i: int|
            0 <= i < rows.drop_last().len() && (#[trigger] rows.drop_last()[i] matches Some(text)
                && text@ == path);
        assert(rows[i] == rows.drop_last()[i]);
    } else {
        assert(rows[rows.len() - 1] is Some);
    }
}

/// Whether what is kept has only paths that are seen.
pub open spec fn only_seen_remain(tables: ProjectionTables, seen: Seq<Seq<Seq<u8>>>) -> bool {
    forall|path: Seq<char>| #[trigger] is_stored(tables, path) ==> is_seen(seen, path)
}

/// A row of `after` was there before, as it is.
pub open spec fn row_was_there(
    before: ProjectionTables,
    after: ProjectionTables,
    rowid: i64,
) -> bool {
    &&& before.meetings.contains_key(rowid)
    &&& after.meetings[rowid] == before.meetings[rowid]
    &&& after.texts[rowid] == before.texts[rowid]
}

/// Every row of `after` was there before.
pub open spec fn only_fewer(before: ProjectionTables, after: ProjectionTables) -> bool {
    forall|rowid: i64| #[trigger]
        after.meetings.contains_key(rowid) ==> row_was_there(before, after, rowid)
}

proof fn forgetting_leaves_fewer(
    before: ProjectionTables,
    path: Seq<char>,
    after: ProjectionTables,
)
    requires
        forgets(before, path, after),
    ensures
        only_fewer(before, after),
{
    if is_stored(before, path) {
        let gone = choose|rowid: i64| #[trigger]
            stored_as(before, path, rowid) && after == without_meeting(before, rowid);
    }
}

proof fn fewer_still(a: ProjectionTables, b: ProjectionTables, c: ProjectionTables)
    requires
        only_fewer(a, b),
        only_fewer(b, c),
    ensures
        only_fewer(a, c),
{
    assert forall|rowid: i64| #[trigger] c.meetings.contains_key(rowid) implies row_was_there(
        a,
        c,
        rowid,
    ) by {
        assert(row_was_there(b, c, rowid));
        assert(row_was_there(a, b, rowid));
    }
}

/// Whether the caller's path `other` binds to what is stored under `path`.
pub open spec fn binds_onto(
    root: Seq<Seq<u8>>,
    other: Seq<u8>,
    canonical: Seq<(Seq<Seq<u8>>, Seq<Seq<u8>>)>,
    path: Seq<char>,
) -> bool {
    bound_to(root, other, canonical) matches Some(bound) && stored_text(bound) == path
}

/// Whether no other path of a list binds to what is stored under `path`.
pub open spec fn none_else_binds(
    root: Seq<Seq<u8>>,
    rows: Seq<Option<String>>,
    canonical: Seq<(Seq<Seq<u8>>, Seq<Seq<u8>>)>,
    path: Seq<char>,
) -> bool {
    forall|other: Seq<char>| #[trigger]
        is_listed(rows, other) && other != path ==> !binds_onto(
            root,
            encode_utf8(other),
            canonical,
            path,
        )
}

proof fn forgetting_another_keeps_a_row(
    before: ProjectionTables,
    path: Seq<char>,
    after: ProjectionTables,
    rowid: i64,
)
    requires
        forgets(before, path, after),
        before.meetings.contains_key(rowid),
        before.meetings[rowid].path != path,
    ensures
        after.meetings.contains_key(rowid),
{
    if is_stored(before, path) {
        let gone = choose|gone: i64| #[trigger]
            stored_as(before, path, gone) && after == without_meeting(before, gone);
        assert(gone != rowid);
    }
}

impl SearchIndex {
    /// Removes the stored paths that no longer have a source, until the deadline. Where every stored
    /// path was read, and no removal fails, only paths that were seen remain.
    pub fn remove_missing(
        &mut self,
        pass: &mut SyncPass,
        rows: &Vec<Option<String>>,
        canonical: &CanonicalPaths,
        deadline: Option<Instant>,
    ) -> (result: Result<(), SearchIndexError>)
        requires
            old(self).wf(),
        ensures
            final(self).wf(),
            final(self).root() == old(self).root(),
            final(pass).seen@ == old(pass).seen@,
            final(pass).bound_revision == old(pass).bound_revision,
            final(pass).stats.indexed == old(pass).stats.indexed,
            final(pass).stats.updated == old(pass).stats.updated,
            final(pass).stats.duration_ms == old(pass).stats.duration_ms,
            final(pass).stats.errored >= old(pass).stats.errored,
            match result {
                Ok(_) => removals(
                    SyncState { index: *old(self), pass: *old(pass) },
                    stale_of(rows@, paths_view(old(pass).seen@)),
                    canonical@,
                    SyncState { index: *final(self), pass: *final(pass) },
                ),
                Err(error) => {
                    &&& deadline is Some && is_deadline_error(error)
                    &&& removals_begun(
                        SyncState { index: *old(self), pass: *old(pass) },
                        stale_of(rows@, paths_view(old(pass).seen@)),
                        canonical@,
                        SyncState { index: *final(self), pass: *final(pass) },
                    )
                },
            },
            result is Ok && old(self).idle() && final(pass).stats.errored == 0 ==> final(self).idle(),
            only_fewer(old(self).kept(), final(self).kept()),
            forall|path: Seq<char>, rowid: i64|
                is_seen(paths_view(old(pass).seen@), path) && #[trigger] stored_as(
                    old(self).kept(),
                    path,
                    rowid,
                ) && none_else_binds(old(self).root(), rows@, canonical@, path)
                    ==> final(self).kept().meetings.contains_key(rowid),
            ({
                &&& result is Ok
                &&& is_listing(old(self).kept(), rows@)
                &&& forall|path: Seq<char>| #[trigger]
                    is_listed(rows@, path) ==> binds_to_itself(old(self).root(), path, canonical@)
                &&& final(pass).stats.errored == old(pass).stats.errored
                &&& final(pass).stats.errored < usize::MAX
            }) ==> only_seen_remain(final(self).kept(), paths_view(old(pass).seen@)),
    {
        let stale = stale_paths(rows, &pass.seen);
        let ghost start = self.kept();
        let ghost root = self.root();
        let ghost seen = paths_view(pass.seen@);
        let ghost stats = pass.stats;
        let ghost all = stale_of(rows@, seen);
        let ghost usual = forall|path: Seq<char>| #[trigger]
            is_listed(rows@, path) ==> binds_to_itself(root, path, canonical@);
        let ghost first = SyncState { index: *self, pass: *pass };
        let mut i: usize = 0;
        assert(all.take(0) =~= Seq::<Seq<char>>::empty());
        assert(removals(first, all.take(0), canonical@, first));
        while i < stale.len()
            invariant
                self.wf(),
                self.root() == root,
                root == old(self).root(),
                start == old(self).kept(),
                stats == old(pass).stats,
                texts_view(stale@) == all,
                all == stale_of(rows@, seen),
                seen == paths_view(pass.seen@),
                pass.seen@ == old(pass).seen@,
                pass.bound_revision == old(pass).bound_revision,
                pass.stats.indexed == stats.indexed,
                pass.stats.updated == stats.updated,
                pass.stats.duration_ms == stats.duration_ms,
                usual == forall|path: Seq<char>| #[trigger]
                    is_listed(rows@, path) ==> binds_to_itself(root, path, canonical@),
                i <= stale@.len(),
                first == (SyncState { index: *old(self), pass: *old(pass) }),
                removals(
                    first,
                    all.take(i as int),
                    canonical@,
                    SyncState { index: *self, pass: *pass },
                ),
                only_fewer(start, self.kept()),
                old(self).idle() && pass.stats.errored == 0 ==> self.idle(),
                stats.errored <= pass.stats.errored,
                usual && pass.stats.errored == stats.errored && stats.errored < usize::MAX
                    ==> forall|k: int|
                    0 <= k < i ==> !is_stored(self.kept(), #[trigger] all[k]),
                forall|kept: Seq<char>, rowid: i64|
                    is_seen(seen, kept) && #[trigger] stored_as(start, kept, rowid)
                        && none_else_binds(root, rows@, canonical@, kept)
                        ==> self.kept().meetings.contains_key(rowid),
            decreases stale@.len() - i,
        {
            if let Err(error) = check_deadline(time_is_left(deadline)) {
                assert(removals(
                    first,
                    all.take(i as int),
                    canonical@,
                    SyncState { index: *self, pass: *pass },
                ));
                return Err(error);
            }
            let ghost before = self.kept();
            let ghost mid = SyncState { index: *self, pass: *pass };
            let ghost path = stale@[i as int]@;
            proof {
                assert(path == all[i as int]);
                stale_paths_are_unseen(rows@, seen, i as int);
            }
            self.remove_stale(pass, &stale[i], canonical);
            proof {
                let now = SyncState { index: *self, pass: *pass };
                let done = all.take(i + 1);
                assert(done.drop_last() =~= all.take(i as int));
                assert(removals(first, done.drop_last(), canonical@, mid));
                assert(removal(mid, done.last(), canonical@, now));
                assert(removals(first, done, canonical@, now));
                let after = self.kept();
                let bound = bound_to(root, encode_utf8(path), canonical@);
                if after != before {
                    forgetting_leaves_fewer(before, stored_text(bound->0), after);
                }
                assert(only_fewer(before, after));
                assert forall|kept: Seq<char>, rowid: i64|
                    is_seen(seen, kept) && #[trigger] stored_as(start, kept, rowid)
                        && none_else_binds(
                        root,
                        rows@,
                        canonical@,
                        kept,
                    ) implies after.meetings.contains_key(rowid) by {
                    assert(row_was_there(start, before, rowid));
                    assert(kept != path);
                    assert(is_listed(rows@, path));
                    if after != before {
                        forgetting_another_keeps_a_row(
                            before,
                            stored_text(bound->0),
                            after,
                            rowid,
                        );
                    }
                }
                fewer_still(start, before, after);
                if usual && pass.stats.errored == stats.errored && stats.errored < usize::MAX {
                    assert(binds_to_itself(root, path, canonical@));
                    assert(forgets(before, path, after));
                    crate::search_index::forgetting_leaves_nothing(before, path, after);
                    assert forall|k: int| 0 <= k < i + 1 implies !is_stored(
                        after,
                        #[trigger] all[k],
                    ) by {
                        if k < i {
                            if is_stored(after, all[k]) {
                                let rowid = choose|rowid: i64| stored_as(after, all[k], rowid);
                                assert(row_was_there(before, after, rowid));
                                assert(stored_as(before, all[k], rowid));
                            }
                        }
                    }
                }
            }
            i = i + 1;
        }
        proof {
            assert(all.take(i as int) =~= all);
            if is_listing(start, rows@) && usual && pass.stats.errored == stats.errored
                && stats.errored < usize::MAX {
                assert forall|path: Seq<char>| #[trigger] is_stored(self.kept(), path) implies is_seen(
                    seen,
                    path,
                ) by {
                    let rowid = choose|rowid: i64| stored_as(self.kept(), path, rowid);
                    assert(row_was_there(start, self.kept(), rowid));
                    assert(stored_as(start, path, rowid));
                    assert(is_stored(start, path));
                    if !is_seen(seen, path) {
                        stale_paths_are_the_unseen(rows@, seen, path);
                        let k = all.index_of(path);
                        assert(!is_stored(self.kept(), all[k]));
                    }
                }
            }
        }
        Ok(())
    }
}

/// An entry that a walk through the corpus came to, with what was read of it.
pub struct SyncSource {
    /// The entry; none where the walk failed.
    pub path: Option<AbsolutePath>,
    pub is_directory: bool,
    pub reading: SourceReading,
    /// The reading that lets its rows be written.
    pub before: PolicyReading,
    /// The reading that lets its rows be kept.
    pub after: PolicyReading,
}

/// Whether an entry shows a meeting that may be indexed, as `document`, and goes on doing so while
/// it is written. An entry of a revision is not read again.
pub open spec fn source_shows(
    root: Seq<Seq<u8>>,
    revision: bool,
    source: SyncSource,
    document: IndexableDocument,
) -> bool {
    &&& source.path matches Some(path) && is_wanted(root, path@, source.is_directory)
    &&& shows_document(source.reading, document)
    &&& revision || shows_normal_policy(source.before, Some(document.source_sha256))
    &&& revision || shows_normal_policy(source.after, Some(document.source_sha256))
}

/// Whether the row at `rowid` is that of an entry which may be indexed.
pub open spec fn row_shows(
    root: Seq<Seq<u8>>,
    revision: bool,
    source: SyncSource,
    tables: ProjectionTables,
    rowid: i64,
    document: IndexableDocument,
    indexed_at: i64,
) -> bool {
    &&& source_shows(root, revision, source, document)
    &&& tables.meetings[rowid] == record_of(document, indexed_at)
    &&& tables.texts[rowid] == TextRecord { title: document.title@, body: document.body@ }
}

/// Whether one of the entries explains the row at `rowid`.
pub open spec fn row_has_source(
    root: Seq<Seq<u8>>,
    revision: bool,
    sources: Seq<SyncSource>,
    tables: ProjectionTables,
    rowid: i64,
) -> bool {
    exists|j: int, document: IndexableDocument, indexed_at: i64|
        0 <= j < sources.len() && #[trigger] row_shows(
            root,
            revision,
            sources[j],
            tables,
            rowid,
            document,
            indexed_at,
        )
}

/// Every row of `after` was there before, or is that of an entry which may be indexed.
pub open spec fn only_indexable_added(
    root: Seq<Seq<u8>>,
    revision: bool,
    sources: Seq<SyncSource>,
    before: ProjectionTables,
    after: ProjectionTables,
) -> bool {
    forall|rowid: i64| #[trigger]
        after.meetings.contains_key(rowid) ==> row_was_there(before, after, rowid)
            || row_has_source(root, revision, sources, after, rowid)
}

proof fn fewer_rows_keep_their_sources(
    root: Seq<Seq<u8>>,
    revision: bool,
    sources: Seq<SyncSource>,
    start: ProjectionTables,
    before: ProjectionTables,
    after: ProjectionTables,
)
    requires
        only_indexable_added(root, revision, sources, start, before),
        only_fewer(before, after),
    ensures
        only_indexable_added(root, revision, sources, start, after),
{
    assert forall|rowid: i64| #[trigger] after.meetings.contains_key(rowid) implies row_was_there(
        start,
        after,
        rowid,
    ) || row_has_source(root, revision, sources, after, rowid) by {
        assert(row_was_there(before, after, rowid));
        if row_has_source(root, revision, sources, before, rowid) {
            let (j, document, indexed_at) = choose|
                j: int,
                document: IndexableDocument,
                indexed_at: i64,
            |
                0 <= j < sources.len() && #[trigger] row_shows(
                    root,
                    revision,
                    sources[j],
                    before,
                    rowid,
                    document,
                    indexed_at,
                );
            assert(row_shows(root, revision, sources[j], after, rowid, document, indexed_at));
        }
    }
}

proof fn stored_row_has_its_source(
    root: Seq<Seq<u8>>,
    revision: bool,
    sources: Seq<SyncSource>,
    start: ProjectionTables,
    before: ProjectionTables,
    after: ProjectionTables,
    j: int,
    document: IndexableDocument,
)
    requires
        only_indexable_added(root, revision, sources, start, before),
        0 <= j < sources.len(),
        source_shows(root, revision, sources[j], document),
        stores(before, document, after),
    ensures
        only_indexable_added(root, revision, sources, start, after),
{
    let (new, at) = choose|new: i64, at: i64| #[trigger]
        stores_at(before, document, after, new, at);
    assert forall|rowid: i64| #[trigger] after.meetings.contains_key(rowid) implies row_was_there(
        start,
        after,
        rowid,
    ) || row_has_source(root, revision, sources, after, rowid) by {
        if rowid == new {
            assert(row_shows(root, revision, sources[j], after, rowid, document, at));
        } else {
            assert(before.meetings.contains_key(rowid));
            if row_has_source(root, revision, sources, before, rowid) {
                let (k, other, indexed_at) = choose|
                    k: int,
                    other: IndexableDocument,
                    indexed_at: i64,
                |
                    0 <= k < sources.len() && #[trigger] row_shows(
                        root,
                        revision,
                        sources[k],
                        before,
                        rowid,
                        other,
                        indexed_at,
                    );
                assert(row_shows(root, revision, sources[k], after, rowid, other, indexed_at));
            }
        }
    }
}

/// Why a sync is refused, other than by SQLite.
pub open spec fn sync_refusal(
    root: Seq<Seq<u8>>,
    revision: bool,
    deadline: Option<Instant>,
    corpus: Result<AbsolutePath, SearchIndexError>,
    configured: Seq<u8>,
    sources: Seq<SyncSource>,
    canonical: Seq<(Seq<Seq<u8>>, Seq<Seq<u8>>)>,
    error: SearchIndexError,
) -> bool {
    ||| deadline is Some && is_deadline_error(error)
    ||| match corpus {
        Err(problem) => error == problem,
        Ok(found) => if found@ != root {
            error matches SearchIndexError::Io(message) && message@ == path_message(
                "configured meeting corpus no longer matches the index binding: "@,
                configured,
            )
        } else {
            exists|j: int|
                0 <= j < sources.len() && source_refusal(
                    root,
                    revision,
                    #[trigger] sources[j],
                    canonical,
                    error,
                )
        },
    }
}

/// Why one entry ends a sync, other than by SQLite or the deadline: the walk failed, a restricted
/// meeting does not bind to the corpus, or a file of a revision can no longer be read.
pub open spec fn source_refusal(
    root: Seq<Seq<u8>>,
    revision: bool,
    source: SyncSource,
    canonical: Seq<(Seq<Seq<u8>>, Seq<Seq<u8>>)>,
    error: SearchIndexError,
) -> bool {
    ||| source.path is None && is_traversal_error(error)
    ||| error matches SearchIndexError::Io(message) && restricted_outside(
        root,
        source,
        canonical,
        message@,
    )
    ||| revision && source.reading.snapshot is None && (error matches SearchIndexError::Io(message)
        && message@ == "meeting changed while building the authorized search projection"@)
}

/// Whether an entry is a restricted meeting that does not bind to the corpus, with what is then
/// said of it.
pub open spec fn restricted_outside(
    root: Seq<Seq<u8>>,
    source: SyncSource,
    canonical: Seq<(Seq<Seq<u8>>, Seq<Seq<u8>>)>,
    message: Seq<char>,
) -> bool {
    &&& source.path matches Some(path) && bound_to(root, absolute_bytes(path@), canonical) is None
        && message == unbound_message(root, absolute_bytes(path@))
    &&& shows_restricted(source.reading)
}

/// What one entry does to an index where nothing goes wrong: what is not wanted changes nothing, a
/// restricted meeting is forgotten, and any other is seen and stored as it is.
pub open spec fn source_synced(
    before: SearchIndex,
    seen_before: Seq<Seq<Seq<u8>>>,
    source: SyncSource,
    canonical: Seq<(Seq<Seq<u8>>, Seq<Seq<u8>>)>,
    seen: Seq<Seq<Seq<u8>>>,
    after: SearchIndex,
) -> bool {
    &&& after.idle()
    &&& source.path is Some
    &&& if !is_wanted(before.root(), source.path->0@, source.is_directory) {
        after.kept() == before.kept() && seen == seen_before
    } else if shows_restricted(source.reading) {
        &&& seen == seen_before
        &&& bound_to(before.root(), absolute_bytes(source.path->0@), canonical) matches Some(bound)
            && forgets(before.kept(), stored_text(bound), after.kept())
    } else {
        &&& is_judged(source.reading)
        &&& seen == seen_before.push(source.reading.snapshot->0.path@)
        &&& exists|document: IndexableDocument| #[trigger]
            shows_document(source.reading, document) && (stores(
                before.kept(),
                document,
                after.kept(),
            ) || (is_current(before.kept(), document) && after.kept() == before.kept()))
    }
}

/// What one entry does to a sync that goes on: what is not wanted changes nothing; any other is
/// judged, and written where that is needed.
pub open spec fn source_step(
    before: SyncState,
    source: SyncSource,
    canonical: Seq<(Seq<Seq<u8>>, Seq<Seq<u8>>)>,
    after: SyncState,
) -> bool {
    &&& source.path is Some
    &&& if is_wanted(before.index.root(), source.path->0@, source.is_directory) {
        exists|admitted: SyncState, document: Option<IndexableDocument>| #[trigger]
            source_admitted(before, source, canonical, admitted, document) && match document {
                None => after == admitted,
                Some(document) => document_written(admitted, document, source, after),
            }
    } else {
        after == before
    }
}

/// The judgement of one entry, with the document that is to be written.
pub open spec fn source_admitted(
    before: SyncState,
    source: SyncSource,
    canonical: Seq<(Seq<Seq<u8>>, Seq<Seq<u8>>)>,
    admitted: SyncState,
    document: Option<IndexableDocument>,
) -> bool {
    &&& admitted.index.root() == before.index.root()
    &&& admission(
        before.index,
        before.pass,
        source.path->0@,
        canonical,
        source.reading,
        Ok(document),
        admitted.pass,
        admitted.index,
    )
}

/// The writing of one document, which is counted by how it came out.
pub open spec fn document_written(
    before: SyncState,
    document: IndexableDocument,
    source: SyncSource,
    after: SyncState,
) -> bool {
    &&& same_pass(before, after)
    &&& exists|result: Result<bool, SearchIndexError>| #[trigger]
        is_written(before, document, source, result, after.index) && after.pass.stats
            == after_upsert(before.pass.stats, result)
}

/// What becomes of a document: one of a revision is stored as it is, and any other where two further
/// readings of its source let it be.
pub open spec fn is_written(
    before: SyncState,
    document: IndexableDocument,
    source: SyncSource,
    result: Result<bool, SearchIndexError>,
    after: SearchIndex,
) -> bool {
    if before.pass.bound_revision {
        attested_upserted(before.index, document, result, after)
    } else {
        upserted(before.index, document, source.before, source.after, result, after)
    }
}

/// What entries do to a sync, one after another.
pub open spec fn source_steps(
    before: SyncState,
    sources: Seq<SyncSource>,
    canonical: Seq<(Seq<Seq<u8>>, Seq<Seq<u8>>)>,
    after: SyncState,
) -> bool
    decreases sources.len(),
{
    if sources.len() == 0 {
        after == before
    } else {
        exists|mid: SyncState|
            source_steps(before, sources.drop_last(), canonical, mid) && #[trigger] source_step(
                mid,
                sources.last(),
                canonical,
                after,
            )
    }
}

/// Where one entry ends a sync: the time has run out or the walk failed before it was looked at, it
/// could not be judged, or the time has run out after it was written.
pub open spec fn source_cut(
    before: SyncState,
    source: SyncSource,
    canonical: Seq<(Seq<Seq<u8>>, Seq<Seq<u8>>)>,
    deadline: Option<Instant>,
    error: SearchIndexError,
    after: SyncState,
) -> bool {
    let late = deadline is Some && is_deadline_error(error);
    ||| after == before && (late || (source.path is None && is_traversal_error(error)))
    ||| {
        &&& source.path matches Some(path) && is_wanted(
            before.index.root(),
            path@,
            source.is_directory,
        )
        &&& admission(
            before.index,
            before.pass,
            source.path->0@,
            canonical,
            source.reading,
            Err(error),
            after.pass,
            after.index,
        )
    }
    ||| late && source_step(before, source, canonical, after)
}

/// Where a sync that began ends with an error: at an entry, after those before it had their steps;
/// or after every entry, where the stored paths could not be listed or the time ran out while those
/// that were not seen were removed.
pub open spec fn is_cut_short(
    begun: SyncState,
    deadline: Option<Instant>,
    sources: Seq<SyncSource>,
    canonical: Seq<(Seq<Seq<u8>>, Seq<Seq<u8>>)>,
    error: SearchIndexError,
    read: SyncState,
    n: int,
    end: SyncState,
) -> bool {
    &&& 0 <= n <= sources.len()
    &&& source_steps(begun, sources.take(n), canonical, read)
    &&& if n < sources.len() {
        source_cut(read, sources[n], canonical, deadline, error, end)
    } else {
        ||| error is Sqlite && end == read
        ||| deadline is Some && is_deadline_error(error) && exists|rows: Seq<Option<String>>|
            #[trigger] may_list(read.index, rows) && removals_begun(
                read,
                stale_of(rows, paths_view(read.pass.seen@)),
                canonical,
                end,
            )
    }
}

/// How a sync begins that nothing refuses.
pub open spec fn is_begun(
    index: SearchIndex,
    mode: SyncMode,
    revision: bool,
    begun: SyncState,
) -> bool {
    &&& begun.index.root() == index.root()
    &&& begun.index.kept() == synced_from(mode, index.kept())
    &&& if mode == SyncMode::Force {
        begun.index.idle()
    } else {
        begun.index.same_as(index)
    }
    &&& begun.pass.stats == no_stats()
    &&& begun.pass.seen@.len() == 0
    &&& begun.pass.bound_revision == revision
}

/// Whether `rows` may be what an index answers when it is asked for its paths.
pub open spec fn may_list(index: SearchIndex, rows: Seq<Option<String>>) -> bool {
    &&& forall|i: int|
        0 <= i < rows.len() ==> (#[trigger] rows[i] matches Some(path) ==> is_stored(
            index.shown(),
            path@,
        ))
    &&& all_read(rows) ==> is_listing(index.shown(), rows)
}

/// A whole sync: it begins, each entry has its step, and then the stored paths that were not seen
/// are removed.
pub open spec fn is_sync(
    index: SearchIndex,
    mode: SyncMode,
    revision: bool,
    sources: Seq<SyncSource>,
    canonical: Seq<(Seq<Seq<u8>>, Seq<Seq<u8>>)>,
    begun: SyncState,
    read: SyncState,
    rows: Seq<Option<String>>,
    end: SyncState,
) -> bool {
    &&& is_begun(index, mode, revision, begun)
    &&& source_steps(begun, sources, canonical, read)
    &&& may_list(read.index, rows)
    &&& removals(read, stale_of(rows, paths_view(read.pass.seen@)), canonical, end)
}

/// Whether an entry is wanted and shows a restricted meeting.
pub open spec fn wanted_restricted(root: Seq<Seq<u8>>, source: SyncSource) -> bool {
    &&& source.path matches Some(path) && is_wanted(root, path@, source.is_directory)
    &&& shows_restricted(source.reading)
}

/// Whether one of the entries may be indexed under `text`.
pub open spec fn is_indexable_text(
    root: Seq<Seq<u8>>,
    revision: bool,
    sources: Seq<SyncSource>,
    text: Seq<char>,
) -> bool {
    exists|k: int, document: IndexableDocument|
        0 <= k < sources.len() && #[trigger] source_shows(root, revision, sources[k], document)
            && stored_text(document.path@) == text
}

/// Whether nothing is stored of each of the first `n` entries that show a restricted meeting,
/// unless another entry may be indexed under the same text.
pub open spec fn restricted_are_gone(
    root: Seq<Seq<u8>>,
    revision: bool,
    canonical: Seq<(Seq<Seq<u8>>, Seq<Seq<u8>>)>,
    sources: Seq<SyncSource>,
    n: int,
    tables: ProjectionTables,
) -> bool {
    forall|j: int|
        0 <= j < n && #[trigger] wanted_restricted(root, sources[j]) ==> (bound_to(
            root,
            absolute_bytes(sources[j].path->0@),
            canonical,
        ) matches Some(bound) && (is_stored(tables, stored_text(bound)) ==> is_indexable_text(
            root,
            revision,
            sources,
            stored_text(bound),
        )))
}

proof fn fewer_rows_store_fewer_paths(
    before: ProjectionTables,
    after: ProjectionTables,
    path: Seq<char>,
)
    requires
        only_fewer(before, after),
        is_stored(after, path),
    ensures
        is_stored(before, path),
{
    let rowid = choose|rowid: i64| stored_as(after, path, rowid);
    assert(row_was_there(before, after, rowid));
    assert(stored_as(before, path, rowid));
}

proof fn restricted_stay_gone(
    root: Seq<Seq<u8>>,
    revision: bool,
    canonical: Seq<(Seq<Seq<u8>>, Seq<Seq<u8>>)>,
    sources: Seq<SyncSource>,
    n: int,
    before: ProjectionTables,
    after: ProjectionTables,
)
    requires
        restricted_are_gone(root, revision, canonical, sources, n, before),
        only_fewer(before, after) || exists|k: int, document: IndexableDocument|
            0 <= k < sources.len() && #[trigger] source_shows(root, revision, sources[k], document) && stores(
                before,
                document,
                after,
            ),
    ensures
        restricted_are_gone(root, revision, canonical, sources, n, after),
{
    assert forall|j: int| 0 <= j < n && #[trigger] wanted_restricted(root, sources[j]) implies (
    bound_to(root, absolute_bytes(sources[j].path->0@), canonical) matches Some(bound) && (is_stored(
        after,
        stored_text(bound),
    ) ==> is_indexable_text(root, revision, sources, stored_text(bound)))) by {
        let text = stored_text(bound_to(root, absolute_bytes(sources[j].path->0@), canonical)->0);
        if is_stored(after, text) {
            if only_fewer(before, after) {
                fewer_rows_store_fewer_paths(before, after, text);
            } else {
                let (k, document) = choose|k: int, document: IndexableDocument|
                    0 <= k < sources.len() && #[trigger] source_shows(root, revision, sources[k], document)
                        && stores(before, document, after);
                let (new, at) = choose|new: i64, at: i64| #[trigger]
                    stores_at(before, document, after, new, at);
                let rowid = choose|rowid: i64| stored_as(after, text, rowid);
                if rowid != new {
                    assert(stored_as(before, text, rowid));
                }
            }
        }
    }
}

impl SearchIndex {
    /// Looks at one entry that a sync wants, and writes it where that is needed.
    fn sync_source(
        &mut self,
        pass: &mut SyncPass,
        source: SyncSource,
        canonical: &CanonicalPaths,
        deadline: Option<Instant>,
    ) -> (result: Result<(), SearchIndexError>)
        requires
            old(self).wf(),
        ensures
            final(self).wf(),
            final(self).root() == old(self).root(),
            final(pass).bound_revision == old(pass).bound_revision,
            final(pass).stats.duration_ms == old(pass).stats.duration_ms,
            final(pass).stats.errored == 0 ==> old(pass).stats.errored == 0,
            result is Ok && old(self).idle() && final(pass).stats.errored == 0 ==> source_synced(
                *old(self),
                paths_view(old(pass).seen@),
                source,
                canonical@,
                paths_view(final(pass).seen@),
                *final(self),
            ),
            ({
                ||| only_fewer(old(self).kept(), final(self).kept())
                ||| exists|document: IndexableDocument| #[trigger]
                    source_shows(
                        old(self).root(),
                        old(pass).bound_revision,
                        source,
                        document,
                    ) && stores(old(self).kept(), document, final(self).kept())
            }),
            match result {
                Ok(_) => source_step(
                    SyncState { index: *old(self), pass: *old(pass) },
                    source,
                    canonical@,
                    SyncState { index: *final(self), pass: *final(pass) },
                ),
                Err(error) => source_cut(
                    SyncState { index: *old(self), pass: *old(pass) },
                    source,
                    canonical@,
                    deadline,
                    error,
                    SyncState { index: *final(self), pass: *final(pass) },
                ),
            },
            result is Ok && wanted_restricted(old(self).root(), source) ==> (bound_to(
                old(self).root(),
                absolute_bytes(source.path->0@),
                canonical@,
            ) matches Some(bound) && !is_stored(final(self).kept(), stored_text(bound))),
            result matches Err(error) ==> {
                ||| error is Sqlite
                ||| deadline is Some && is_deadline_error(error)
                ||| source_refusal(
                    old(self).root(),
                    old(pass).bound_revision,
                    source,
                    canonical@,
                    error,
                )
            },
    {
        let ghost whole = source;
        let ghost root = self.root();
        let ghost start = self.kept();
        let SyncSource { path, is_directory, reading, before, after } = source;
        let ghost revision = pass.bound_revision;
        if let Err(error) = check_deadline(time_is_left(deadline)) {
            return Err(error);
        }
        let path = match path {
            Some(path) => path,
            None => {
                return Err(traversal_error());
            },
        };
        if !self.wants_source(&path, is_directory) {
            return Ok(());
        }
        let ghost from = SyncState { index: *self, pass: *pass };
        let admitted = self.admit_source(pass, &path, canonical, reading);
        let ghost mid = SyncState { index: *self, pass: *pass };
        proof {
            let bound = bound_to(root, absolute_bytes(path@), canonical@);
            if self.kept() != start {
                forgetting_leaves_fewer(start, stored_text(bound->0), self.kept());
            }
            assert(only_fewer(start, self.kept()));
            if admitted is Ok {
                assert(source_admitted(from, whole, canonical@, mid, admitted->Ok_0));
                if shows_restricted(whole.reading) {
                    crate::search_index::forgetting_leaves_nothing(
                        start,
                        stored_text(bound->0),
                        self.kept(),
                    );
                }
            }
        }
        let document = match admitted {
            Ok(Some(document)) => document,
            Ok(None) => {
                return Ok(());
            },
            Err(error) => {
                return Err(error);
            },
        };
        let written = if pass.bound_revision {
            self.upsert_pre_attested_document(&document)
        } else {
            self.upsert_document(&document, &before, &after)
        };
        assert(written is Ok ==> source_shows(root, revision, whole, document));
        pass.note_upsert(&written);
        proof {
            let now = SyncState { index: *self, pass: *pass };
            assert(is_written(mid, document, whole, written, now.index));
            assert(now.pass.stats == after_upsert(mid.pass.stats, written));
            assert(same_pass(mid, now));
            assert(document_written(mid, document, whole, now));
        }
        check_deadline(time_is_left(deadline))
    }

    /// Brings the index in line with the corpus. `corpus` is where the configured path leads now,
    /// `sources` is what a walk through the corpus came to, and `canonical` what paths resolve to.
    /// With `revision` the sources are those of a revision that is checked as a whole later on:
    /// none is read again, and one that cannot be read ends the sync. SQLite may fail at any step,
    /// and the deadline may pass.
    pub fn sync_with_active_corpus_revision(
        &mut self,
        mode: SyncMode,
        corpus: Result<AbsolutePath, SearchIndexError>,
        configured: &FilePath,
        sources: Vec<SyncSource>,
        canonical: &CanonicalPaths,
        revision: bool,
        deadline: Option<Instant>,
        elapsed_ms: u128,
    ) -> (result: Result<SyncStats, SearchIndexError>)
        requires
            old(self).wf(),
        ensures
            final(self).wf(),
            final(self).root() == old(self).root(),
            sync_outcome(
                *old(self),
                SyncRequest { mode, corpus, configured: configured@, revision, deadline, elapsed_ms },
                sources@,
                canonical@,
                result,
                *final(self),
            ),
    {
        let ghost start = self.kept();
        let ghost root = self.root();
        let ghost all = sources@;
        let ghost led = corpus;
        let in_time = time_is_left(deadline);
        let mut pass = match self.begin_sync(mode, in_time, corpus, configured, revision) {
            Ok(pass) => pass,
            Err(error) => {
                return Err(error);
            },
        };
        let ghost base = self.kept();
        let ghost begun = SyncState { index: *self, pass };
        assert(all.take(0) =~= Seq::<SyncSource>::empty());
        assert(source_steps(begun, all.take(0), canonical@, begun));
        for source in it: sources
            invariant
                it.seq() == all,
                all == sources@,
                is_begun(*old(self), mode, revision, begun),
                source_steps(
                    begun,
                    all.take(it.index() as int),
                    canonical@,
                    SyncState { index: *self, pass },
                ),
                restricted_are_gone(root, revision, canonical@, all, it.index() as int, self.kept()),
                self.wf(),
                self.root() == root,
                root == old(self).root(),
                pass.bound_revision == revision,
                pass.stats.duration_ms == 0,
                leads_to(led, root),
                led == corpus,
                only_fewer(start, base),
                start == old(self).kept(),
                base == synced_from(mode, start),
                only_indexable_added(root, revision, all, base, self.kept()),
                forall|j: int| 0 <= j < it.index() ==> (#[trigger] all[j]).path is Some,
                old(self).idle() && pass.stats.errored == 0 ==> {
                    &&& self.idle()
                    &&& all_current(root, canonical@, start, all, it.index() as int, self.kept())
                    &&& all_seen(root, all, it.index() as int, paths_view(pass.seen@))
                },
        {
            let ghost before = self.kept();
            let ghost whole = source;
            let ghost j = it.index();
            let ghost seen = paths_view(pass.seen@);
            let ghost index = *self;
            let ghost from = SyncState { index: *self, pass };
            let done = self.sync_source(&mut pass, source, canonical, deadline);
            proof {
                assert(whole == all[j]);
                if done is Ok {
                    let now = SyncState { index: *self, pass };
                    let some = all.take(j + 1);
                    assert(some.drop_last() =~= all.take(j as int));
                    assert(source_steps(begun, some.drop_last(), canonical@, from));
                    assert(source_step(from, some.last(), canonical@, now));
                    assert(source_steps(begun, some, canonical@, now));
                }
                restricted_stay_gone(root, revision, canonical@, all, j as int, before, self.kept());
                if only_fewer(before, self.kept()) {
                    fewer_rows_keep_their_sources(root, revision, all, base, before, self.kept());
                } else {
                    let document = choose|document: IndexableDocument| #[trigger]
                        source_shows(root, revision, whole, document) && stores(
                            before,
                            document,
                            self.kept(),
                        );
                    stored_row_has_its_source(root, revision, all, base, before, self.kept(), j, document);
                }
                earlier_rows_were_there(root, revision, all, start, base, self.kept());
                if done is Ok && old(self).idle() && pass.stats.errored == 0 {
                    step_keeps_all_current(
                        index,
                        seen,
                        canonical@,
                        start,
                        all,
                        j as int,
                        paths_view(pass.seen@),
                        *self,
                    );
                }
            }
            if let Err(error) = done {
                proof {
                    let end = SyncState { index: *self, pass };
                    assert(is_cut_short(
                        begun,
                        deadline,
                        all,
                        canonical@,
                        error,
                        from,
                        j as int,
                        end,
                    ));
                }
                return Err(error);
            }
        }
        proof {
            assert(all.take(all.len() as int) =~= all);
            earlier_rows_were_there(root, revision, all, start, base, self.kept());
        }
        let ghost read = SyncState { index: *self, pass };
        let rows = match self.paths() {
            Ok(rows) => rows,
            Err(error) => {
                let error = SearchIndexError::Sqlite(error);
                assert(is_cut_short(
                    begun,
                    deadline,
                    all,
                    canonical@,
                    error,
                    read,
                    all.len() as int,
                    read,
                ));
                return Err(error);
            },
        };
        let ghost before = self.kept();
        let ghost seen = paths_view(pass.seen@);
        assert(self.idle() ==> self.shown() == before);
        let removed = self.remove_missing(&mut pass, &rows, canonical, deadline);
        proof {
            let end = SyncState { index: *self, pass };
            let stale = stale_of(rows@, seen);
            assert(stale.take(stale.len() as int) =~= stale);
            assert(may_list(read.index, rows@));
            assert(removals_begun(read, stale, canonical@, end));
            if removed is Ok {
                assert(is_sync(
                    *old(self),
                    mode,
                    revision,
                    all,
                    canonical@,
                    begun,
                    read,
                    rows@,
                    end,
                ));
                let request = SyncRequest {
                    mode,
                    corpus,
                    configured: configured@,
                    revision,
                    deadline,
                    elapsed_ms,
                };
                assert(is_run(*old(self), request, all, canonical@, begun, read, rows@, end));
            }
            restricted_stay_gone(root, revision, canonical@, all, all.len() as int, before, self.kept());
            if old(self).idle() && pass.stats.errored == 0 {
                assert forall|j: int, document: IndexableDocument|
                    0 <= j < all.len() && wanted_shows(
                        root,
                        all[j],
                        document,
                    ) && #[trigger] undisturbed(
                        root,
                        canonical@,
                        start,
                        all,
                        j,
                        document.path@,
                    ) implies is_current(self.kept(), document) by {
                    let text = stored_text(document.path@);
                    assert(is_current(before, document));
                    let rowid = choose|rowid: i64| #[trigger]
                        stored_as(before, text, rowid) && is_current_at(before, document, rowid);
                    assert(is_seen(seen, text)) by {
                        let i = seen.index_of(document.path@);
                        assert(seen.contains(document.path@));
                        assert(absolute_bytes(seen[i]) == encode_utf8(text));
                    }
                    assert(none_else_binds(root, rows@, canonical@, text)) by {
                        assert forall|other: Seq<char>| #[trigger]
                            is_listed(rows@, other) && other != text implies !binds_onto(
                            root,
                            encode_utf8(other),
                            canonical@,
                            text,
                        ) by {
                            stored_paths_have_an_origin(root, revision, all, start, before, other);
                        }
                    }
                    assert(stored_as(self.kept(), text, rowid));
                }
            }
            fewer_rows_keep_their_sources(root, revision, all, base, before, self.kept());
            earlier_rows_were_there(root, revision, all, start, base, self.kept());
        }
        let ghost end = SyncState { index: *self, pass };
        if let Err(error) = removed {
            assert(is_cut_short(
                begun,
                deadline,
                all,
                canonical@,
                error,
                read,
                all.len() as int,
                end,
            ));
            return Err(error);
        }
        if let Err(error) = check_deadline(time_is_left(deadline)) {
            assert(is_cut_short(
                begun,
                deadline,
                all,
                canonical@,
                error,
                read,
                all.len() as int,
                end,
            ));
            return Err(error);
        }
        Ok(pass.finish(elapsed_ms))
    }

    /// Brings the index in line with every file of the corpus, with the readings that `sources` has
    /// of each. A caller that is to read a file between the steps takes them one by one:
    /// [`SearchIndex::begin_sync`]; for each entry [`SearchIndex::wants_source`],
    /// [`SearchIndex::admit_source`], [`SearchIndex::begin_upsert`],
    /// [`SearchIndex::finish_upsert`] and [`SyncPass::note_upsert`]; then
    /// [`SearchIndex::remove_missing`] and [`SyncPass::finish`].
    pub fn sync(
        &mut self,
        mode: SyncMode,
        corpus: Result<AbsolutePath, SearchIndexError>,
        configured: &FilePath,
        sources: Vec<SyncSource>,
        canonical: &CanonicalPaths,
        elapsed_ms: u128,
    ) -> (result: Result<SyncStats, SearchIndexError>)
        requires
            old(self).wf(),
        ensures
            final(self).wf(),
            final(self).root() == old(self).root(),
            sync_outcome(
                *old(self),
                SyncRequest {
                    mode,
                    corpus,
                    configured: configured@,
                    revision: false,
                    deadline: None,
                    elapsed_ms,
                },
                sources@,
                canonical@,
                result,
                *final(self),
            ),
    {
        self.sync_with_active_corpus_revision(
            mode,
            corpus,
            configured,
            sources,
            canonical,
            false,
            None,
            elapsed_ms,
        )
    }

    /// Brings the index in line with the files of a revision, until the deadline.
    pub fn sync_for_active_corpus(
        &mut self,
        mode: SyncMode,
        corpus: Result<AbsolutePath, SearchIndexError>,
        configured: &FilePath,
        sources: Vec<SyncSource>,
        canonical: &CanonicalPaths,
        deadline: Option<Instant>,
        elapsed_ms: u128,
    ) -> (result: Result<SyncStats, SearchIndexError>)
        requires
            old(self).wf(),
        ensures
            final(self).wf(),
            final(self).root() == old(self).root(),
            sync_outcome(
                *old(self),
                SyncRequest {
                    mode,
                    corpus,
                    configured: configured@,
                    revision: true,
                    deadline,
                    elapsed_ms,
                },
                sources@,
                canonical@,
                result,
                *final(self),
            ),
    {
        self.sync_with_active_corpus_revision(
            mode,
            corpus,
            configured,
            sources,
            canonical,
            true,
            deadline,
            elapsed_ms,
        )
    }
}

/// What a sync is asked for.
pub struct SyncRequest {
    pub mode: SyncMode,
    pub corpus: Result<AbsolutePath, SearchIndexError>,
    pub configured: Seq<u8>,
    pub revision: bool,
    pub deadline: Option<Instant>,
    pub elapsed_ms: u128,
}

/// Whether a list of stored paths was read whole, and each of them binds to itself.
pub open spec fn is_sound_list(
    root: Seq<Seq<u8>>,
    rows: Seq<Option<String>>,
    canonical: Seq<(Seq<Seq<u8>>, Seq<Seq<u8>>)>,
) -> bool {
    &&& all_read(rows)
    &&& forall|path: Seq<char>| #[trigger]
        is_listed(rows, path) ==> binds_to_itself(root, path, canonical)
}

/// The run of a sync that is through. Where no error is counted, no update is under way at its end;
/// and where the stored paths were read whole and each binds to itself, only what was seen remains.
pub open spec fn is_run(
    before: SearchIndex,
    request: SyncRequest,
    sources: Seq<SyncSource>,
    canonical: Seq<(Seq<Seq<u8>>, Seq<Seq<u8>>)>,
    begun: SyncState,
    read: SyncState,
    rows: Seq<Option<String>>,
    end: SyncState,
) -> bool {
    &&& is_sync(
        before,
        request.mode,
        request.revision,
        sources,
        canonical,
        begun,
        read,
        rows,
        end,
    )
    &&& before.idle() && end.pass.stats.errored == 0 ==> {
        &&& end.index.idle()
        &&& is_sound_list(before.root(), rows, canonical) ==> only_seen_remain(
            end.index.kept(),
            paths_view(read.pass.seen@),
        )
    }
}

/// What becomes of a sync. Whatever happens, only meetings that may be indexed are added. Where the
/// configured path no longer leads to the bound corpus it is refused, and nothing changes; any other
/// sync that fails ends where the failure was, with all that came before it done. Once a
/// sync is through nothing is left of restricted meetings; and where no error is counted, each
/// meeting that may be indexed is stored as it is now.
pub open spec fn sync_outcome(
    before: SearchIndex,
    request: SyncRequest,
    sources: Seq<SyncSource>,
    canonical: Seq<(Seq<Seq<u8>>, Seq<Seq<u8>>)>,
    result: Result<SyncStats, SearchIndexError>,
    after: SearchIndex,
) -> bool {
    let root = before.root();
    let n = sources.len() as int;
    &&& only_indexable_added(root, request.revision, sources, before.kept(), after.kept())
    &&& match result {
        Ok(stats) => {
            &&& leads_to(request.corpus, root)
            &&& forall|j: int| 0 <= j < n ==> (#[trigger] sources[j]).path is Some
            &&& exists|
                begun: SyncState,
                read: SyncState,
                rows: Seq<Option<String>>,
                end: SyncState,
            | #[trigger]
                is_run(before, request, sources, canonical, begun, read, rows, end) && end.index
                    == after && stats == (SyncStats {
                    duration_ms: request.elapsed_ms as u64,
                    ..end.pass.stats
                })
            &&& restricted_are_gone(root, request.revision, canonical, sources, n, after.kept())
            &&& before.idle() && stats.errored == 0 ==> all_current(
                root,
                canonical,
                before.kept(),
                sources,
                n,
                after.kept(),
            )
            &&& request.mode == SyncMode::Force ==> only_indexable_added(
                root,
                request.revision,
                sources,
                empty_tables(),
                after.kept(),
            )
        },
        Err(error) => {
            &&& (leads_to(request.corpus, root) && error is Sqlite) || sync_refusal(
                root,
                request.revision,
                request.deadline,
                request.corpus,
                request.configured,
                sources,
                canonical,
                error,
            )
            &&& if leads_to(request.corpus, root) {
                ||| {
                    &&& after.kept() == before.kept()
                    &&& (request.deadline is Some && is_deadline_error(error)) || (request.mode
                        == SyncMode::Force && error is Sqlite)
                }
                ||| exists|begun: SyncState, read: SyncState, k: int, end: SyncState| #[trigger]
                    is_cut_short(
                        begun,
                        request.deadline,
                        sources,
                        canonical,
                        error,
                        read,
                        k,
                        end,
                    ) && is_begun(before, request.mode, request.revision, begun) && end.index
                        == after
            } else {
                after.same_as(before)
            }
        },
    }
}

/// Whether an entry is wanted and shows a meeting that may be indexed, as `document`.
pub open spec fn wanted_shows(
    root: Seq<Seq<u8>>,
    source: SyncSource,
    document: IndexableDocument,
) -> bool {
    &&& source.path matches Some(path) && is_wanted(root, path@, source.is_directory)
    &&& shows_document(source.reading, document)
}

/// Whether one of the entries is stored under `text`.
pub open spec fn is_source_text(sources: Seq<SyncSource>, text: Seq<char>) -> bool {
    exists|k: int|
        0 <= k < sources.len() && ((#[trigger] sources[k]).reading.snapshot matches Some(snapshot)
            && stored_text(snapshot.path@) == text)
}

/// Whether nothing else stands under the text that the entry at `j` is stored by: the text spells
/// its path, no other entry has that text, no restricted one binds to it, and neither does any
/// other path that the index may hold.
pub open spec fn undisturbed(
    root: Seq<Seq<u8>>,
    canonical: Seq<(Seq<Seq<u8>>, Seq<Seq<u8>>)>,
    start: ProjectionTables,
    sources: Seq<SyncSource>,
    j: int,
    path: Seq<Seq<u8>>,
) -> bool {
    let text = stored_text(path);
    &&& encode_utf8(text) == absolute_bytes(path)
    &&& forall|k: int|
        0 <= k < sources.len() && k != j ==> ((#[trigger] sources[k]).reading.snapshot matches Some(
            other,
        ) ==> stored_text(other.path@) != text)
    &&& forall|k: int|
        0 <= k < sources.len() && shows_restricted(sources[k].reading) ==> ((
        #[trigger] sources[k]).path matches Some(other) ==> !binds_onto(
            root,
            absolute_bytes(other@),
            canonical,
            text,
        ))
    &&& forall|other: Seq<char>|
        (is_stored(start, other) || is_source_text(sources, other)) && other != text
            ==> !#[trigger] binds_onto(root, encode_utf8(other), canonical, text)
}

/// Whether each of the first `n` entries that may be indexed, and that nothing disturbs, is stored
/// as it is.
pub open spec fn all_current(
    root: Seq<Seq<u8>>,
    canonical: Seq<(Seq<Seq<u8>>, Seq<Seq<u8>>)>,
    start: ProjectionTables,
    sources: Seq<SyncSource>,
    n: int,
    tables: ProjectionTables,
) -> bool {
    forall|j: int, document: IndexableDocument|
        0 <= j < n && wanted_shows(root, sources[j], document) && #[trigger] undisturbed(
            root,
            canonical,
            start,
            sources,
            j,
            document.path@,
        ) ==> is_current(tables, document)
}

/// Whether each of the first `n` entries that may be indexed was seen.
pub open spec fn all_seen(
    root: Seq<Seq<u8>>,
    sources: Seq<SyncSource>,
    n: int,
    seen: Seq<Seq<Seq<u8>>>,
) -> bool {
    forall|j: int, document: IndexableDocument|
        0 <= j < n && #[trigger] wanted_shows(root, sources[j], document) ==> seen.contains(
            document.path@,
        )
}

proof fn step_keeps_all_current(
    before: SearchIndex,
    seen_before: Seq<Seq<Seq<u8>>>,
    canonical: Seq<(Seq<Seq<u8>>, Seq<Seq<u8>>)>,
    start: ProjectionTables,
    sources: Seq<SyncSource>,
    k: int,
    seen: Seq<Seq<Seq<u8>>>,
    after: SearchIndex,
)
    requires
        0 <= k < sources.len(),
        before.wf(),
        source_synced(before, seen_before, sources[k], canonical, seen, after),
        all_current(before.root(), canonical, start, sources, k, before.kept()),
        all_seen(before.root(), sources, k, seen_before),
    ensures
        all_current(before.root(), canonical, start, sources, k + 1, after.kept()),
        all_seen(before.root(), sources, k + 1, seen),
{
    let root = before.root();
    let source = sources[k];
    assert forall|j: int, document: IndexableDocument|
        0 <= j < k + 1 && #[trigger] wanted_shows(
            root,
            sources[j],
            document,
        ) implies seen.contains(document.path@) by {
        if j < k {
            let i = seen_before.index_of(document.path@);
            assert(seen_before.contains(document.path@));
            assert(seen[i] == seen_before[i]);
        } else {
            assert(seen[seen_before.len() as int] == document.path@);
        }
    }
    assert forall|j: int, document: IndexableDocument|
        0 <= j < k + 1 && wanted_shows(root, sources[j], document) && #[trigger] undisturbed(
            root,
            canonical,
            start,
            sources,
            j,
            document.path@,
        ) implies is_current(after.kept(), document) by {
        let text = stored_text(document.path@);
        if j == k {
            let other = choose|other: IndexableDocument| #[trigger]
                shows_document(source.reading, other) && (stores(
                    before.kept(),
                    other,
                    after.kept(),
                ) || (is_current(before.kept(), other) && after.kept() == before.kept()));
            if stores(before.kept(), other, after.kept()) {
                let (rowid, at) = choose|rowid: i64, at: i64| #[trigger]
                    stores_at(before.kept(), other, after.kept(), rowid, at);
                assert(stored_as(after.kept(), text, rowid));
                assert(is_current_at(after.kept(), document, rowid));
            } else {
                let rowid = choose|rowid: i64| #[trigger]
                    stored_as(before.kept(), text, rowid) && is_current_at(
                        before.kept(),
                        other,
                        rowid,
                    );
                assert(is_current_at(after.kept(), document, rowid));
            }
        } else {
            assert(is_current(before.kept(), document));
            let rowid = choose|rowid: i64| #[trigger]
                stored_as(before.kept(), text, rowid) && is_current_at(
                    before.kept(),
                    document,
                    rowid,
                );
            if !is_wanted(root, source.path->0@, source.is_directory) {
            } else if shows_restricted(source.reading) {
                let bound = bound_to(root, absolute_bytes(source.path->0@), canonical)->0;
                assert(stored_text(bound) != text);
                crate::search_laws::forgetting_leaves_other_meetings(
                    before.kept(),
                    stored_text(bound),
                    after.kept(),
                    rowid,
                );
            } else {
                let other = choose|other: IndexableDocument| #[trigger]
                    shows_document(source.reading, other) && (stores(
                        before.kept(),
                        other,
                        after.kept(),
                    ) || (is_current(before.kept(), other) && after.kept() == before.kept()));
                assert(stored_text(other.path@) != text);
                if stores(before.kept(), other, after.kept()) {
                    crate::search_laws::storing_leaves_other_meetings(
                        before.kept(),
                        other,
                        after.kept(),
                        rowid,
                    );
                }
            }
            assert(stored_as(after.kept(), text, rowid));
        }
    }
}

proof fn stored_paths_have_an_origin(
    root: Seq<Seq<u8>>,
    revision: bool,
    sources: Seq<SyncSource>,
    start: ProjectionTables,
    tables: ProjectionTables,
    path: Seq<char>,
)
    requires
        only_indexable_added(root, revision, sources, start, tables),
        is_stored(tables, path),
    ensures
        is_stored(start, path) || is_source_text(sources, path),
{
    let rowid = choose|rowid: i64| stored_as(tables, path, rowid);
    if row_was_there(start, tables, rowid) {
        assert(stored_as(start, path, rowid));
    } else {
        let (j, document, at) = choose|j: int, document: IndexableDocument, at: i64|
            0 <= j < sources.len() && #[trigger] row_shows(
                root,
                revision,
                sources[j],
                tables,
                rowid,
                document,
                at,
            );
        assert(sources[j].reading.snapshot is Some);
    }
}

proof fn earlier_rows_were_there(
    root: Seq<Seq<u8>>,
    revision: bool,
    sources: Seq<SyncSource>,
    start: ProjectionTables,
    base: ProjectionTables,
    after: ProjectionTables,
)
    requires
        only_fewer(start, base),
        only_indexable_added(root, revision, sources, base, after),
    ensures
        only_indexable_added(root, revision, sources, start, after),
{
    assert forall|rowid: i64| #[trigger] after.meetings.contains_key(rowid) implies row_was_there(
        start,
        after,
        rowid,
    ) || row_has_source(root, revision, sources, after, rowid) by {
        if row_was_there(base, after, rowid) {
            assert(row_was_there(start, base, rowid));
        }
    }
}

/// A meeting that is stored as it is now is not written again, and counts for nothing.
pub proof fn unchanged_meetings_are_not_written_again(
    before: SyncState,
    source: SyncSource,
    canonical: Seq<(Seq<Seq<u8>>, Seq<Seq<u8>>)>,
    after: SyncState,
    document: IndexableDocument,
)
    requires
        source_step(before, source, canonical, after),
        wanted_shows(before.index.root(), source, document),
        tables_agree(before.index.shown()),
        is_current(before.index.shown(), document),
    ensures
        after.index == before.index,
        after.pass.stats == before.pass.stats,
{
    let (admitted, found) = choose|admitted: SyncState, found: Option<IndexableDocument>| #[trigger]
        source_admitted(before, source, canonical, admitted, found) && match found {
            None => after == admitted,
            Some(found) => document_written(admitted, found, source, after),
        };
    if let Some(other) = found {
        let tables = before.index.shown();
        let rowid = choose|rowid: i64| #[trigger]
            stored_as(tables, stored_text(document.path@), rowid) && is_current_at(
                tables,
                document,
                rowid,
            );
        assert(stored_as(tables, stored_text(other.path@), rowid));
        assert(is_current_at(tables, other, rowid));
    }
}

/// Each stored path without a source is counted once, as removed or as an error.
pub proof fn removals_are_counted(
    before: SyncState,
    paths: Seq<Seq<char>>,
    canonical: Seq<(Seq<Seq<u8>>, Seq<Seq<u8>>)>,
    after: SyncState,
)
    requires
        removals(before, paths, canonical, after),
        before.pass.stats.removed + before.pass.stats.errored + paths.len() <= usize::MAX,
    ensures
        after.pass.stats.removed + after.pass.stats.errored == before.pass.stats.removed
            + before.pass.stats.errored + paths.len(),
        after.pass.stats.indexed == before.pass.stats.indexed,
        after.pass.stats.updated == before.pass.stats.updated,
    decreases paths.len(),
{
    if paths.len() > 0 {
        let mid = choose|mid: SyncState|
            removals(before, paths.drop_last(), canonical, mid) && #[trigger] removal(
                mid,
                paths.last(),
                canonical,
                after,
            );
        removals_are_counted(before, paths.drop_last(), canonical, mid);
    }
}

/// A row that a sync added is that of an entry whose frontmatter parses and does not restrict it:
/// restricted and malformed meetings never reach the index.
pub proof fn added_rows_are_of_unrestricted_meetings(
    root: Seq<Seq<u8>>,
    revision: bool,
    sources: Seq<SyncSource>,
    before: ProjectionTables,
    after: ProjectionTables,
    rowid: i64,
)
    requires
        only_indexable_added(root, revision, sources, before, after),
        after.meetings.contains_key(rowid),
        !row_was_there(before, after, rowid),
    ensures
        exists|j: int|
            0 <= j < sources.len() && is_judged((#[trigger] sources[j]).reading)
                && !shows_restricted(sources[j].reading) && after.meetings[rowid].path
                == stored_text(sources[j].reading.snapshot->0.path@),
{
    let (j, document, at) = choose|j: int, document: IndexableDocument, at: i64|
        0 <= j < sources.len() && #[trigger] row_shows(
            root,
            revision,
            sources[j],
            after,
            rowid,
            document,
            at,
        );
    assert(is_judged(sources[j].reading));
}

} // verus!
