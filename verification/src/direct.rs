//! Indexing one file by its path.

use vstd::prelude::*;
use crate::corpus::{has_markdown_name, is_excluded_path, CanonicalPaths};
use crate::errors::SearchIndexError;
use crate::meeting::{indexable_document_from_snapshot, rejection_of, IndexableDocument};
use crate::paths::{absolute_bytes, path_error, path_message, FilePath};
use crate::projection::is_stored;
use crate::search_index::{
    bound_to, forgets, shows_normal_policy, stored_text, stores, unbound_message, upsert_refusal,
    PolicyReading, SearchIndex,
};
use crate::sync::{is_judged, is_wanted, shows_document, shows_restricted, SourceReading};

verus! {

/// Whether a caller's path binds to a meeting file whose reading can be judged.
pub open spec fn is_readable(
    root: Seq<Seq<u8>>,
    path: Seq<u8>,
    canonical: Seq<(Seq<Seq<u8>>, Seq<Seq<u8>>)>,
    reading: SourceReading,
) -> bool {
    &&& bound_to(root, path, canonical) matches Some(bound) && is_wanted(root, bound, false)
    &&& is_judged(reading)
}

/// Why a file cannot be indexed: its path is outside the corpus, it is no meeting file, it cannot
/// be read, or what it holds is malformed.
pub open spec fn reading_refusal(
    root: Seq<Seq<u8>>,
    path: Seq<u8>,
    canonical: Seq<(Seq<Seq<u8>>, Seq<Seq<u8>>)>,
    reading: SourceReading,
    error: SearchIndexError,
) -> bool {
    match bound_to(root, path, canonical) {
        None => error matches SearchIndexError::Io(message) && message@ == unbound_message(
            root,
            path,
        ),
        Some(bound) => if !is_wanted(root, bound, false) {
            error matches SearchIndexError::Io(message) && message@ == path_message(
                "path is not an indexable meeting file: "@,
                absolute_bytes(bound),
            )
        } else {
            match reading.snapshot {
                None => error matches SearchIndexError::Io(message) && message@
                    == "meeting could not be read as a stable policy snapshot"@,
                Some(snapshot) => rejection_of(snapshot, reading.facts, reading.parsed, error),
            }
        },
    }
}

impl SearchIndex {
    /// What the index would keep of the file at a caller's path; nothing of a restricted one.
    pub fn read_indexable_file(
        &self,
        path: &FilePath,
        canonical: &CanonicalPaths,
        reading: SourceReading,
    ) -> (result: Result<Option<IndexableDocument>, SearchIndexError>)
        ensures
            match result {
                Ok(Some(document)) => is_readable(self.root(), path@, canonical@, reading)
                    && shows_document(reading, document),
                Ok(None) => is_readable(self.root(), path@, canonical@, reading)
                    && shows_restricted(reading),
                Err(error) => !is_readable(self.root(), path@, canonical@, reading)
                    && reading_refusal(self.root(), path@, canonical@, reading, error),
            },
    {
        let bound = match self.bound_path(path, canonical) {
            Ok(bound) => bound,
            Err(error) => {
                return Err(error);
            },
        };
        if !has_markdown_name(&bound) || is_excluded_path(&bound, self.bound_root()) {
            return Err(path_error("path is not an indexable meeting file: ", &bound.file_path()));
        }
        let SourceReading { snapshot, facts, parsed } = reading;
        match snapshot {
            Some(snapshot) => indexable_document_from_snapshot(snapshot, facts, parsed),
            None => Err(
                SearchIndexError::Io(
                    "meeting could not be read as a stable policy snapshot".to_owned(),
                ),
            ),
        }
    }

    /// Indexes one file. A restricted one is removed instead; of one that cannot be judged the
    /// removal is tried, and the reason is reported. `false` says that there was a row already, or
    /// that the file was removed; `true` that no row was found before, as
    /// [`SearchIndex::upsert_document`] says it. `reading` is what was read of the file first;
    /// `before` and `after` are as that function takes them.
    pub fn upsert_file(
        &mut self,
        path: &FilePath,
        canonical: &CanonicalPaths,
        reading: SourceReading,
        before: &PolicyReading,
        after: &PolicyReading,
    ) -> (result: Result<bool, SearchIndexError>)
        requires
            old(self).wf(),
        ensures
            final(self).wf(),
            final(self).root() == old(self).root(),
            ({
                let bound = bound_to(old(self).root(), path@, canonical@);
                let gone = bound is Some && forgets(
                    old(self).kept(),
                    stored_text(bound->0),
                    final(self).kept(),
                );
                if !is_readable(old(self).root(), path@, canonical@, reading) {
                    &&& result matches Err(error) && reading_refusal(
                        old(self).root(),
                        path@,
                        canonical@,
                        reading,
                        error,
                    )
                    &&& final(self).kept() == old(self).kept() || gone
                } else if shows_restricted(reading) {
                    match result {
                        Ok(inserted) => !inserted && gone,
                        Err(error) => error is Sqlite && (final(self).kept() == old(self).kept()
                            || gone),
                    }
                } else {
                    exists|document: IndexableDocument| #[trigger]
                        shows_document(reading, document) && match result {
                            Ok(inserted) => {
                                &&& stores(old(self).kept(), document, final(self).kept())
                                &&& !inserted ==> is_stored(
                                    old(self).kept(),
                                    stored_text(document.path@),
                                )
                            },
                            Err(error) => {
                                &&& final(self).kept() == old(self).kept()
                                &&& (error is Sqlite && shows_normal_policy(
                                    *before,
                                    Some(document.source_sha256),
                                )) || upsert_refusal(document, *before, *after, error)
                            },
                        }
                }
            }),
    {
        let read = self.read_indexable_file(path, canonical, reading);
        match read {
            Ok(Some(document)) => {
                assert(shows_document(reading, document));
                self.upsert_document(&document, before, after)
            },
            Ok(None) => match self.delete_file(path, canonical) {
                Ok(_) => Ok(false),
                Err(error) => Err(error),
            },
            Err(error) => {
                let removed = self.delete_file(path, canonical);
                Err(error)
            },
        }
    }
}

} // verus!
