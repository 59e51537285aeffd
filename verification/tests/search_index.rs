use minutes_core::corpus::CanonicalPaths;
use minutes_core::errors::SearchIndexError;
use minutes_core::meeting::{
    ContentType, FileFacts, Frontmatter, IndexableDocument, MeetingDate, Sensitivity,
    StableMarkdownSnapshot,
};
use minutes_core::paths::{normalize_absolute_path, AbsolutePath, FilePath};
use minutes_core::queries::{SearchFilters, SearchResult};
use minutes_core::restricted::{RestrictedEntry, RevisionReading};
use minutes_core::search_index::{
    has_tries_left, hex_sha256, live_fts_match_snippet, open_private_memory_connection, rechecked,
    settings_are_bounded, PolicyReading, SearchIndex, BUSY_TRIES,
};
use minutes_core::projection::SourceFingerprint;
use minutes_core::sync::{needed_after, SourceReading, SyncMode, SyncSource, SyncStats};
use minutes_core::timing::{time_is_left, time_is_left_at};
use std::time::{Duration, Instant};

const ROOT: &str = "/corpus/meetings";

fn file_path(text: &str) -> FilePath {
    FilePath { bytes: text.as_bytes().to_vec() }
}

fn absolute(text: &str) -> AbsolutePath {
    normalize_absolute_path(&file_path(text)).unwrap()
}

fn canonical() -> CanonicalPaths {
    CanonicalPaths { entries: vec![(absolute(ROOT), absolute(ROOT))] }
}

fn make_index() -> SearchIndex {
    SearchIndex::open(absolute(ROOT)).unwrap()
}

fn digest(content: &str) -> [u8; 32] {
    let mut sum = [0u8; 32];
    for (i, byte) in content.bytes().enumerate() {
        sum[i % 32] = sum[i % 32].wrapping_mul(31).wrapping_add(byte);
    }
    sum
}

struct Meeting {
    path: String,
    title: String,
    date: String,
    body: String,
    kind: ContentType,
    attendees: Vec<String>,
    recorded_by: Option<String>,
    restricted: bool,
    parses: bool,
}

fn meeting(name: &str, title: &str, body: &str) -> Meeting {
    Meeting {
        path: format!("{ROOT}/{name}.md"),
        title: title.to_string(),
        date: "2026-04-29".to_string(),
        body: body.to_string(),
        kind: ContentType::Meeting,
        attendees: Vec::new(),
        recorded_by: None,
        restricted: false,
        parses: true,
    }
}

impl Meeting {
    fn content(&self) -> String {
        let sensitivity = if self.restricted { "sensitivity: restricted\n" } else { "" };
        format!(
            "---\ntitle: {}\ndate: {}\ntype: {}\n{}---\n\n{}",
            self.title,
            self.date,
            self.kind.word(),
            sensitivity,
            self.body
        )
    }

    fn snapshot(&self) -> StableMarkdownSnapshot {
        let content = self.content();
        StableMarkdownSnapshot {
            path: absolute(&self.path),
            content_sha256: digest(&content),
            content,
        }
    }

    fn parsed(&self) -> Result<Frontmatter, String> {
        if !self.parses {
            return Err("frontmatter does not parse".to_string());
        }
        Ok(Frontmatter {
            title: self.title.clone(),
            content_type: self.kind,
            date: MeetingDate::at(1_777_420_800, 0, 0).unwrap(),
            attendees: self.attendees.clone(),
            recorded_by: self.recorded_by.clone(),
            sensitivity: if self.restricted { Some(Sensitivity::Restricted) } else { None },
        })
    }

    fn reading(&self) -> SourceReading {
        SourceReading {
            snapshot: Some(self.snapshot()),
            facts: Ok(FileFacts {
                is_file: true,
                modified_ns: Some(1_000),
                length: self.content().len() as u64,
            }),
            parsed: self.parsed(),
        }
    }

    fn policy(&self) -> PolicyReading {
        PolicyReading {
            snapshot: Some(self.snapshot()),
            within_budget: true,
            parsed: self.parsed(),
        }
    }

    fn source(&self) -> SyncSource {
        SyncSource {
            path: Some(absolute(&self.path)),
            is_directory: false,
            reading: self.reading(),
            before: self.policy(),
            after: self.policy(),
        }
    }

    fn document(&self, index: &SearchIndex) -> IndexableDocument {
        index
            .read_indexable_file(&file_path(&self.path), &canonical(), self.reading())
            .unwrap()
            .unwrap()
    }

    fn entry(&self) -> RestrictedEntry {
        RestrictedEntry {
            in_time: true,
            path: Some(absolute(&self.path)),
            path_in_budget: true,
            is_directory: false,
            directory_in_budget: true,
            is_file: true,
            file_in_budget: true,
            snapshot: Some(self.snapshot()),
            content_in_budget: true,
            parsed: self.parsed(),
        }
    }
}

fn sync_mode(index: &mut SearchIndex, mode: SyncMode, meetings: &[&Meeting]) -> SyncStats {
    let sources = meetings.iter().map(|meeting| meeting.source()).collect();
    index
        .sync(mode, Ok(absolute(ROOT)), &file_path(ROOT), sources, &canonical(), 7)
        .unwrap()
}

fn sync(index: &mut SearchIndex, meetings: &[&Meeting]) -> SyncStats {
    sync_mode(index, SyncMode::Auto, meetings)
}

fn search(index: &SearchIndex, query: &str) -> Vec<SearchResult> {
    index.search(query, &SearchFilters::default(), None).unwrap()
}

fn raw_counts(index: &SearchIndex, canary: &str) -> (usize, usize) {
    (search(index, "").len(), search(index, canary).len())
}

fn io_message(error: SearchIndexError) -> String {
    match error {
        SearchIndexError::Io(message) => message,
        other => panic!("unexpected error {}", other.message()),
    }
}

fn with_restricted() -> SearchFilters {
    SearchFilters { include_restricted: true, ..Default::default() }
}

#[test]
fn private_search_connections_force_memory_only_temporary_storage() {
    let conn = open_private_memory_connection().unwrap();
    let mode: i64 = conn.query_row("PRAGMA temp_store", [], |row| row.get(0)).unwrap();
    assert_eq!(mode, 2);
    let page_size: i64 = conn.query_row("PRAGMA page_size", [], |row| row.get(0)).unwrap();
    let max_pages: i64 = conn.query_row("PRAGMA max_page_count", [], |row| row.get(0)).unwrap();
    let temp_max_pages: i64 =
        conn.query_row("PRAGMA temp.max_page_count", [], |row| row.get(0)).unwrap();
    assert_eq!(page_size, 4096);
    assert!(max_pages <= 32768);
    assert!(temp_max_pages <= 16384);
}

#[test]
fn live_fts_recheck_matches_private_query_semantics() {
    for (query, body) in [
        (
            "pricing roadmap",
            "The roadmap comes first. Much later we revisited prices.",
        ),
        (
            "pricing/roadm",
            "Roadmap notes and a separate pricing section.",
        ),
        (
            "café résu",
            "The cafe discussion included detailed resumes.",
        ),
        ("running", "The team runs the migration every morning."),
    ] {
        assert!(
            live_fts_match_snippet("Quarterly plan", body, query).is_some(),
            "live FTS semantics rejected {query:?}"
        );
        let mut index = make_index();
        sync(&mut index, &[&meeting("a", "Quarterly plan", body)]);
        let found = search(&index, query);
        assert_eq!(found.len(), 1);
        // The body that is indexed starts with the blank line after the frontmatter.
        assert_eq!(
            Some(found[0].snippet.clone()),
            live_fts_match_snippet("Quarterly plan", &format!("\n{body}"), query)
        );
    }

    assert!(live_fts_match_snippet("Plan", "pricing only", "pricing roadmap").is_none());
    assert!(live_fts_match_snippet("Plan", "anything", "---").is_none());
}

#[test]
fn recheck_strips_marks_and_takes_no_row_for_no_match() {
    assert_eq!(
        rechecked(Ok(Some("a \u{2}b\u{3} c".to_string()))),
        Some("a b c".to_string())
    );
    assert_eq!(rechecked(Ok(None)), None);
    assert_eq!(rechecked(Err(rusqlite::Error::InvalidQuery)), None);
}

#[test]
fn production_search_accepts_an_ordinary_state_root_without_private_stores() {
    let mut index = make_index();
    sync(&mut index, &[&meeting("fresh", "Fresh installation", "searchcanary")]);
    let matches = search(&index, "searchcanary");
    assert_eq!(matches.len(), 1);
    assert_eq!(matches[0].title, "Fresh installation");
    assert_eq!(matches[0].path.bytes, format!("{ROOT}/fresh.md").into_bytes());
    assert_eq!(matches[0].content_type, "meeting");
    assert!(matches[0].matched_via_alias.is_none());
}

#[test]
fn read_to_upsert_reclassification_is_rejected_without_retained_bytes() {
    let mut index = make_index();
    let normal = meeting("reclassification", "Normal title", "NORMAL-ONLY-CANARY");
    let document = normal.document(&index);
    let mut restricted = meeting("reclassification", "Now restricted", "RESTRICTED-RETENTION-CANARY");
    restricted.restricted = true;

    let error = index
        .upsert_document(&document, &restricted.policy(), &normal.policy())
        .unwrap_err();
    assert_eq!(io_message(error), "meeting changed before search projection update");
    assert_eq!(raw_counts(&index, "NORMAL"), (0, 0));
    assert_eq!(raw_counts(&index, "RESTRICTED"), (0, 0));
}

#[test]
fn reclassification_after_sql_write_rolls_back_private_projection() {
    let mut index = make_index();
    let normal = meeting("transaction-race", "Normal title", "PRETRANSACTION-CANARY");
    let document = normal.document(&index);
    let mut restricted = meeting("transaction-race", "Now restricted", "POSTWRITE-RESTRICTED-CANARY");
    restricted.restricted = true;

    assert!(index.begin_upsert(&document, &normal.policy()).unwrap());
    let error = index
        .finish_upsert(&document.source_sha256, &restricted.policy())
        .unwrap_err();
    assert_eq!(io_message(error), "meeting changed during search projection update");
    assert_eq!(raw_counts(&index, "PRETRANSACTION"), (0, 0));
    assert_eq!(raw_counts(&index, "POSTWRITE"), (0, 0));
}

#[test]
fn reauthorization_reads_share_the_sync_resource_budget() {
    let mut index = make_index();
    let normal = meeting(
        "bounded-reauthorization",
        "Normal title",
        "BOUNDED-REAUTHORIZATION-CANARY",
    );
    let document = normal.document(&index);
    let mut spent = normal.policy();
    spent.within_budget = false;

    assert!(index.upsert_document(&document, &normal.policy(), &spent).is_err());
    assert_eq!(raw_counts(&index, "BOUNDED"), (0, 0));
}

#[test]
fn sync_indexes_existing_meetings() {
    let mut index = make_index();
    let alpha = meeting("2026-04-01-alpha", "Alpha", "talked about pricing tiers");
    let beta = meeting("2026-04-02-beta", "Beta", "weekly review of metrics");
    let stats = sync(&mut index, &[&alpha, &beta]);
    assert_eq!(stats.indexed, 2);
    assert_eq!(stats.errored, 0);
    assert_eq!(stats.duration_ms, 7);
}

#[test]
fn sync_skips_already_indexed_via_mtime() {
    let mut index = make_index();
    let alpha = meeting("a", "Alpha", "body");
    let s1 = sync(&mut index, &[&alpha]);
    assert_eq!(s1.indexed, 1);
    let s2 = sync(&mut index, &[&alpha]);
    assert_eq!(s2.indexed, 0);
    assert_eq!(s2.updated, 0);
    let edited = meeting("a", "Alpha", "another body");
    let s3 = sync(&mut index, &[&edited]);
    assert_eq!((s3.indexed, s3.updated), (0, 1));
}

#[test]
fn forced_sync_indexes_everything_anew() {
    let mut index = make_index();
    let alpha = meeting("a", "Alpha", "body");
    sync(&mut index, &[&alpha]);
    let forced = sync_mode(&mut index, SyncMode::Force, &[&alpha]);
    assert_eq!((forced.indexed, forced.updated, forced.removed), (1, 0, 0));
    let skipped = sync_mode(&mut index, SyncMode::Skip, &[&alpha]);
    assert_eq!((skipped.indexed, skipped.updated, skipped.removed), (0, 0, 0));
    assert_eq!(SyncMode::default(), SyncMode::Auto);
}

#[test]
fn sync_removes_deleted_files() {
    let mut index = make_index();
    sync(&mut index, &[&meeting("a", "Alpha", "body")]);
    let stats = sync(&mut index, &[]);
    assert_eq!(stats.removed, 1);
    assert!(search(&index, "").is_empty());
}

#[test]
fn sync_excludes_archive_dir() {
    let mut index = make_index();
    let old = meeting("archive/old", "Old", "should not appear");
    let new = meeting("new", "New", "active");
    let mut text = meeting("notes", "Notes", "no meeting file");
    text.path = format!("{ROOT}/notes.txt");
    sync(&mut index, &[&old, &new, &text]);
    let results = search(&index, "");
    assert_eq!(results.len(), 1);
    assert_eq!(results[0].title, "New");
}

#[test]
fn restricted_meeting_is_never_persisted_in_btree_or_fts() {
    let mut index = make_index();
    let mut restricted = meeting("restricted", "Restricted", "RESTRICTEDINGESTCANARY");
    restricted.restricted = true;

    let stats = sync(&mut index, &[&restricted]);

    assert_eq!(stats.indexed, 0);
    let authorized = index.search_restricted_live(
        "RESTRICTEDINGESTCANARY",
        &with_restricted(),
        vec![restricted.entry()],
    );
    assert_eq!(authorized.len(), 1);
    assert_eq!(authorized[0].title, "Restricted");
    assert_eq!(authorized[0].snippet, "");
    assert_eq!(raw_counts(&index, "RESTRICTEDINGESTCANARY"), (0, 0));
    assert!(index
        .search_restricted_live("", &SearchFilters::default(), vec![restricted.entry()])
        .is_empty());
}

#[test]
fn restricted_projection_iterates_only_the_prebound_revision() {
    let index = make_index();
    let mut bound = meeting("bound", "Bound Restricted", "BOUND");
    bound.restricted = true;
    let normal = meeting("normal", "Normal", "NORMAL");

    let results = index
        .search_restricted_live_for_active_corpus(
            "",
            &with_restricted(),
            vec![
                RevisionReading { snapshot: Some(bound.snapshot()), parsed: bound.parsed() },
                RevisionReading { snapshot: Some(normal.snapshot()), parsed: normal.parsed() },
            ],
        )
        .unwrap();

    assert_eq!(results.len(), 1);
    assert_eq!(results[0].title, "Bound Restricted");

    let error = index
        .search_restricted_live_for_active_corpus(
            "",
            &with_restricted(),
            vec![RevisionReading { snapshot: None, parsed: bound.parsed() }],
        )
        .err()
        .unwrap();
    assert_eq!(
        io_message(error),
        "meeting changed while building the authorized restricted projection"
    );
}

#[test]
fn malformed_and_policy_uncertain_frontmatter_never_reaches_raw_tables() {
    let mut index = make_index();
    let mut unparsed = meeting("unparsed", "Unparsed", "POLICYUNCERTAIN");
    unparsed.parses = false;
    let untitled = meeting("untitled", "  ", "POLICYUNCERTAIN");
    let mut bare = meeting("bare", "Bare", "POLICYUNCERTAIN").source();
    if let Some(snapshot) = &mut bare.reading.snapshot {
        snapshot.content = "POLICYUNCERTAIN without frontmatter".to_string();
    }
    let mut unread = meeting("unread", "Unread", "POLICYUNCERTAIN").source();
    unread.reading.snapshot = None;
    let stats = index
        .sync(
            SyncMode::Auto,
            Ok(absolute(ROOT)),
            &file_path(ROOT),
            vec![unparsed.source(), untitled.source(), bare, unread],
            &canonical(),
            0,
        )
        .unwrap();
    assert_eq!(stats.errored, 4);
    assert_eq!(raw_counts(&index, "POLICYUNCERTAIN"), (0, 0));
}

#[test]
fn normal_to_restricted_purges_raw_rows_before_mtime_fast_path() {
    let mut index = make_index();
    let normal = meeting("reclassified", "Initially normal", "RECLASSIFICATIONCANARY");
    sync(&mut index, &[&normal]);
    assert_eq!(raw_counts(&index, "RECLASSIFICATIONCANARY"), (1, 1));

    let mut restricted = meeting("reclassified", "Now restricted", "RECLASSIFICATIONCANARY");
    restricted.date = "2026-07-15".to_string();
    restricted.restricted = true;
    // The time of change and the length are those that the index has already.
    let mut source = restricted.source();
    source.reading.facts = normal.reading().facts;
    let stored = index.fingerprint(&normal.path).unwrap().unwrap();
    let facts = source.reading.facts.as_ref().unwrap();
    assert_eq!(Some(stored.mtime_ns as u128), facts.modified_ns);
    assert_eq!(stored.size_bytes as u64, facts.length);
    let stats = index
        .sync(
            SyncMode::Auto,
            Ok(absolute(ROOT)),
            &file_path(ROOT),
            vec![source],
            &canonical(),
            0,
        )
        .unwrap();

    assert_eq!(stats.removed, 1);
    assert_eq!(raw_counts(&index, "RECLASSIFICATIONCANARY"), (0, 0));
}

#[test]
fn symlink_escape_is_not_followed_by_sync_or_direct_upsert() {
    let mut index = make_index();
    let escape = meeting("escape", "Outside", "SYMLINKESCAPECANARY");
    let mut source = escape.source();
    source.reading.snapshot = None;
    index
        .sync(
            SyncMode::Auto,
            Ok(absolute(ROOT)),
            &file_path(ROOT),
            vec![source],
            &canonical(),
            0,
        )
        .unwrap();
    let mut reading = escape.reading();
    reading.snapshot = None;
    let error = index
        .upsert_file(
            &file_path(&escape.path),
            &canonical(),
            reading,
            &escape.policy(),
            &escape.policy(),
        )
        .unwrap_err();
    assert_eq!(
        io_message(error),
        "meeting could not be read as a stable policy snapshot"
    );
    assert_eq!(raw_counts(&index, "SYMLINKESCAPECANARY"), (0, 0));
}

#[test]
fn direct_upsert_outside_bound_corpus_is_rejected() {
    let mut index = make_index();
    let mut outside = meeting("outside", "Outside", "OUTSIDECORPUSCANARY");
    outside.path = "/corpus/outside.md".to_string();
    let error = index
        .upsert_file(
            &file_path(&outside.path),
            &canonical(),
            outside.reading(),
            &outside.policy(),
            &outside.policy(),
        )
        .unwrap_err();
    assert_eq!(
        io_message(error),
        "meeting path is outside the configured corpus: /corpus/outside.md"
    );
    assert_eq!(raw_counts(&index, "OUTSIDECORPUSCANARY"), (0, 0));
}

#[test]
fn configured_corpus_symlink_retarget_cannot_change_bound_root() {
    let mut index = make_index();
    let retargeted = meeting("outside-binding", "Retargeted", "RETARGETEDCORPUSCANARY");
    let error = index
        .sync(
            SyncMode::Auto,
            Ok(absolute("/corpus/other")),
            &file_path("/configured-meetings"),
            vec![retargeted.source()],
            &canonical(),
            0,
        )
        .unwrap_err();
    assert_eq!(
        io_message(error),
        "configured meeting corpus no longer matches the index binding: /configured-meetings"
    );
    assert_eq!(raw_counts(&index, "RETARGETEDCORPUSCANARY"), (0, 0));
}

#[test]
fn empty_query_returns_all_ordered_by_date() {
    let mut index = make_index();
    let mut old = meeting("a", "Old", "x");
    old.date = "2026-01-01".to_string();
    let mut mid = meeting("b", "Mid", "x");
    mid.date = "2026-02-01".to_string();
    let mut new = meeting("c", "New", "x");
    new.date = "2026-03-01".to_string();
    sync(&mut index, &[&old, &mid, &new]);
    let results = search(&index, "");
    assert_eq!(results.len(), 3);
    assert_eq!(results[0].title, "New");
    assert_eq!(results[2].title, "Old");
    let limited = index.search("  ", &SearchFilters::default(), Some(2)).unwrap();
    assert_eq!(limited.len(), 2);
    assert_eq!(limited[1].title, "Mid");
    let since = SearchFilters { since: Some("2026-02-01".to_string()), ..Default::default() };
    assert_eq!(index.search("", &since, None).unwrap().len(), 2);
}

#[test]
fn match_query_finds_body() {
    let mut index = make_index();
    let alpha = meeting("a", "Alpha", "we talked about pricing");
    let beta = meeting("b", "Beta", "weekly review of metrics");
    sync(&mut index, &[&alpha, &beta]);
    let results = search(&index, "pricing");
    assert_eq!(results.len(), 1);
    assert_eq!(results[0].title, "Alpha");
}

#[test]
fn punctuation_query_does_not_error() {
    let mut index = make_index();
    sync(&mut index, &[&meeting("a", "X1: Wealth", "body")]);
    let results = search(&index, "x1: wealth");
    assert_eq!(results.len(), 1);
}

#[test]
fn all_punctuation_query_returns_empty_not_error() {
    let mut index = make_index();
    sync(&mut index, &[&meeting("a", "Test", "body")]);
    assert!(search(&index, "()").is_empty());
}

#[test]
fn filter_by_content_type() {
    let mut index = make_index();
    let meet = meeting("m", "Meet", "body");
    let mut memo = meeting("memo", "Memo", "body");
    memo.kind = ContentType::Memo;
    memo.date = "2026-04-02".to_string();
    sync(&mut index, &[&meet, &memo]);
    let filters = SearchFilters { content_type: Some("memo".into()), ..Default::default() };
    let results = index.search("", &filters, None).unwrap();
    assert_eq!(results.len(), 1);
    assert_eq!(results[0].title, "Memo");
}

#[test]
fn filter_by_attendee() {
    let mut index = make_index();
    let mut mat = meeting("a", "With Mat", "body");
    mat.date = "2026-04-01".to_string();
    mat.attendees = vec!["Mat".to_string(), "Cathryn".to_string()];
    let mut alex = meeting("b", "With Alex", "body");
    alex.date = "2026-04-02".to_string();
    alex.attendees = vec!["Alex".to_string()];
    alex.recorded_by = Some("Alexandra".to_string());
    sync(&mut index, &[&mat, &alex]);
    let filters = SearchFilters {
        attendee: Some("mat".into()), // case-insensitive substring
        ..Default::default()
    };
    let results = index.search("", &filters, None).unwrap();
    assert_eq!(results.len(), 1);
    assert_eq!(results[0].title, "With Mat");
    let recorded = SearchFilters { recorded_by: Some("XANDR".into()), ..Default::default() };
    let results = index.search("body", &recorded, None).unwrap();
    assert_eq!(results.len(), 1);
    assert_eq!(results[0].title, "With Alex");
}

#[test]
fn upsert_replaces_existing_row() {
    let mut index = make_index();
    let old = meeting("a", "Alpha", "old body");
    let new = meeting("a", "Alpha", "brand new body");
    for (version, is_new) in [(&old, true), (&new, false)] {
        let inserted = index
            .upsert_file(
                &file_path(&version.path),
                &canonical(),
                version.reading(),
                &version.policy(),
                &version.policy(),
            )
            .unwrap();
        assert_eq!(inserted, is_new);
    }

    // Old body no longer searchable
    assert!(search(&index, "old").is_empty());
    // New body searchable
    assert_eq!(search(&index, "brand").len(), 1);
}

#[test]
fn delete_removes_from_search() {
    let mut index = make_index();
    let alpha = meeting("a", "Alpha", "find me");
    index
        .upsert_file(
            &file_path(&alpha.path),
            &canonical(),
            alpha.reading(),
            &alpha.policy(),
            &alpha.policy(),
        )
        .unwrap();
    assert_eq!(search(&index, "find").len(), 1);
    index.delete_file(&file_path(&alpha.path), &canonical()).unwrap();
    assert!(search(&index, "find").is_empty());
    // A second removal finds nothing to remove.
    assert!(!index.delete_file_inner(&file_path("a.md"), &canonical()).unwrap());
}

#[test]
fn snippet_strips_control_char_sentinels() {
    let mut index = make_index();
    let alpha = meeting("a", "Alpha", "the user mentioned pricing in the third paragraph");
    sync(&mut index, &[&alpha]);
    let results = search(&index, "pricing");
    assert_eq!(results.len(), 1);
    let snip = &results[0].snippet;
    assert!(!snip.contains('\u{2}'));
    assert!(!snip.contains('\u{3}'));
    assert!(snip.contains("pricing"));
}

#[test]
fn digests_are_written_in_small_hexadecimal() {
    let mut digest = [0u8; 32];
    digest[0] = 0xab;
    digest[1] = 0x09;
    digest[31] = 0xf0;
    let text = hex_sha256(&digest);
    assert_eq!(text.len(), 64);
    assert!(text.starts_with("ab0900"));
    assert!(text.ends_with("00f0"));
}

#[test]
fn relative_paths_are_bound_to_the_corpus() {
    let index = make_index();
    let bound = index.bound_path(&file_path("sub/../b.md"), &canonical()).unwrap();
    assert_eq!(bound.bytes(), format!("{ROOT}/b.md").into_bytes());
    let error = index.bound_path(&file_path("../../../../x.md"), &canonical()).err().unwrap();
    assert_eq!(
        io_message(error),
        format!("meeting path escapes filesystem root: {ROOT}/../../../../x.md")
    );
    let error = index.bound_path(&file_path(ROOT), &canonical()).err().unwrap();
    assert_eq!(
        io_message(error),
        format!("meeting path is outside the configured corpus: {ROOT}")
    );
}

#[test]
fn aliases_of_the_corpus_bind_to_it() {
    let index = make_index();
    let alias = CanonicalPaths {
        entries: vec![
            (absolute("/alias"), absolute(ROOT)),
            (absolute(ROOT), absolute(ROOT)),
        ],
    };
    let bound = index.bound_path(&file_path("/alias/x/y.md"), &alias).unwrap();
    assert_eq!(bound.bytes(), format!("{ROOT}/x/y.md").into_bytes());
}

#[test]
fn a_failed_walk_ends_the_sync() {
    let mut index = make_index();
    let mut lost = meeting("a", "Alpha", "body").source();
    lost.path = None;
    let error = index
        .sync(
            SyncMode::Auto,
            Ok(absolute(ROOT)),
            &file_path(ROOT),
            vec![lost],
            &canonical(),
            0,
        )
        .unwrap_err();
    assert_eq!(io_message(error), "meeting corpus traversal could not be verified");
}

#[test]
fn a_bound_revision_must_stay_readable() {
    let mut index = make_index();
    let late = index.begin_sync(
        SyncMode::Auto,
        false,
        Ok(absolute(ROOT)),
        &file_path(ROOT),
        true,
    );
    assert_eq!(
        io_message(late.err().unwrap()),
        "meeting corpus authorization deadline elapsed"
    );
    let mut pass = index
        .begin_sync(SyncMode::Auto, true, Ok(absolute(ROOT)), &file_path(ROOT), true)
        .unwrap();
    let alpha = meeting("a", "Alpha", "body");
    let document = index
        .admit_source(&mut pass, &absolute(&alpha.path), &canonical(), alpha.reading())
        .unwrap()
        .unwrap();
    let written = index.upsert_pre_attested_document(&document);
    pass.note_upsert(&written);
    let mut gone = alpha.reading();
    gone.snapshot = None;
    let error = index
        .admit_source(&mut pass, &absolute(&alpha.path), &canonical(), gone)
        .err()
        .unwrap();
    assert_eq!(
        io_message(error),
        "meeting changed while building the authorized search projection"
    );
    assert_eq!(pass.stats.indexed, 1);
    assert_eq!(search(&index, "").len(), 1);
}

#[test]
fn a_revision_is_synced_without_reading_again_until_its_deadline() {
    let mut index = make_index();
    let alpha = meeting("a", "Alpha", "body");
    let mut hidden = meeting("b", "Beta", "body");
    hidden.restricted = true;
    let unread = || PolicyReading {
        snapshot: None,
        within_budget: true,
        parsed: Err("not read".to_string()),
    };
    let source = |meeting: &Meeting| SyncSource {
        before: unread(),
        after: unread(),
        ..meeting.source()
    };
    let run = |index: &mut SearchIndex, sources: Vec<SyncSource>, deadline: Option<Instant>| {
        index.sync_for_active_corpus(
            SyncMode::Auto,
            Ok(absolute(ROOT)),
            &file_path(ROOT),
            sources,
            &canonical(),
            deadline,
            7,
        )
    };
    let later = Instant::now() + Duration::from_secs(3_600);
    let stats = run(&mut index, vec![source(&alpha), source(&hidden)], Some(later)).unwrap();
    assert_eq!((stats.indexed, stats.updated, stats.removed, stats.errored), (1, 0, 0, 0));
    assert_eq!(search(&index, "").len(), 1);
    let again = run(&mut index, vec![source(&alpha)], None).unwrap();
    assert_eq!((again.indexed, again.updated, again.removed), (0, 0, 0));

    assert!(time_is_left(None) && time_is_left(Some(later)));
    let past = Instant::now();
    while time_is_left(Some(past)) {}
    assert_eq!(
        io_message(run(&mut index, vec![source(&alpha)], Some(past)).err().unwrap()),
        "meeting corpus authorization deadline elapsed"
    );
    let mut gone = source(&alpha);
    gone.reading.snapshot = None;
    assert_eq!(
        io_message(run(&mut index, vec![gone], None).err().unwrap()),
        "meeting changed while building the authorized search projection"
    );
    assert_eq!(search(&index, "").len(), 1);
    let mut reclassified = meeting("a", "Alpha", "body");
    reclassified.restricted = true;
    let purged = run(&mut index, vec![source(&reclassified)], None).unwrap();
    assert_eq!(purged.removed, 1);
    assert!(search(&index, "").is_empty());
}

#[test]
fn restricted_search_filters_sorts_and_keeps_to_its_budget() {
    let index = make_index();
    let dated = |name: &str, title: &str, seconds: i64| {
        let mut meeting = meeting(name, title, "body");
        meeting.restricted = true;
        meeting.attendees = vec!["Ana Ruiz".to_string()];
        meeting.recorded_by = Some("Mat".to_string());
        let mut entry = meeting.entry();
        if let Ok(frontmatter) = &mut entry.parsed {
            frontmatter.date = MeetingDate::at(seconds, 0, 0).unwrap();
        }
        entry
    };
    let entries = || {
        vec![
            dated("first", "First", 1_000_000),
            dated("latest", "Latest", 3_000_000),
            dated("second", "Second", 1_000_000),
        ]
    };
    let results = index.search_restricted_live("", &with_restricted(), entries());
    let titles: Vec<&str> = results.iter().map(|result| result.title.as_str()).collect();
    assert_eq!(titles, vec!["Latest", "First", "Second"]);
    assert_eq!(results[1].date, "1970-01-12T13:46:40+00:00");

    let mut filters = with_restricted();
    filters.attendee = Some("RUIZ".to_string());
    filters.recorded_by = Some("ma".to_string());
    filters.content_type = Some("meeting".to_string());
    assert_eq!(index.search_restricted_live("", &filters, entries()).len(), 3);
    filters.since = Some("1970-02-01".to_string());
    assert_eq!(index.search_restricted_live("", &filters, entries()).len(), 1);
    filters.attendee = Some("nobody".to_string());
    assert!(index.search_restricted_live("", &filters, entries()).is_empty());

    let refused = |change: fn(&mut RestrictedEntry), in_time: bool| {
        let mut changed = entries();
        change(&mut changed[1]);
        io_message(
            index
                .search_restricted_live_with_budget("", &with_restricted(), changed, in_time)
                .err()
                .unwrap(),
        )
    };
    assert_eq!(
        refused(|entry| entry.in_time = false, true),
        "meeting corpus authorization deadline elapsed"
    );
    assert_eq!(
        refused(|_| {}, false),
        "meeting corpus authorization deadline elapsed"
    );
    assert_eq!(
        refused(|entry| entry.path = None, true),
        "meeting corpus traversal could not be verified"
    );
    assert_eq!(
        refused(|entry| entry.path_in_budget = false, true),
        "meeting corpus retained-path budget exceeded"
    );
    assert_eq!(
        refused(|entry| entry.file_in_budget = false, true),
        "meeting corpus resource budget exceeded"
    );
    assert_eq!(
        refused(|entry| entry.content_in_budget = false, true),
        "meeting corpus resource budget exceeded"
    );
}

#[test]
fn errors_are_worded_by_their_kind() {
    assert_eq!(SearchIndexError::Io("gone".to_string()).message(), "I/O error: gone");
    assert_eq!(
        SearchIndexError::Frontmatter { path: "/a.md".to_string(), message: "bad".to_string() }
            .message(),
        "frontmatter parse error in /a.md: bad"
    );
    let sqlite = SearchIndexError::from(rusqlite::Error::InvalidQuery);
    assert!(sqlite.message().starts_with("sqlite error: "));
}

#[test]
fn a_document_is_written_where_its_fingerprint_differs() {
    let mut index = make_index();
    let alpha = meeting("a", "Alpha", "body");
    let document = alpha.document(&index);
    let print = || SourceFingerprint {
        mtime_ns: document.mtime_ns,
        size_bytes: document.size_bytes,
        body_hash: hex_sha256(&document.source_sha256),
    };
    assert!(!needed_after(Ok(Some(print())), &document).unwrap());
    assert!(needed_after(Ok(None), &document).unwrap());
    let changed = [
        SourceFingerprint { mtime_ns: document.mtime_ns + 1, ..print() },
        SourceFingerprint { size_bytes: document.size_bytes + 1, ..print() },
        SourceFingerprint { body_hash: "00".repeat(32), ..print() },
    ];
    for other in changed {
        assert!(needed_after(Ok(Some(other)), &document).unwrap());
    }
    assert!(matches!(
        needed_after(Err(rusqlite::Error::InvalidQuery), &document),
        Err(rusqlite::Error::InvalidQuery)
    ));

    assert!(index.needs_index(&document).unwrap());
    index.upsert_pre_attested_document(&document).unwrap();
    assert!(!index.needs_index(&document).unwrap());
}

#[test]
fn every_memory_setting_has_its_bound() {
    assert!(settings_are_bounded(2, 4096, 32768, 16384));
    assert!(settings_are_bounded(2, 4096, 0, 0));
    assert!(!settings_are_bounded(1, 4096, 32768, 16384));
    assert!(!settings_are_bounded(2, 8192, 32768, 16384));
    assert!(!settings_are_bounded(2, 4096, 32769, 16384));
    assert!(!settings_are_bounded(2, 4096, 32768, 16385));
}

#[test]
fn a_deadline_holds_up_to_its_own_instant() {
    let now = Instant::now();
    let second = Duration::from_secs(1);
    assert!(time_is_left_at(None, now));
    assert!(time_is_left_at(Some(now), now));
    assert!(time_is_left_at(Some(now + second), now));
    assert!(!time_is_left_at(Some(now), now + second));
}

#[test]
fn an_update_under_way_refuses_another() {
    let mut index = make_index();
    let alpha = meeting("a", "Alpha", "body");
    let beta = meeting("b", "Beta", "body");
    let document = alpha.document(&index);
    let other = beta.document(&index);
    assert!(index.begin_upsert(&document, &alpha.policy()).unwrap());
    assert!(index.begin_upsert(&other, &beta.policy()).is_err());
    assert!(index.forget_all().is_err());
    assert!(index.delete_file_inner(&file_path(&alpha.path), &canonical()).is_err());
    index.finish_upsert(&document.source_sha256, &alpha.policy()).unwrap();
    assert_eq!(search(&index, "").len(), 1);
    index.forget_all().unwrap();
    assert!(search(&index, "").is_empty());
}

#[test]
fn a_sync_of_another_corpus_touches_nothing() {
    let mut index = make_index();
    let alpha = meeting("a", "Alpha", "body");
    let beta = meeting("b", "Beta", "body");
    sync(&mut index, &[&alpha]);
    for mode in [SyncMode::Auto, SyncMode::Force, SyncMode::Skip] {
        let moved = index.sync(
            mode,
            Ok(absolute("/corpus/other")),
            &file_path("/configured-meetings"),
            vec![beta.source()],
            &canonical(),
            0,
        );
        assert_eq!(
            io_message(moved.unwrap_err()),
            "configured meeting corpus no longer matches the index binding: /configured-meetings"
        );
        let lost = index.sync(
            mode,
            Err(SearchIndexError::Io("gone".to_string())),
            &file_path("/configured-meetings"),
            vec![beta.source()],
            &canonical(),
            0,
        );
        assert_eq!(io_message(lost.unwrap_err()), "gone");
        let left = search(&index, "");
        assert_eq!(left.len(), 1);
        assert_eq!(left[0].title, "Alpha");
    }
}

#[test]
fn a_second_sync_of_unchanged_files_counts_nothing() {
    let mut index = make_index();
    let alpha = meeting("a", "Alpha", "body");
    let beta = meeting("b", "Beta", "body");
    let mut secret = meeting("c", "Secret", "body");
    secret.restricted = true;
    let first = sync(&mut index, &[&alpha, &beta, &secret]);
    assert_eq!((first.indexed, first.errored), (2, 0));
    let before = index.fingerprint(&alpha.path).unwrap().unwrap().body_hash;
    let second = sync(&mut index, &[&alpha, &beta, &secret]);
    assert_eq!(
        (second.indexed, second.updated, second.removed, second.errored),
        (0, 0, 0, 0)
    );
    assert_eq!(search(&index, "").len(), 2);
    assert_eq!(index.fingerprint(&alpha.path).unwrap().unwrap().body_hash, before);
}

#[test]
fn a_sync_by_steps_takes_back_what_was_reclassified_meanwhile() {
    let mut index = make_index();
    let alpha = meeting("a", "Alpha", "body");
    let beta = meeting("b", "Beta", "REWRITTENCANARY");
    let mut restricted = meeting("b", "Beta", "REWRITTENCANARY");
    restricted.restricted = true;
    let mut pass = index
        .begin_sync(SyncMode::Auto, true, Ok(absolute(ROOT)), &file_path(ROOT), false)
        .unwrap();
    for (first, last) in [(&alpha, &alpha), (&beta, &restricted)] {
        let path = absolute(&first.path);
        assert!(index.wants_source(&path, false));
        let document = index
            .admit_source(&mut pass, &path, &canonical(), first.reading())
            .unwrap()
            .unwrap();
        let inserted = index.begin_upsert(&document, &first.policy()).unwrap();
        let written = index.finish_upsert(&document.source_sha256, &last.policy());
        pass.note_upsert(&written.map(|_| inserted));
    }
    let rows = index.paths().unwrap();
    index.remove_missing(&mut pass, &rows, &canonical(), None).unwrap();
    let stats = pass.finish(3);
    assert_eq!((stats.indexed, stats.errored, stats.duration_ms), (1, 1, 3));
    assert_eq!(raw_counts(&index, "REWRITTENCANARY"), (1, 0));
}

#[test]
fn a_restricted_file_is_removed_and_not_inserted() {
    let mut index = make_index();
    let alpha = meeting("a", "Alpha", "body");
    sync(&mut index, &[&alpha]);
    let mut restricted = meeting("a", "Alpha", "body");
    restricted.restricted = true;
    let inserted = index
        .upsert_file(
            &file_path(&restricted.path),
            &canonical(),
            restricted.reading(),
            &restricted.policy(),
            &restricted.policy(),
        )
        .unwrap();
    assert!(!inserted);
    assert!(search(&index, "").is_empty());
}

#[test]
fn a_busy_database_is_tried_a_few_times() {
    assert!(has_tries_left(1, true));
    assert!(has_tries_left(BUSY_TRIES - 1, true));
    assert!(!has_tries_left(BUSY_TRIES, true));
    assert!(!has_tries_left(1, false));
}
