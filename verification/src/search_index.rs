//! The search index: a private projection of the meetings that may be searched.

use vstd::prelude::*;
use crate::corpus::{candidate_of, canonical_of, CanonicalPaths};
use crate::errors::{is_busy, SearchIndexError};
use crate::meeting::{
    frontmatter_is_the_header, has_frontmatter, is_restricted, split_frontmatter, Frontmatter,
    IndexableDocument, StableMarkdownSnapshot,
};
use crate::paths::{
    absolute_bytes, is_absolute, lossy_text, normalize_absolute_path, normalized, path_error,
    path_message, AbsolutePath, FilePath,
};
use crate::projection::{
    apply_memory_settings, begin_immediate, clear_projection, commit, committed_tables,
    create_live_table, create_projection, delete_attendees, delete_meeting, delete_text,
    empty_tables, fts_snippet, in_transaction, insert_attendee, insert_live_document, insert_text,
    is_fingerprint, is_idle, is_stored, live_documents, live_snippet, meeting_exists,
    meeting_fingerprint, meeting_rowid, nothing_committed, open_in_memory, pragma_answers,
    projection_states, read_pragma, rollback, stored_as, stored_paths, truncate_log, upsert_meeting,
    without_attendees, working_tables, MeetingRecord, MeetingRow, ProjectionTables,
    SourceFingerprint, TextRecord,
};
use crate::queries::{
    answers, limit_of, results_of, results_view, search_list, search_match, strip_marks, texts_view,
    without_marks, FilterView, ListedRow, ResultView, SearchFilters, SearchResult,
};
use crate::sanitize::{fts_query_of, sanitize_fts_query};
use crate::text::{lowercase, trimmed, trimmed_of, unicode_lowercase};

verus! {

/// Whether the tables agree with each other: a path is stored once, each meeting has its text under
/// its title, and each attendee belongs to a stored meeting.
pub open spec fn tables_agree(tables: ProjectionTables) -> bool {
    &&& forall|i: i64, j: i64|
        #![trigger tables.meetings[i], tables.meetings[j]]
        tables.meetings.contains_key(i) && tables.meetings.contains_key(j)
            && tables.meetings[i].path == tables.meetings[j].path ==> i == j
    &&& tables.texts.dom() == tables.meetings.dom()
    &&& forall|i: i64| #[trigger]
        tables.meetings.contains_key(i) ==> tables.texts[i].title == tables.meetings[i].title
    &&& forall|entry: (i64, Seq<char>)| #[trigger]
        tables.attendees.contains(entry) ==> tables.meetings.contains_key(entry.0)
}

/// `attendees` and each of `names`, in lower case, for the meeting at `rowid`.
pub open spec fn with_attendees(
    attendees: Set<(i64, Seq<char>)>,
    rowid: i64,
    names: Seq<Seq<char>>,
) -> Set<(i64, Seq<char>)>
    decreases names.len(),
{
    if names.len() == 0 {
        attendees
    } else {
        with_attendees(attendees, rowid, names.drop_last()).insert(
            (rowid, unicode_lowercase(names.last())),
        )
    }
}

/// The tables once a meeting stands at `rowid` with this row, this body and these attendees.
pub open spec fn with_meeting(
    tables: ProjectionTables,
    rowid: i64,
    record: MeetingRecord,
    body: Seq<char>,
    attendees: Seq<Seq<char>>,
) -> ProjectionTables {
    ProjectionTables {
        meetings: tables.meetings.insert(rowid, record),
        texts: tables.texts.insert(rowid, TextRecord { title: record.title, body }),
        attendees: with_attendees(
            without_attendees(tables.attendees, rowid),
            rowid,
            attendees,
        ),
    }
}

/// Whether a row for `path` goes to `rowid`: where the path is stored, or where nothing is.
pub open spec fn takes_row(tables: ProjectionTables, path: Seq<char>, rowid: i64) -> bool {
    if is_stored(tables, path) {
        stored_as(tables, path, rowid)
    } else {
        !tables.meetings.contains_key(rowid)
    }
}

/// The tables without the meeting at `rowid`.
pub open spec fn without_meeting(tables: ProjectionTables, rowid: i64) -> ProjectionTables {
    ProjectionTables {
        meetings: tables.meetings.remove(rowid),
        texts: tables.texts.remove(rowid),
        attendees: without_attendees(tables.attendees, rowid),
    }
}

/// `after` is `before` without the meeting under `path`, if there was one.
pub open spec fn forgets(
    before: ProjectionTables,
    path: Seq<char>,
    after: ProjectionTables,
) -> bool {
    if is_stored(before, path) {
        exists|rowid: i64| #[trigger]
            stored_as(before, path, rowid) && after == without_meeting(before, rowid)
    } else {
        after == before
    }
}

proof fn attendees_of_one_meeting(
    attendees: Set<(i64, Seq<char>)>,
    rowid: i64,
    names: Seq<Seq<char>>,
    entry: (i64, Seq<char>),
)
    requires
        with_attendees(attendees, rowid, names).contains(entry),
    ensures
        attendees.contains(entry) || entry.0 == rowid,
    decreases names.len(),
{
    if names.len() > 0 {
        if entry != (rowid, unicode_lowercase(names.last())) {
            attendees_of_one_meeting(attendees, rowid, names.drop_last(), entry);
        }
    }
}

/// Storing a meeting keeps the tables in agreement.
pub proof fn storing_keeps_agreement(
    tables: ProjectionTables,
    rowid: i64,
    record: MeetingRecord,
    body: Seq<char>,
    attendees: Seq<Seq<char>>,
)
    requires
        tables_agree(tables),
        takes_row(tables, record.path, rowid),
    ensures
        tables_agree(with_meeting(tables, rowid, record, body, attendees)),
{
    let after = with_meeting(tables, rowid, record, body, attendees);
    assert(after.texts.dom() =~= after.meetings.dom());
    assert forall|i: i64, j: i64|
        #![trigger after.meetings[i], after.meetings[j]]
        after.meetings.contains_key(i) && after.meetings.contains_key(j)
            && after.meetings[i].path == after.meetings[j].path implies i == j by {
        if i != j {
            let other = if i == rowid {
                j
            } else {
                i
            };
            if i == rowid || j == rowid {
                assert(tables.meetings.contains_key(other));
                assert(tables.meetings[other].path == record.path);
                assert(stored_as(tables, record.path, other));
                assert(tables.meetings[rowid].path == tables.meetings[other].path);
            } else {
                assert(tables.meetings[i].path == tables.meetings[j].path);
            }
        }
    }
    assert forall|i: i64| #[trigger] after.meetings.contains_key(i) implies after.texts[i].title
        == after.meetings[i].title by {
        if i != rowid {
            assert(tables.meetings.contains_key(i));
        }
    }
    assert forall|entry: (i64, Seq<char>)| #[trigger]
        after.attendees.contains(entry) implies after.meetings.contains_key(entry.0) by {
        attendees_of_one_meeting(
            without_attendees(tables.attendees, rowid),
            rowid,
            attendees,
            entry,
        );
        if entry.0 != rowid {
            assert(tables.attendees.contains(entry));
        }
    }
}

/// Forgetting a meeting keeps the tables in agreement, and leaves nothing of it in any of them.
pub proof fn forgetting_leaves_nothing(
    before: ProjectionTables,
    path: Seq<char>,
    after: ProjectionTables,
)
    requires
        tables_agree(before),
        forgets(before, path, after),
    ensures
        tables_agree(after),
        !is_stored(after, path),
        forall|rowid: i64| #[trigger]
            stored_as(before, path, rowid) ==> !after.texts.contains_key(rowid),
        forall|rowid: i64, name: Seq<char>|
            stored_as(before, path, rowid) ==> !#[trigger] after.attendees.contains((rowid, name)),
{
    if is_stored(before, path) {
        let gone = choose|rowid: i64| #[trigger]
            stored_as(before, path, rowid) && after == without_meeting(before, rowid);
        assert(after.texts.dom() =~= after.meetings.dom());
        assert forall|rowid: i64| !stored_as(after, path, rowid) by {
            if stored_as(after, path, rowid) {
                assert(before.meetings[rowid].path == before.meetings[gone].path);
            }
        }
        assert forall|rowid: i64| #[trigger] stored_as(before, path, rowid) implies rowid == gone by {
            assert(before.meetings[rowid].path == before.meetings[gone].path);
        }
        assert forall|i: i64, j: i64|
            #![trigger after.meetings[i], after.meetings[j]]
            after.meetings.contains_key(i) && after.meetings.contains_key(j)
                && after.meetings[i].path == after.meetings[j].path implies i == j by {
            assert(before.meetings[i].path == before.meetings[j].path);
        }
        assert forall|i: i64| #[trigger] after.meetings.contains_key(i) implies after.texts[i].title
            == after.meetings[i].title by {
            assert(before.meetings.contains_key(i));
        }
        assert forall|entry: (i64, Seq<char>)| #[trigger]
            after.attendees.contains(entry) implies after.meetings.contains_key(entry.0) by {
            assert(before.attendees.contains(entry));
        }
    } else {
        assert forall|rowid: i64| !stored_as(before, path, rowid) by {}
    }
}

/// The two hexadecimal digits of a byte.
pub open spec fn hex_pair(byte: u8) -> Seq<char> {
    seq![hex_digit_of(byte / 16), hex_digit_of(byte % 16)]
}

/// The character of one hexadecimal digit.
pub open spec fn hex_digit_of(n: u8) -> char {
    if n < 10 {
        ((48 + n) as u32) as char
    } else {
        ((87 + n) as u32) as char
    }
}

/// Bytes in hexadecimal, two small digits for each.
pub open spec fn hex_of(bytes: Seq<u8>) -> Seq<char>
    decreases bytes.len(),
{
    if bytes.len() == 0 {
        Seq::empty()
    } else {
        hex_of(bytes.drop_last()) + hex_pair(bytes.last())
    }
}

fn hex_digit(n: u8) -> (digit: char)
    requires
        n < 16,
    ensures
        digit == hex_digit_of(n),
{
    if n < 10 {
        (48 + n) as char
    } else {
        (87 + n) as char
    }
}

/// A digest in hexadecimal.
pub fn hex_sha256(digest: &[u8; 32]) -> (text: String)
    ensures
        text@ == hex_of(digest@),
{
    let mut text = String::new();
    let mut i: usize = 0;
    assert(digest@.take(0) =~= Seq::<u8>::empty());
    while i < 32
        invariant
            i <= 32,
            text@ == hex_of(digest@.take(i as int)),
        decreases 32 - i,
    {
        let byte: u8 = digest[i];
        let ghost before = text@;
        text.push(hex_digit(byte / 16));
        text.push(hex_digit(byte % 16));
        i = i + 1;
        assert(digest@.take(i as int).drop_last() =~= digest@.take(i - 1));
        assert(text@ =~= before + hex_pair(byte));
    }
    assert(digest@.take(i as int) =~= digest@);
    text
}

/// What serde_json writes for a list of texts; none where it fails.
pub uninterp spec fn json_of(texts: Seq<Seq<char>>) -> Option<Seq<char>>;

/// `serde_json::to_string` of a list of texts, which those texts decide.
#[verifier::external_body]
fn json_text(texts: &Vec<String>) -> (json: Option<String>)
    ensures
        crate::queries::optional_text(json) == json_of(texts_view(texts@)),
{
    serde_json::to_string(texts).ok()
}

/// `chrono::Local::now`, as seconds since the Unix epoch. Nothing is said of it: it is the time.
#[verifier::external_body]
fn local_timestamp() -> i64 {
    chrono::Local::now().timestamp()
}

/// The row that the index keeps of a document.
pub open spec fn record_of(document: IndexableDocument, indexed_at: i64) -> MeetingRecord {
    MeetingRecord {
        path: lossy_text(absolute_bytes(document.path@)),
        title: document.title@,
        date: document.date@,
        content_type: document.content_type@,
        attendees_json: match json_of(texts_view(document.attendees@)) {
            Some(json) => json,
            None => "[]"@,
        },
        recorded_by: document.recorded_by@,
        mtime_ns: document.mtime_ns,
        size_bytes: document.size_bytes,
        body_hash: hex_of(document.source_sha256@),
        indexed_at,
    }
}

/// `after` is `before` with the document stored under its path.
pub open spec fn stores(
    before: ProjectionTables,
    document: IndexableDocument,
    after: ProjectionTables,
) -> bool {
    exists|rowid: i64, indexed_at: i64| #[trigger]
        stores_at(before, document, after, rowid, indexed_at)
}

/// `after` is `before` with the document stored at `rowid` as of `indexed_at`.
pub open spec fn stores_at(
    before: ProjectionTables,
    document: IndexableDocument,
    after: ProjectionTables,
    rowid: i64,
    indexed_at: i64,
) -> bool {
    &&& takes_row(before, record_of(document, indexed_at).path, rowid)
    &&& after == with_meeting(
        before,
        rowid,
        record_of(document, indexed_at),
        document.body@,
        texts_view(document.attendees@),
    )
}

/// The row for `document` as of `indexed_at`.
fn meeting_row(document: &IndexableDocument, indexed_at: i64) -> (row: MeetingRow)
    ensures
        row@ == record_of(*document, indexed_at),
{
    let attendees_json = match json_text(&document.attendees) {
        Some(json) => json,
        None => "[]".to_owned(),
    };
    MeetingRow {
        path: document.path.display(),
        title: document.title.clone(),
        date: document.date.clone(),
        content_type: document.content_type.clone(),
        attendees_json,
        recorded_by: document.recorded_by.clone(),
        mtime_ns: document.mtime_ns,
        size_bytes: document.size_bytes,
        body_hash: hex_sha256(&document.source_sha256),
        indexed_at,
    }
}

/// Writes a document's rows into the open transaction.
fn write_rows(
    conn: &mut rusqlite::Connection,
    document: &IndexableDocument,
    indexed_at: i64,
) -> (result: Result<(), rusqlite::Error>)
    requires
        in_transaction(*old(conn)),
        tables_agree(working_tables(*old(conn))),
    ensures
        result is Ok ==> {
            &&& in_transaction(*final(conn))
            &&& exists|rowid: i64| #[trigger]
                stores_at(
                    working_tables(*old(conn)),
                    *document,
                    working_tables(*final(conn)),
                    rowid,
                    indexed_at,
                )
        },
        nothing_committed(*old(conn), *final(conn)),
{
    let row = meeting_row(document, indexed_at);
    let ghost committed = committed_tables(*conn);
    let ghost before = working_tables(*conn);
    let rowid = match upsert_meeting(conn, &row) {
        Ok(rowid) => rowid,
        Err(error) => {
            return Err(error);
        },
    };
    if let Err(error) = delete_text(conn, rowid) {
        return Err(error);
    }
    if let Err(error) = insert_text(conn, rowid, document.title.as_str(), document.body.as_str()) {
        return Err(error);
    }
    if let Err(error) = delete_attendees(conn, rowid) {
        return Err(error);
    }
    let ghost names = texts_view(document.attendees@);
    let ghost kept = without_attendees(before.attendees, rowid);
    let ghost meetings = before.meetings.insert(rowid, row@);
    let ghost texts = before.texts.insert(
        rowid,
        TextRecord { title: document.title@, body: document.body@ },
    );
    proof {
        assert(working_tables(*conn).texts =~= texts);
        assert(names.take(0) =~= Seq::<Seq<char>>::empty());
    }
    let mut i: usize = 0;
    while i < document.attendees.len()
        invariant
            i <= document.attendees@.len(),
            names == texts_view(document.attendees@),
            in_transaction(*conn),
            committed_tables(*conn) == committed,
            working_tables(*conn) == (ProjectionTables {
                meetings,
                texts,
                attendees: with_attendees(kept, rowid, names.take(i as int)),
            }),
            committed == committed_tables(*old(conn)),
        decreases document.attendees@.len() - i,
    {
        let lower = lowercase(document.attendees[i].as_str());
        if let Err(error) = insert_attendee(conn, rowid, lower.as_str()) {
            return Err(error);
        }
        i = i + 1;
        assert(names.take(i as int).drop_last() =~= names.take(i - 1));
        assert(names.take(i as int).last() == document.attendees@[i - 1]@);
    }
    proof {
        assert(names.take(i as int) =~= names);
        assert(stores_at(before, *document, working_tables(*conn), rowid, indexed_at));
    }
    Ok(())
}

/// `rusqlite::Error::InvalidQuery`.
#[verifier::external_body]
fn invalid_query() -> rusqlite::Error {
    rusqlite::Error::InvalidQuery
}

/// The settings that keep a database, and its temporary tables, in bounded memory.
pub open spec fn are_bounded_settings(
    mode: i64,
    page_size: i64,
    max_pages: i64,
    temp_max_pages: i64,
) -> bool {
    &&& mode == 2
    &&& page_size == 4096
    &&& max_pages <= 32768
    &&& temp_max_pages <= 16384
}

/// Whether the private database reports settings that keep it in bounded memory.
pub open spec fn is_memory_bounded(conn: rusqlite::Connection) -> bool {
    let answer = pragma_answers(conn);
    are_bounded_settings(
        answer["PRAGMA temp_store"@],
        answer["PRAGMA page_size"@],
        answer["PRAGMA max_page_count"@],
        answer["PRAGMA temp.max_page_count"@],
    )
}

/// Whether settings that a database reports keep it in bounded memory.
pub fn settings_are_bounded(
    mode: i64,
    page_size: i64,
    max_pages: i64,
    temp_max_pages: i64,
) -> (yes: bool)
    ensures
        yes == are_bounded_settings(mode, page_size, max_pages, temp_max_pages),
{
    mode == 2 && page_size == 4096 && max_pages <= 32768 && temp_max_pages <= 16384
}

/// Opens a private database that keeps everything, temporary tables too, in bounded memory.
pub fn open_private_memory_connection() -> (result: Result<rusqlite::Connection, rusqlite::Error>)
    ensures
        result matches Ok(conn) ==> {
            &&& is_memory_bounded(conn)
            &&& projection_states(conn).len() == 0
            &&& live_documents(conn).len() == 0
        },
{
    let mut conn = match open_in_memory() {
        Ok(conn) => conn,
        Err(error) => {
            return Err(error);
        },
    };
    if let Err(error) = apply_memory_settings(&mut conn) {
        return Err(error);
    }
    let mode: i64 = match read_pragma(&conn, "PRAGMA temp_store") {
        Ok(value) => value,
        Err(error) => {
            return Err(error);
        },
    };
    let page_size: i64 = match read_pragma(&conn, "PRAGMA page_size") {
        Ok(value) => value,
        Err(error) => {
            return Err(error);
        },
    };
    let max_pages: i64 = match read_pragma(&conn, "PRAGMA max_page_count") {
        Ok(value) => value,
        Err(error) => {
            return Err(error);
        },
    };
    let temp_max_pages: i64 = match read_pragma(&conn, "PRAGMA temp.max_page_count") {
        Ok(value) => value,
        Err(error) => {
            return Err(error);
        },
    };
    if !settings_are_bounded(mode, page_size, max_pages, temp_max_pages) {
        return Err(invalid_query());
    }
    Ok(conn)
}

/// What a re-check answers for what SQLite found: a failure is no match.
pub fn rechecked(found: Result<Option<String>, rusqlite::Error>) -> (snippet: Option<String>)
    ensures
        match found {
            Ok(Some(raw)) => snippet matches Some(text) && text@ == without_marks(raw@),
            _ => snippet is None,
        },
{
    match found {
        Ok(Some(raw)) => Some(strip_marks(raw.as_str())),
        _ => None,
    }
}

/// Matches one live document against a query, in a second private database of its own and by the
/// rules of the private index. SQLite may fail, which is no match.
pub fn live_fts_match_snippet(title: &str, body: &str, query: &str) -> (snippet: Option<String>)
    ensures
        fts_query_of(query@).len() == 0 ==> snippet is None,
        snippet matches Some(text) ==> (fts_snippet(title@, body@, fts_query_of(query@)) matches Some(
            raw,
        ) && text@ == without_marks(raw)),
{
    let sanitized = sanitize_fts_query(query);
    if sanitized.as_str().is_empty() {
        return None;
    }
    let mut conn = match open_private_memory_connection() {
        Ok(conn) => conn,
        Err(_) => {
            return None;
        },
    };
    if create_live_table(&mut conn).is_err() {
        return None;
    }
    if insert_live_document(&mut conn, title, body).is_err() {
        return None;
    }
    rechecked(live_snippet(&conn, sanitized.as_str()))
}

/// A fresh reading of a meeting file, to see whether it may still be indexed.
pub struct PolicyReading {
    /// The file, where it could be read.
    pub snapshot: Option<StableMarkdownSnapshot>,
    /// Whether the reading stayed within its budget.
    pub within_budget: bool,
    /// What the frontmatter parses to.
    pub parsed: Result<Frontmatter, String>,
}

/// Whether a reading shows the expected file, with frontmatter that does not restrict it.
pub open spec fn shows_normal_policy(reading: PolicyReading, expected: Option<[u8; 32]>) -> bool {
    &&& reading.snapshot matches Some(snapshot) && (expected matches Some(sha256)
        ==> snapshot.content_sha256@ == sha256@) && has_frontmatter(snapshot.content@)
    &&& reading.within_budget
    &&& reading.parsed matches Ok(frontmatter) && !is_restricted(frontmatter)
}

fn same_digest(left: &[u8; 32], right: &[u8; 32]) -> (same: bool)
    ensures
        same == (left@ == right@),
{
    let mut i: usize = 0;
    while i < 32
        invariant
            i <= 32,
            forall|k: int| 0 <= k < i ==> left@[k] == right@[k],
        decreases 32 - i,
    {
        if left[i] != right[i] {
            return false;
        }
        i = i + 1;
    }
    assert(left@ =~= right@);
    true
}

/// Whether a fresh reading of a source shows that it may be indexed.
pub fn source_path_has_normal_policy(
    reading: &PolicyReading,
    expected_sha256: Option<&[u8; 32]>,
) -> (yes: bool)
    ensures
        yes == shows_normal_policy(
            *reading,
            match expected_sha256 {
                Some(sha256) => Some(*sha256),
                None => None,
            },
        ),
{
    let snapshot = match &reading.snapshot {
        Some(snapshot) => snapshot,
        None => {
            return false;
        },
    };
    if !reading.within_budget {
        return false;
    }
    if let Some(expected) = expected_sha256 {
        if !same_digest(&snapshot.content_sha256, expected) {
            return false;
        }
    }
    let (header, body) = split_frontmatter(snapshot.content.as_str());
    proof {
        frontmatter_is_the_header(snapshot.content@, header@, body@);
    }
    if header.as_str().is_empty() {
        return false;
    }
    match &reading.parsed {
        Ok(frontmatter) => !frontmatter.restricted(),
        Err(_) => false,
    }
}

/// A private projection of the meetings beneath one corpus.
pub struct SearchIndex {
    conn: rusqlite::Connection,
    corpus_root: AbsolutePath,
}

impl SearchIndex {
    /// The database.
    pub closed spec fn connection(self) -> rusqlite::Connection {
        self.conn
    }

    /// The corpus that the index is bound to.
    pub closed spec fn root(self) -> Seq<Seq<u8>> {
        self.corpus_root@
    }

    /// What a search reads.
    pub open spec fn shown(self) -> ProjectionTables {
        working_tables(self.connection())
    }

    /// What the index keeps.
    pub open spec fn kept(self) -> ProjectionTables {
        committed_tables(self.connection())
    }

    /// Whether no update is under way.
    pub open spec fn idle(self) -> bool {
        is_idle(self.connection())
    }

    /// Whether an update is under way.
    pub open spec fn updating(self) -> bool {
        in_transaction(self.connection())
    }

    /// What holds of an index at all times: its tables exist, and what it keeps agrees.
    pub open spec fn wf(self) -> bool {
        &&& 1 <= projection_states(self.connection()).len() <= 2
        &&& tables_agree(self.kept())
    }

    /// Nothing of the index has changed.
    pub open spec fn same_as(self, other: SearchIndex) -> bool {
        &&& self.root() == other.root()
        &&& projection_states(self.connection()) == projection_states(other.connection())
    }

    /// Opens an empty projection that is bound to a corpus. SQLite alone decides whether it can.
    pub fn open(corpus_root: AbsolutePath) -> (result: Result<SearchIndex, SearchIndexError>)
        ensures
            match result {
                Ok(index) => index.wf() && index.idle() && index.root() == corpus_root@
                    && index.kept() == empty_tables(),
                Err(error) => error is Sqlite,
            },
    {
        let mut conn = match open_private_memory_connection() {
            Ok(conn) => conn,
            Err(error) => {
                return Err(SearchIndexError::Sqlite(error));
            },
        };
        if let Err(error) = create_projection(&mut conn) {
            return Err(SearchIndexError::Sqlite(error));
        }
        Ok(SearchIndex { conn, corpus_root })
    }
}

/// The text under which the index stores a path.
pub open spec fn stored_text(path: Seq<Seq<u8>>) -> Seq<char> {
    lossy_text(absolute_bytes(path))
}

/// Whether an upsert inserted a row, from what the lookup before it found: a failed lookup counts
/// as none found.
pub fn inserted_after(found: Result<bool, rusqlite::Error>) -> (inserted: bool)
    ensures
        inserted == !(found matches Ok(true)),
{
    match found {
        Ok(found) => !found,
        Err(_) => true,
    }
}

/// How often a removal is tried on a database that is busy.
pub const BUSY_TRIES: u32 = 5;

/// Whether a removal is tried again after so many tries; `busy` says that the last one failed
/// because the database was.
pub fn has_tries_left(tries: u32, busy: bool) -> (yes: bool)
    ensures
        yes == (busy && tries < BUSY_TRIES),
{
    busy && tries < BUSY_TRIES
}

fn tries_again(tries: u32, deleted: &Result<bool, rusqlite::Error>) -> (yes: bool)
    ensures
        yes ==> deleted is Err && tries < BUSY_TRIES,
{
    match deleted {
        Ok(_) => false,
        Err(error) => has_tries_left(tries, is_busy(error)),
    }
}

impl SearchIndex {
    /// Writes a document's rows into a new transaction, which stays open. What is kept does not
    /// change. While an update is under way it is refused; otherwise SQLite alone decides whether
    /// it can.
    fn stage(&mut self, document: &IndexableDocument) -> (result: Result<bool, rusqlite::Error>)
        requires
            old(self).wf(),
        ensures
            final(self).wf(),
            final(self).root() == old(self).root(),
            final(self).kept() == old(self).kept(),
            result matches Ok(inserted) ==> {
                &&& old(self).idle()
                &&& final(self).updating()
                &&& stores(old(self).kept(), *document, final(self).shown())
                &&& tables_agree(final(self).shown())
                &&& !inserted ==> is_stored(old(self).kept(), stored_text(document.path@))
            },
            !old(self).idle() ==> result is Err && final(self).same_as(*old(self)),
    {
        let indexed_at: i64 = local_timestamp();
        let path = document.path.display();
        let inserted = inserted_after(meeting_exists(&self.conn, path.as_str()));
        let ghost before = committed_tables(self.conn);
        if let Err(error) = begin_immediate(&mut self.conn) {
            return Err(error);
        }
        if let Err(error) = write_rows(&mut self.conn, document, indexed_at) {
            let undone = rollback(&mut self.conn);
            return Err(error);
        }
        proof {
            let after = working_tables(self.conn);
            let rowid = choose|rowid: i64| #[trigger]
                stores_at(before, *document, after, rowid, indexed_at);
            storing_keeps_agreement(
                before,
                rowid,
                record_of(*document, indexed_at),
                document.body@,
                texts_view(document.attendees@),
            );
        }
        Ok(inserted)
    }

    /// Commits the transaction that is open. A refused commit is rolled back.
    fn keep_staged(&mut self) -> (result: Result<(), rusqlite::Error>)
        requires
            old(self).wf(),
            old(self).updating(),
            tables_agree(old(self).shown()),
        ensures
            final(self).wf(),
            final(self).root() == old(self).root(),
            result is Ok ==> final(self).idle() && final(self).kept() == old(self).shown(),
            result is Err ==> final(self).kept() == old(self).kept(),
    {
        let result = commit(&mut self.conn);
        if result.is_err() {
            let undone = rollback(&mut self.conn);
        }
        result
    }

    /// Begins to store a document whose source was read again just now. The rows are written, and
    /// wait for [`SearchIndex::finish_upsert`]. `false` says that the path was stored before; `true`
    /// that it was not found, or could not be looked up, as [`inserted_after`] has it. A source that
    /// may no longer be indexed is refused.
    pub fn begin_upsert(&mut self, document: &IndexableDocument, reading: &PolicyReading) -> (result:
        Result<bool, SearchIndexError>)
        requires
            old(self).wf(),
        ensures
            final(self).wf(),
            final(self).root() == old(self).root(),
            final(self).kept() == old(self).kept(),
            match result {
                Ok(inserted) => {
                    &&& shows_normal_policy(*reading, Some(document.source_sha256))
                    &&& old(self).idle()
                    &&& final(self).updating()
                    &&& stores(old(self).kept(), *document, final(self).shown())
                    &&& tables_agree(final(self).shown())
                    &&& !inserted ==> is_stored(old(self).kept(), stored_text(document.path@))
                },
                Err(error) => if shows_normal_policy(*reading, Some(document.source_sha256)) {
                    error is Sqlite
                } else {
                    &&& error matches SearchIndexError::Io(message) && message@
                        == "meeting changed before search projection update"@
                    &&& final(self).same_as(*old(self))
                },
            },
    {
        if !source_path_has_normal_policy(reading, Some(&document.source_sha256)) {
            return Err(
                SearchIndexError::Io("meeting changed before search projection update".to_owned()),
            );
        }
        match self.stage(document) {
            Ok(inserted) => Ok(inserted),
            Err(error) => Err(SearchIndexError::Sqlite(error)),
        }
    }

    /// Ends an upsert with a reading of the source that was made after its rows were written. Where
    /// the source may no longer be indexed the rows are taken back.
    pub fn finish_upsert(&mut self, sha256: &[u8; 32], reading: &PolicyReading) -> (result: Result<
        (),
        SearchIndexError,
    >)
        requires
            old(self).wf(),
            old(self).updating(),
            tables_agree(old(self).shown()),
        ensures
            final(self).wf(),
            final(self).root() == old(self).root(),
            match result {
                Ok(_) => {
                    &&& shows_normal_policy(*reading, Some(*sha256))
                    &&& final(self).idle()
                    &&& final(self).kept() == old(self).shown()
                },
                Err(error) => {
                    &&& final(self).kept() == old(self).kept()
                    &&& error is Sqlite || {
                        &&& !shows_normal_policy(*reading, Some(*sha256))
                        &&& final(self).idle()
                        &&& error matches SearchIndexError::Io(message) && message@
                            == "meeting changed during search projection update"@
                    }
                },
            },
    {
        if !source_path_has_normal_policy(reading, Some(sha256)) {
            return match rollback(&mut self.conn) {
                Ok(_) => Err(
                    SearchIndexError::Io(
                        "meeting changed during search projection update".to_owned(),
                    ),
                ),
                Err(error) => Err(SearchIndexError::Sqlite(error)),
            };
        }
        match self.keep_staged() {
            Ok(_) => Ok(()),
            Err(error) => Err(SearchIndexError::Sqlite(error)),
        }
    }

    /// Stores a document for which both readings of its source are at hand. What `true` and `false`
    /// say is what [`SearchIndex::begin_upsert`] does. The second reading is to be made once the
    /// rows are written: a caller that can make it then takes that function and
    /// [`SearchIndex::finish_upsert`] instead.
    pub fn upsert_document(
        &mut self,
        document: &IndexableDocument,
        before: &PolicyReading,
        after: &PolicyReading,
    ) -> (result: Result<bool, SearchIndexError>)
        requires
            old(self).wf(),
        ensures
            final(self).wf(),
            final(self).root() == old(self).root(),
            upserted(*old(self), *document, *before, *after, result, *final(self)),
    {
        let inserted = match self.begin_upsert(document, before) {
            Ok(inserted) => inserted,
            Err(error) => {
                return Err(error);
            },
        };
        match self.finish_upsert(&document.source_sha256, after) {
            Ok(_) => Ok(inserted),
            Err(error) => Err(error),
        }
    }

    /// Stores a document that comes from a reading which is checked as a whole later on.
    pub fn upsert_pre_attested_document(&mut self, document: &IndexableDocument) -> (result: Result<
        bool,
        SearchIndexError,
    >)
        requires
            old(self).wf(),
        ensures
            final(self).wf(),
            final(self).root() == old(self).root(),
            attested_upserted(*old(self), *document, result, *final(self)),
    {
        let inserted = match self.stage(document) {
            Ok(inserted) => inserted,
            Err(error) => {
                return Err(SearchIndexError::Sqlite(error));
            },
        };
        match self.keep_staged() {
            Ok(_) => Ok(inserted),
            Err(error) => Err(SearchIndexError::Sqlite(error)),
        }
    }
}

/// What becomes of an upsert: the document is stored and both readings show that it may be, or
/// nothing that is kept changes.
pub open spec fn upserted(
    index: SearchIndex,
    document: IndexableDocument,
    before: PolicyReading,
    after: PolicyReading,
    result: Result<bool, SearchIndexError>,
    stored: SearchIndex,
) -> bool {
    match result {
        Ok(inserted) => {
            &&& shows_normal_policy(before, Some(document.source_sha256))
            &&& shows_normal_policy(after, Some(document.source_sha256))
            &&& index.idle()
            &&& stored.idle()
            &&& stores(index.kept(), document, stored.kept())
            &&& !inserted ==> is_stored(index.kept(), stored_text(document.path@))
        },
        Err(error) => {
            &&& stored.kept() == index.kept()
            &&& (shows_normal_policy(before, Some(document.source_sha256)) && error is Sqlite)
                || upsert_refusal(document, before, after, error)
            &&& !shows_normal_policy(before, Some(document.source_sha256)) ==> stored.same_as(index)
        },
    }
}

/// What becomes of an upsert whose source is checked later on: the document is stored, or nothing
/// that is kept changes.
pub open spec fn attested_upserted(
    index: SearchIndex,
    document: IndexableDocument,
    result: Result<bool, SearchIndexError>,
    stored: SearchIndex,
) -> bool {
    match result {
        Ok(inserted) => {
            &&& index.idle()
            &&& stored.idle()
            &&& stores(index.kept(), document, stored.kept())
            &&& !inserted ==> is_stored(index.kept(), stored_text(document.path@))
        },
        Err(error) => error is Sqlite && stored.kept() == index.kept(),
    }
}

/// Why an upsert is refused by what its readings show.
pub open spec fn upsert_refusal(
    document: IndexableDocument,
    before: PolicyReading,
    after: PolicyReading,
    error: SearchIndexError,
) -> bool {
    error matches SearchIndexError::Io(message) && if !shows_normal_policy(
        before,
        Some(document.source_sha256),
    ) {
        message@ == "meeting changed before search projection update"@
    } else {
        !shows_normal_policy(after, Some(document.source_sha256)) && message@
            == "meeting changed during search projection update"@
    }
}

/// How many of `candidate`'s first `k` names, at most, lead to what resolves to the corpus.
pub open spec fn corpus_depth(
    candidate: Seq<Seq<u8>>,
    root: Seq<Seq<u8>>,
    canonical: Seq<(Seq<Seq<u8>>, Seq<Seq<u8>>)>,
    k: nat,
) -> Option<nat>
    decreases k,
{
    if canonical_of(canonical, candidate.take(k as int)) == Some(root) {
        Some(k)
    } else if k == 0 {
        None
    } else {
        corpus_depth(candidate, root, canonical, (k - 1) as nat)
    }
}

/// The path that the index knows a caller's path by: the corpus, then what follows the nearest of
/// the path's ancestors that resolves to the corpus.
pub open spec fn bound_to(
    root: Seq<Seq<u8>>,
    path: Seq<u8>,
    canonical: Seq<(Seq<Seq<u8>>, Seq<Seq<u8>>)>,
) -> Option<Seq<Seq<u8>>> {
    match normalized(candidate_of(absolute_bytes(root), path)) {
        None => None,
        Some(candidate) => match corpus_depth(candidate, root, canonical, candidate.len()) {
            Some(k) if k < candidate.len() => Some(root + candidate.skip(k as int)),
            _ => None,
        },
    }
}

/// What a path that the index knows nothing by is told.
pub open spec fn unbound_message(root: Seq<Seq<u8>>, path: Seq<u8>) -> Seq<char> {
    let candidate = candidate_of(absolute_bytes(root), path);
    if normalized(candidate) is Some {
        path_message("meeting path is outside the configured corpus: "@, path)
    } else if is_absolute(candidate) {
        path_message("meeting path escapes filesystem root: "@, candidate)
    } else {
        path_message("expected absolute meeting path: "@, candidate)
    }
}

impl SearchIndex {
    /// The absolute path that a caller means, before it is bound to the corpus.
    pub fn candidate_path(&self, path: &FilePath) -> (result: Result<AbsolutePath, SearchIndexError>)
        ensures
            match result {
                Ok(candidate) => normalized(candidate_of(absolute_bytes(self.root()), path@))
                    == Some(candidate@),
                Err(error) => {
                    &&& normalized(candidate_of(absolute_bytes(self.root()), path@)) is None
                    &&& error matches SearchIndexError::Io(message) && message@ == unbound_message(
                        self.root(),
                        path@,
                    )
                },
            },
    {
        if path.absolute() {
            normalize_absolute_path(path)
        } else {
            normalize_absolute_path(&self.corpus_root.file_path().join(path))
        }
    }

    /// Binds a caller's path to the corpus.
    pub fn bound_path(&self, path: &FilePath, canonical: &CanonicalPaths) -> (result: Result<
        AbsolutePath,
        SearchIndexError,
    >)
        ensures
            match result {
                Ok(bound) => bound_to(self.root(), path@, canonical@) == Some(bound@),
                Err(error) => {
                    &&& bound_to(self.root(), path@, canonical@) is None
                    &&& error matches SearchIndexError::Io(message) && message@ == unbound_message(
                        self.root(),
                        path@,
                    )
                },
            },
    {
        let candidate = match self.candidate_path(path) {
            Ok(candidate) => candidate,
            Err(error) => {
                return Err(error);
            },
        };
        let ghost names = candidate@;
        let depth: usize = candidate.depth();
        let mut up: usize = 0;
        assert(depth - up == names.len());
        loop
            invariant
                names == candidate@,
                depth == names.len(),
                normalized(candidate_of(absolute_bytes(self.root()), path@)) == Some(names),
                up <= depth,
                corpus_depth(names, self.root(), canonical@, names.len()) == corpus_depth(
                    names,
                    self.root(),
                    canonical@,
                    (depth - up) as nat,
                ),
            decreases depth - up,
        {
            let ancestor = candidate.ancestor(up);
            if canonical.resolves_to(&ancestor, &self.corpus_root) {
                if up > 0 {
                    if let Some(below) = candidate.names_below(&ancestor) {
                        assert(names.skip(ancestor@.len() as int) == names.skip(depth - up));
                        return Ok(self.corpus_root.descend(&below));
                    }
                    assert(names.subrange(0, ancestor@.len() as int) =~= ancestor@);
                    assert(false);
                }
                return Err(path_error("meeting path is outside the configured corpus: ", path));
            }
            if up == depth {
                return Err(path_error("meeting path is outside the configured corpus: ", path));
            }
            up = up + 1;
        }
    }

    /// Deletes the meeting under `path` inside the open transaction.
    fn delete_rows(&mut self, path: &str) -> (result: Result<bool, rusqlite::Error>)
        requires
            old(self).wf(),
            old(self).updating(),
            tables_agree(old(self).shown()),
        ensures
            final(self).wf(),
            final(self).root() == old(self).root(),
            final(self).kept() == old(self).kept(),
            result matches Ok(removed) ==> {
                &&& final(self).updating()
                &&& removed == is_stored(old(self).shown(), path@)
                &&& forgets(old(self).shown(), path@, final(self).shown())
            },
    {
        let ghost before = working_tables(self.conn);
        let rowid = match meeting_rowid(&self.conn, path) {
            Ok(Some(rowid)) => rowid,
            Ok(None) => {
                return Ok(false);
            },
            Err(error) => {
                return Err(error);
            },
        };
        if let Err(error) = delete_text(&mut self.conn, rowid) {
            return Err(error);
        }
        if let Err(error) = delete_meeting(&mut self.conn, rowid) {
            return Err(error);
        }
        assert(stored_as(before, path@, rowid));
        assert(working_tables(self.conn) == without_meeting(before, rowid));
        Ok(true)
    }

    /// Tries once to remove the meeting under a bound path, and says whether there was one.
    fn delete_once(&mut self, path: &str) -> (result: Result<bool, rusqlite::Error>)
        requires
            old(self).wf(),
        ensures
            final(self).wf(),
            final(self).root() == old(self).root(),
            match result {
                Ok(removed) => {
                    &&& final(self).idle()
                    &&& removed == is_stored(old(self).kept(), path@)
                    &&& forgets(old(self).kept(), path@, final(self).kept())
                },
                Err(_) => final(self).kept() == old(self).kept(),
            },
            !old(self).idle() ==> result is Err && final(self).same_as(*old(self)),
    {
        if let Err(error) = begin_immediate(&mut self.conn) {
            return Err(error);
        }
        let ghost before = committed_tables(self.conn);
        let removed = match self.delete_rows(path) {
            Ok(removed) => removed,
            Err(error) => {
                let undone = rollback(&mut self.conn);
                return Err(error);
            },
        };
        proof {
            forgetting_leaves_nothing(before, path@, self.shown());
        }
        match self.keep_staged() {
            Ok(_) => Ok(removed),
            Err(error) => Err(error),
        }
    }

    /// Removes the meeting under a bound path, and says whether there was one. A database that is
    /// busy is tried again. While an update is under way it is refused, and nothing changes.
    fn delete_bound(&mut self, path: &str) -> (result: Result<bool, rusqlite::Error>)
        requires
            old(self).wf(),
        ensures
            final(self).wf(),
            final(self).root() == old(self).root(),
            match result {
                Ok(removed) => {
                    &&& final(self).idle()
                    &&& removed == is_stored(old(self).kept(), path@)
                    &&& forgets(old(self).kept(), path@, final(self).kept())
                },
                Err(_) => final(self).kept() == old(self).kept() || forgets(
                    old(self).kept(),
                    path@,
                    final(self).kept(),
                ),
            },
            !old(self).idle() ==> result is Err && final(self).same_as(*old(self)),
    {
        let mut tries: u32 = 1;
        let mut deleted = self.delete_once(path);
        while tries_again(tries, &deleted)
            invariant
                self.wf(),
                self.root() == old(self).root(),
                match deleted {
                    Ok(removed) => {
                        &&& self.idle()
                        &&& removed == is_stored(old(self).kept(), path@)
                        &&& forgets(old(self).kept(), path@, self.kept())
                    },
                    Err(_) => self.kept() == old(self).kept(),
                },
                !old(self).idle() ==> deleted is Err && self.same_as(*old(self)),
            decreases BUSY_TRIES - tries,
        {
            tries = tries + 1;
            deleted = self.delete_once(path);
        }
        let removed = match deleted {
            Ok(removed) => removed,
            Err(error) => {
                return Err(error);
            },
        };
        if removed {
            if let Err(error) = truncate_log(&mut self.conn) {
                return Err(error);
            }
        }
        Ok(removed)
    }

    /// Removes one file from the index, and says whether it was there.
    pub fn delete_file_inner(&mut self, path: &FilePath, canonical: &CanonicalPaths) -> (result:
        Result<bool, SearchIndexError>)
        requires
            old(self).wf(),
        ensures
            final(self).wf(),
            final(self).root() == old(self).root(),
            match bound_to(old(self).root(), path@, canonical@) {
                None => {
                    &&& final(self).same_as(*old(self))
                    &&& result matches Err(SearchIndexError::Io(message)) && message@
                        == unbound_message(old(self).root(), path@)
                },
                Some(bound) => match result {
                    Ok(removed) => {
                        &&& final(self).idle()
                        &&& removed == is_stored(old(self).kept(), stored_text(bound))
                        &&& forgets(old(self).kept(), stored_text(bound), final(self).kept())
                    },
                    Err(error) => {
                        &&& error is Sqlite
                        &&& final(self).kept() == old(self).kept() || forgets(
                            old(self).kept(),
                            stored_text(bound),
                            final(self).kept(),
                        )
                    },
                },
            },
    {
        let bound = match self.bound_path(path, canonical) {
            Ok(bound) => bound,
            Err(error) => {
                return Err(error);
            },
        };
        let text = bound.display();
        match self.delete_bound(text.as_str()) {
            Ok(removed) => Ok(removed),
            Err(error) => Err(SearchIndexError::Sqlite(error)),
        }
    }

    /// Removes one file from the index. Where it is not there nothing changes.
    pub fn delete_file(&mut self, path: &FilePath, canonical: &CanonicalPaths) -> (result: Result<
        (),
        SearchIndexError,
    >)
        requires
            old(self).wf(),
        ensures
            final(self).wf(),
            final(self).root() == old(self).root(),
            match bound_to(old(self).root(), path@, canonical@) {
                None => {
                    &&& final(self).same_as(*old(self))
                    &&& result matches Err(SearchIndexError::Io(message)) && message@
                        == unbound_message(old(self).root(), path@)
                },
                Some(bound) => match result {
                    Ok(_) => final(self).idle() && forgets(
                        old(self).kept(),
                        stored_text(bound),
                        final(self).kept(),
                    ),
                    Err(error) => {
                        &&& error is Sqlite
                        &&& final(self).kept() == old(self).kept() || forgets(
                            old(self).kept(),
                            stored_text(bound),
                            final(self).kept(),
                        )
                    },
                },
            },
    {
        match self.delete_file_inner(path, canonical) {
            Ok(_) => Ok(()),
            Err(error) => Err(error),
        }
    }

    /// Searches. Without a query all meetings are listed; a query without a word finds none.
    pub fn search(&self, query: &str, filters: &SearchFilters, limit: Option<usize>) -> (result:
        Result<Vec<SearchResult>, SearchIndexError>)
        requires
            self.wf(),
        ensures
            match result {
                Ok(results) => found_by(self.shown(), query@, filters@, limit, results_view(results@)),
                Err(error) => error is Sqlite && !finds_nothing(query@),
            },
    {
        let most: usize = match limit {
            Some(limit) => limit,
            None => usize::MAX,
        };
        assert(bound_of(limit) == limit_of(most));
        if trimmed(query).as_str().is_empty() {
            assert(matching_of(query@) is None);
            return search_list(&self.conn, filters, most);
        }
        let sanitized = sanitize_fts_query(query);
        if sanitized.as_str().is_empty() {
            let results: Vec<SearchResult> = Vec::new();
            assert(results_view(results@) =~= Seq::empty());
            return Ok(results);
        }
        assert(matching_of(query@) == Some(sanitized@));
        search_match(&self.conn, sanitized.as_str(), filters, most)
    }
}

impl SearchIndex {
    /// The corpus that the index is bound to.
    pub fn bound_root(&self) -> (root: &AbsolutePath)
        ensures
            root@ == self.root(),
    {
        &self.corpus_root
    }

    /// Forgets every meeting. While an update is under way it is refused, and nothing changes;
    /// otherwise SQLite alone decides whether it can.
    pub fn forget_all(&mut self) -> (result: Result<(), rusqlite::Error>)
        requires
            old(self).wf(),
        ensures
            final(self).wf(),
            final(self).root() == old(self).root(),
            result is Ok ==> final(self).idle() && final(self).kept() == empty_tables(),
            result is Err ==> final(self).kept() == old(self).kept(),
            !old(self).idle() ==> result is Err && final(self).same_as(*old(self)),
    {
        if let Err(error) = begin_immediate(&mut self.conn) {
            return Err(error);
        }
        if let Err(error) = clear_projection(&mut self.conn) {
            let undone = rollback(&mut self.conn);
            return Err(error);
        }
        self.keep_staged()
    }

    /// What the index keeps of the source under `path`, to see whether it changed.
    pub fn fingerprint(&self, path: &str) -> (result: Result<
        Option<SourceFingerprint>,
        rusqlite::Error,
    >)
        requires
            self.wf(),
        ensures
            result matches Ok(Some(print)) ==> exists|rowid: i64| #[trigger]
                stored_as(self.shown(), path@, rowid) && is_fingerprint(
                    self.shown().meetings[rowid],
                    print,
                ),
            result matches Ok(None) ==> !is_stored(self.shown(), path@),
    {
        assert(self.shown() == working_tables(self.conn));
        meeting_fingerprint(&self.conn, path)
    }

    /// Every path that the index stores; one that could not be read is none.
    pub fn paths(&self) -> (result: Result<Vec<Option<String>>, rusqlite::Error>)
        requires
            self.wf(),
        ensures
            result matches Ok(paths) ==> {
                &&& forall|i: int|
                    0 <= i < paths@.len() ==> (#[trigger] paths@[i] matches Some(path) ==> is_stored(
                        self.shown(),
                        path@,
                    ))
                &&& all_read(paths@) ==> is_listing(self.shown(), paths@)
            },
    {
        let paths = match stored_paths(&self.conn) {
            Ok(paths) => paths,
            Err(error) => {
                return Err(error);
            },
        };
        proof {
            if all_read(paths@) {
                assert forall|path: Seq<char>| #[trigger]
                    is_stored(self.shown(), path) implies is_listed(paths@, path) by {
                    let i = choose|i: int|
                        0 <= i < paths@.len() && (#[trigger] paths@[i])->0@ == path;
                    assert(paths@[i] is Some);
                }
            }
        }
        Ok(paths)
    }
}

/// Whether every path of a list could be read.
pub open spec fn all_read(paths: Seq<Option<String>>) -> bool {
    forall|i: int| 0 <= i < paths.len() ==> (#[trigger] paths[i]) is Some
}

/// Whether a list has `path`.
pub open spec fn is_listed(paths: Seq<Option<String>>, path: Seq<char>) -> bool {
    exists|i: int| 0 <= i < paths.len() && (#[trigger] paths[i] matches Some(text) && text@ == path)
}

/// Whether a list has every path that `tables` store.
pub open spec fn is_listing(tables: ProjectionTables, paths: Seq<Option<String>>) -> bool {
    forall|path: Seq<char>| #[trigger] is_stored(tables, path) ==> is_listed(paths, path)
}

/// Whether a query is more than white space and yet holds no word.
pub open spec fn finds_nothing(query: Seq<char>) -> bool {
    trimmed_of(query).len() > 0 && fts_query_of(query).len() == 0
}

/// The full-text query that a search makes: none where it lists.
pub open spec fn matching_of(query: Seq<char>) -> Option<Seq<char>> {
    if trimmed_of(query).len() == 0 {
        None
    } else {
        Some(fts_query_of(query))
    }
}

/// How many rows a search stops at.
pub open spec fn bound_of(limit: Option<usize>) -> int {
    match limit {
        Some(limit) => limit_of(limit),
        None => limit_of(usize::MAX),
    }
}

/// Whether a search of `tables` may answer with `results`.
pub open spec fn found_by(
    tables: ProjectionTables,
    query: Seq<char>,
    filters: FilterView,
    limit: Option<usize>,
    results: Seq<ResultView>,
) -> bool {
    if finds_nothing(query) {
        results.len() == 0
    } else {
        exists|rows: Seq<Option<ListedRow>>| #[trigger]
            answers(tables, filters, matching_of(query), bound_of(limit), rows) && results
                == results_of(rows)
    }
}

} // verus!
