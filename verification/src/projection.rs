//! The private in-memory SQLite database that holds the search projection: what its tables hold,
//! and each SQL statement that reads or changes them.

use vstd::prelude::*;
use rusqlite::OptionalExtension;

verus! {

/// Declares `rusqlite::Connection`.
#[verifier::external_type_specification]
#[verifier::external_body]
pub struct ExConnection(rusqlite::Connection);

/// A row of the table of meetings.
pub struct MeetingRecord {
    pub path: Seq<char>,
    pub title: Seq<char>,
    pub date: Seq<char>,
    pub content_type: Seq<char>,
    pub attendees_json: Seq<char>,
    pub recorded_by: Seq<char>,
    pub mtime_ns: i64,
    pub size_bytes: i64,
    pub body_hash: Seq<char>,
    pub indexed_at: i64,
}

/// A row of the full-text table.
pub struct TextRecord {
    pub title: Seq<char>,
    pub body: Seq<char>,
}

/// What the projection's three tables hold. Rows of the first two are found by their rowid; the
/// third pairs a meeting's rowid with an attendee's name in lower case.
pub struct ProjectionTables {
    pub meetings: Map<i64, MeetingRecord>,
    pub texts: Map<i64, TextRecord>,
    pub attendees: Set<(i64, Seq<char>)>,
}

/// What a connection holds: nothing before the projection's tables exist; then what was last
/// committed and, while a transaction is open, what that transaction has made of it.
pub uninterp spec fn projection_states(conn: rusqlite::Connection) -> Seq<ProjectionTables>;

/// The rows of a connection's `live_doc` table.
pub uninterp spec fn live_documents(conn: rusqlite::Connection) -> Seq<TextRecord>;

/// What a connection answers to the `PRAGMA` queries that read its memory settings.
pub uninterp spec fn pragma_answers(conn: rusqlite::Connection) -> Map<Seq<char>, i64>;

/// FTS5's `snippet` of the body of one document for a query: none where the document does not
/// match. The document and the query alone decide it.
pub uninterp spec fn fts_snippet(
    title: Seq<char>,
    body: Seq<char>,
    query: Seq<char>,
) -> Option<Seq<char>>;

/// Tables without a row.
pub open spec fn empty_tables() -> ProjectionTables {
    ProjectionTables { meetings: Map::empty(), texts: Map::empty(), attendees: Set::empty() }
}

/// What the connection's readers see.
pub open spec fn working_tables(conn: rusqlite::Connection) -> ProjectionTables {
    projection_states(conn).last()
}

/// What was last committed.
pub open spec fn committed_tables(conn: rusqlite::Connection) -> ProjectionTables {
    projection_states(conn)[0]
}

/// Whether a transaction is open.
pub open spec fn in_transaction(conn: rusqlite::Connection) -> bool {
    projection_states(conn).len() == 2
}

/// Whether the projection's tables exist and no transaction is open.
pub open spec fn is_idle(conn: rusqlite::Connection) -> bool {
    projection_states(conn).len() == 1
}

/// Nothing was committed between `before` and `after`.
pub open spec fn nothing_committed(
    before: rusqlite::Connection,
    after: rusqlite::Connection,
) -> bool {
    &&& 1 <= projection_states(after).len() <= 2
    &&& committed_tables(after) == committed_tables(before)
}

/// The transaction that is open in `before` has gone on to `tables` in `after`.
pub open spec fn transaction_at(
    before: rusqlite::Connection,
    after: rusqlite::Connection,
    tables: ProjectionTables,
) -> bool {
    projection_states(after) == seq![committed_tables(before), tables]
}

/// The rowids of the meetings stored under `path`.
pub open spec fn stored_as(tables: ProjectionTables, path: Seq<char>, rowid: i64) -> bool {
    tables.meetings.contains_key(rowid) && tables.meetings[rowid].path == path
}

/// Whether a meeting is stored under `path`.
pub open spec fn is_stored(tables: ProjectionTables, path: Seq<char>) -> bool {
    exists|rowid: i64| stored_as(tables, path, rowid)
}

/// A row to store in the table of meetings.
pub struct MeetingRow {
    pub path: String,
    pub title: String,
    pub date: String,
    pub content_type: String,
    pub attendees_json: String,
    pub recorded_by: String,
    pub mtime_ns: i64,
    pub size_bytes: i64,
    pub body_hash: String,
    pub indexed_at: i64,
}

impl View for MeetingRow {
    type V = MeetingRecord;

    open spec fn view(&self) -> MeetingRecord {
        MeetingRecord {
            path: self.path@,
            title: self.title@,
            date: self.date@,
            content_type: self.content_type@,
            attendees_json: self.attendees_json@,
            recorded_by: self.recorded_by@,
            mtime_ns: self.mtime_ns,
            size_bytes: self.size_bytes,
            body_hash: self.body_hash@,
            indexed_at: self.indexed_at,
        }
    }
}

/// `Connection::open_in_memory` gives a new private database, which has no tables.
#[verifier::external_body]
pub(crate) fn open_in_memory() -> (result: Result<rusqlite::Connection, rusqlite::Error>)
    ensures
        result matches Ok(conn) ==> projection_states(conn).len() == 0 && live_documents(conn).len()
            == 0,
{
    rusqlite::Connection::open_in_memory()
}

/// `Connection::execute_batch` on the settings that keep the database and its temporary tables in
/// bounded memory. They touch no table.
#[verifier::external_body]
pub(crate) fn apply_memory_settings(conn: &mut rusqlite::Connection) -> (result: Result<
    (),
    rusqlite::Error,
>)
    ensures
        result is Ok ==> {
            &&& projection_states(*final(conn)) == projection_states(*old(conn))
            &&& live_documents(*final(conn)) == live_documents(*old(conn))
        },
{
    conn.execute_batch(
        "PRAGMA page_size=4096;
         PRAGMA max_page_count=32768;
         PRAGMA cache_size=-32768;
         PRAGMA temp_store=MEMORY;
         PRAGMA temp.page_size=4096;
         PRAGMA temp.max_page_count=16384;
         PRAGMA temp.cache_size=-16384;",
    )
}

/// The settings of a database that [`read_pragma`] reads.
pub open spec fn is_memory_pragma(query: Seq<char>) -> bool {
    ||| query == "PRAGMA temp_store"@
    ||| query == "PRAGMA page_size"@
    ||| query == "PRAGMA max_page_count"@
    ||| query == "PRAGMA temp.max_page_count"@
}

/// `Connection::query_row` on a `PRAGMA` query that reads a setting, an integer.
#[verifier::external_body]
pub(crate) fn read_pragma(conn: &rusqlite::Connection, query: &str) -> (result: Result<
    i64,
    rusqlite::Error,
>)
    requires
        is_memory_pragma(query@),
    ensures
        result matches Ok(value) ==> pragma_answers(*conn)[query@] == value,
{
    conn.query_row(query, [], |row| row.get(0))
}

/// `Connection::execute_batch` on the projection's schema: the three tables, without rows. A
/// path is stored once, and a meeting that is deleted takes its attendees with it.
#[verifier::external_body]
pub(crate) fn create_projection(conn: &mut rusqlite::Connection) -> (result: Result<
    (),
    rusqlite::Error,
>)
    requires
        projection_states(*old(conn)).len() == 0,
    ensures
        result is Ok ==> projection_states(*final(conn)) == seq![empty_tables()],
{
    conn.execute_batch(
        "PRAGMA foreign_keys=ON;
         PRAGMA secure_delete=ON;
         CREATE TABLE meetings (
             rowid INTEGER PRIMARY KEY,
             path TEXT NOT NULL UNIQUE,
             title TEXT NOT NULL,
             date TEXT NOT NULL,
             content_type TEXT NOT NULL,
             attendees_json TEXT NOT NULL,
             recorded_by TEXT NOT NULL,
             mtime_ns INTEGER NOT NULL,
             size_bytes INTEGER NOT NULL,
             body_hash TEXT NOT NULL,
             indexed_at INTEGER NOT NULL
         );
         CREATE TABLE meeting_attendees (
             meeting_rowid INTEGER NOT NULL REFERENCES meetings(rowid) ON DELETE CASCADE,
             attendee_lower TEXT NOT NULL,
             PRIMARY KEY (meeting_rowid, attendee_lower)
         );
         CREATE VIRTUAL TABLE meetings_fts USING fts5(
             title,
             body,
             tokenize='porter unicode61 remove_diacritics 2',
             prefix='2 3 4'
         );",
    )
}

/// `BEGIN IMMEDIATE`: a transaction opens on what was last committed. With one open already it
/// is refused, and a refusal changes nothing.
#[verifier::external_body]
pub(crate) fn begin_immediate(conn: &mut rusqlite::Connection) -> (result: Result<
    (),
    rusqlite::Error,
>)
    requires
        1 <= projection_states(*old(conn)).len() <= 2,
    ensures
        result is Ok ==> is_idle(*old(conn)) && transaction_at(
            *old(conn),
            *final(conn),
            committed_tables(*old(conn)),
        ),
        result is Err ==> projection_states(*final(conn)) == projection_states(*old(conn)),
{
    conn.execute_batch("BEGIN IMMEDIATE")
}

/// `COMMIT`: what the transaction made becomes what is committed. A refusal commits nothing.
#[verifier::external_body]
pub(crate) fn commit(conn: &mut rusqlite::Connection) -> (result: Result<(), rusqlite::Error>)
    requires
        1 <= projection_states(*old(conn)).len() <= 2,
    ensures
        result is Ok ==> in_transaction(*old(conn)) && projection_states(*final(conn)) == seq![
            working_tables(*old(conn)),
        ],
        result is Err ==> nothing_committed(*old(conn), *final(conn)),
{
    conn.execute_batch("COMMIT")
}

/// `ROLLBACK`: what the transaction made is forgotten. A refusal commits nothing.
#[verifier::external_body]
pub(crate) fn rollback(conn: &mut rusqlite::Connection) -> (result: Result<(), rusqlite::Error>)
    requires
        1 <= projection_states(*old(conn)).len() <= 2,
    ensures
        result is Ok ==> projection_states(*final(conn)) == seq![committed_tables(*old(conn))],
        nothing_committed(*old(conn), *final(conn)),
{
    conn.execute_batch("ROLLBACK")
}

/// `DELETE` of every row of the three tables, inside a transaction.
#[verifier::external_body]
pub(crate) fn clear_projection(conn: &mut rusqlite::Connection) -> (result: Result<
    (),
    rusqlite::Error,
>)
    requires
        in_transaction(*old(conn)),
    ensures
        result is Ok ==> transaction_at(*old(conn), *final(conn), empty_tables()),
        nothing_committed(*old(conn), *final(conn)),
{
    conn.execute_batch(
        "DELETE FROM meeting_attendees;
         DELETE FROM meetings_fts;
         DELETE FROM meetings;",
    )
}

/// `PRAGMA wal_checkpoint(TRUNCATE)`, which removes older frames of the write-ahead log and
/// changes no row.
#[verifier::external_body]
pub(crate) fn truncate_log(conn: &mut rusqlite::Connection) -> (result: Result<
    (),
    rusqlite::Error,
>)
    ensures
        projection_states(*final(conn)) == projection_states(*old(conn)),
{
    conn.execute_batch("PRAGMA wal_checkpoint(TRUNCATE);")
}

/// `INSERT` of a meeting or, where its path is stored, `UPDATE` of that row, inside a
/// transaction. It yields the row's rowid: that of the stored row, or a new one.
#[verifier::external_body]
pub(crate) fn upsert_meeting(conn: &mut rusqlite::Connection, row: &MeetingRow) -> (result: Result<
    i64,
    rusqlite::Error,
>)
    requires
        in_transaction(*old(conn)),
    ensures
        result matches Ok(rowid) ==> {
            let tables = working_tables(*old(conn));
            &&& transaction_at(
                *old(conn),
                *final(conn),
                (ProjectionTables { meetings: tables.meetings.insert(rowid, row@), ..tables }),
            )
            &&& if is_stored(tables, row.path@) {
                stored_as(tables, row.path@, rowid)
            } else {
                !tables.meetings.contains_key(rowid)
            }
        },
        nothing_committed(*old(conn), *final(conn)),
{
    conn.query_row(
        "INSERT INTO meetings
             (path, title, date, content_type, attendees_json, recorded_by,
              mtime_ns, size_bytes, body_hash, indexed_at)
         VALUES (?, ?, ?, ?, ?, ?, ?, ?, ?, ?)
         ON CONFLICT(path) DO UPDATE SET
             title = excluded.title, date = excluded.date,
             content_type = excluded.content_type, attendees_json = excluded.attendees_json,
             recorded_by = excluded.recorded_by, mtime_ns = excluded.mtime_ns,
             size_bytes = excluded.size_bytes, body_hash = excluded.body_hash,
             indexed_at = excluded.indexed_at
         RETURNING rowid",
        (&row.path, &row.title, &row.date, &row.content_type, &row.attendees_json,
            &row.recorded_by, row.mtime_ns, row.size_bytes, &row.body_hash, row.indexed_at),
        |r| r.get(0),
    )
}

/// `DELETE` of a row of the full-text table, inside a transaction.
#[verifier::external_body]
pub(crate) fn delete_text(conn: &mut rusqlite::Connection, rowid: i64) -> (result: Result<
    usize,
    rusqlite::Error,
>)
    requires
        in_transaction(*old(conn)),
    ensures
        result is Ok ==> {
            let tables = working_tables(*old(conn));
            transaction_at(
                *old(conn),
                *final(conn),
                (ProjectionTables { texts: tables.texts.remove(rowid), ..tables }),
            )
        },
        nothing_committed(*old(conn), *final(conn)),
{
    conn.execute("DELETE FROM meetings_fts WHERE rowid = ?", [rowid])
}

/// `INSERT` of a row of the full-text table, inside a transaction.
#[verifier::external_body]
pub(crate) fn insert_text(
    conn: &mut rusqlite::Connection,
    rowid: i64,
    title: &str,
    body: &str,
) -> (result: Result<usize, rusqlite::Error>)
    requires
        in_transaction(*old(conn)),
        !working_tables(*old(conn)).texts.contains_key(rowid),
    ensures
        result is Ok ==> {
            let tables = working_tables(*old(conn));
            let text = TextRecord { title: title@, body: body@ };
            transaction_at(
                *old(conn),
                *final(conn),
                (ProjectionTables { texts: tables.texts.insert(rowid, text), ..tables }),
            )
        },
        nothing_committed(*old(conn), *final(conn)),
{
    conn.execute(
        "INSERT INTO meetings_fts (rowid, title, body) VALUES (?, ?, ?)",
        (rowid, title, body),
    )
}

/// `attendees` without those of one meeting.
pub open spec fn without_attendees(
    attendees: Set<(i64, Seq<char>)>,
    rowid: i64,
) -> Set<(i64, Seq<char>)> {
    attendees.filter(|entry: (i64, Seq<char>)| entry.0 != rowid)
}

/// `DELETE` of a meeting's attendees, inside a transaction.
#[verifier::external_body]
pub(crate) fn delete_attendees(conn: &mut rusqlite::Connection, rowid: i64) -> (result: Result<
    usize,
    rusqlite::Error,
>)
    requires
        in_transaction(*old(conn)),
    ensures
        result is Ok ==> {
            let tables = working_tables(*old(conn));
            transaction_at(
                *old(conn),
                *final(conn),
                (ProjectionTables {
                    attendees: without_attendees(tables.attendees, rowid),
                    ..tables
                }),
            )
        },
        nothing_committed(*old(conn), *final(conn)),
{
    conn.execute("DELETE FROM meeting_attendees WHERE meeting_rowid = ?", [rowid])
}

/// `INSERT OR IGNORE` of one attendee of a meeting, inside a transaction.
#[verifier::external_body]
pub(crate) fn insert_attendee(
    conn: &mut rusqlite::Connection,
    rowid: i64,
    attendee_lower: &str,
) -> (result: Result<usize, rusqlite::Error>)
    requires
        in_transaction(*old(conn)),
    ensures
        result is Ok ==> {
            let tables = working_tables(*old(conn));
            transaction_at(
                *old(conn),
                *final(conn),
                (ProjectionTables {
                    attendees: tables.attendees.insert((rowid, attendee_lower@)),
                    ..tables
                }),
            )
        },
        nothing_committed(*old(conn), *final(conn)),
{
    conn.execute(
        "INSERT OR IGNORE INTO meeting_attendees (meeting_rowid, attendee_lower)
         VALUES (?, ?)",
        (rowid, attendee_lower),
    )
}

/// `DELETE` of a meeting, inside a transaction; its attendees go with it.
#[verifier::external_body]
pub(crate) fn delete_meeting(conn: &mut rusqlite::Connection, rowid: i64) -> (result: Result<
    usize,
    rusqlite::Error,
>)
    requires
        in_transaction(*old(conn)),
    ensures
        result is Ok ==> {
            let tables = working_tables(*old(conn));
            transaction_at(
                *old(conn),
                *final(conn),
                (ProjectionTables {
                    meetings: tables.meetings.remove(rowid),
                    attendees: without_attendees(tables.attendees, rowid),
                    ..tables
                }),
            )
        },
        nothing_committed(*old(conn), *final(conn)),
{
    conn.execute("DELETE FROM meetings WHERE rowid = ?", [rowid])
}

/// `SELECT EXISTS` of a meeting stored under `path`.
#[verifier::external_body]
pub(crate) fn meeting_exists(conn: &rusqlite::Connection, path: &str) -> (result: Result<
    bool,
    rusqlite::Error,
>)
    requires
        1 <= projection_states(*conn).len() <= 2,
    ensures
        result matches Ok(found) ==> found == is_stored(working_tables(*conn), path@),
{
    conn.query_row(
        "SELECT EXISTS(SELECT 1 FROM meetings WHERE path = ?)",
        [path],
        |r| r.get(0),
    )
}

/// `SELECT` of the rowid of the meeting stored under `path`.
#[verifier::external_body]
pub(crate) fn meeting_rowid(conn: &rusqlite::Connection, path: &str) -> (result: Result<
    Option<i64>,
    rusqlite::Error,
>)
    requires
        1 <= projection_states(*conn).len() <= 2,
    ensures
        result matches Ok(Some(rowid)) ==> stored_as(working_tables(*conn), path@, rowid),
        result matches Ok(None) ==> !is_stored(working_tables(*conn), path@),
{
    conn.query_row("SELECT rowid FROM meetings WHERE path = ?", [path], |r| r.get(0)).optional()
}

/// What the index keeps of a source file to see whether it changed.
pub struct SourceFingerprint {
    pub mtime_ns: i64,
    pub size_bytes: i64,
    pub body_hash: String,
}

/// Whether `print` is the fingerprint of a row.
pub open spec fn is_fingerprint(row: MeetingRecord, print: SourceFingerprint) -> bool {
    &&& row.mtime_ns == print.mtime_ns
    &&& row.size_bytes == print.size_bytes
    &&& row.body_hash == print.body_hash@
}

/// `SELECT` of the fingerprint of the meeting stored under `path`.
#[verifier::external_body]
pub(crate) fn meeting_fingerprint(conn: &rusqlite::Connection, path: &str) -> (result: Result<
    Option<SourceFingerprint>,
    rusqlite::Error,
>)
    requires
        1 <= projection_states(*conn).len() <= 2,
    ensures
        result matches Ok(Some(print)) ==> exists|rowid: i64| #[trigger]
            stored_as(working_tables(*conn), path@, rowid) && is_fingerprint(
                working_tables(*conn).meetings[rowid],
                print,
            ),
        result matches Ok(None) ==> !is_stored(working_tables(*conn), path@),
{
    conn.query_row(
        "SELECT mtime_ns, size_bytes, body_hash FROM meetings WHERE path = ?",
        [path],
        |r| Ok(SourceFingerprint {
            mtime_ns: r.get(0)?,
            size_bytes: r.get(1)?,
            body_hash: r.get(2)?,
        }),
    ).optional()
}

/// `SELECT` of every stored path. A row that could not be read is none; where every row was
/// read, each stored path is there.
#[verifier::external_body]
pub(crate) fn stored_paths(conn: &rusqlite::Connection) -> (result: Result<
    Vec<Option<String>>,
    rusqlite::Error,
>)
    requires
        1 <= projection_states(*conn).len() <= 2,
    ensures
        result matches Ok(paths) ==> {
            &&& forall|i: int|
                0 <= i < paths@.len() ==> (#[trigger] paths@[i] matches Some(path) ==> is_stored(
                    working_tables(*conn),
                    path@,
                ))
            &&& (forall|i: int| 0 <= i < paths@.len() ==> (#[trigger] paths@[i]) is Some)
                ==> forall|path: Seq<char>|
                #[trigger]
                is_stored(working_tables(*conn), path) ==> exists|i: int|
                    0 <= i < paths@.len() && (#[trigger] paths@[i])->0@ == path
        },
{
    let mut statement = conn.prepare("SELECT path FROM meetings")?;
    let rows = statement.query_map([], |r| r.get::<_, String>(0))?;
    Ok(rows.map(|row| row.ok()).collect())
}

/// `CREATE VIRTUAL TABLE live_doc`: a full-text table with the tokenizer of the projection's.
#[verifier::external_body]
pub(crate) fn create_live_table(conn: &mut rusqlite::Connection) -> (result: Result<
    (),
    rusqlite::Error,
>)
    requires
        live_documents(*old(conn)).len() == 0,
    ensures
        result is Ok ==> live_documents(*final(conn)).len() == 0,
{
    conn.execute_batch(
        "CREATE VIRTUAL TABLE live_doc USING fts5(
             title,
             body,
             tokenize='porter unicode61 remove_diacritics 2',
             prefix='2 3 4'
         );",
    )
}

/// `INSERT` of one document into `live_doc`.
#[verifier::external_body]
pub(crate) fn insert_live_document(
    conn: &mut rusqlite::Connection,
    title: &str,
    body: &str,
) -> (result: Result<usize, rusqlite::Error>)
    ensures
        result is Ok ==> live_documents(*final(conn)) == live_documents(*old(conn)).push(
            TextRecord { title: title@, body: body@ },
        ),
{
    conn.execute("INSERT INTO live_doc(title, body) VALUES (?1, ?2)", (title, body))
}

/// `SELECT snippet` of the one document in `live_doc`, where it matches `query`.
#[verifier::external_body]
pub(crate) fn live_snippet(conn: &rusqlite::Connection, query: &str) -> (result: Result<
    Option<String>,
    rusqlite::Error,
>)
    requires
        live_documents(*conn).len() == 1,
    ensures
        result matches Ok(snippet) ==> {
            let document = live_documents(*conn)[0];
            match snippet {
                Some(text) => fts_snippet(document.title, document.body, query@) == Some(text@),
                None => fts_snippet(document.title, document.body, query@) is None,
            }
        },
{
    conn.query_row(
        "SELECT snippet(live_doc, 1, char(2), char(3), '…', 24)
         FROM live_doc WHERE live_doc MATCH ?1",
        [query],
        |row| row.get(0),
    ).optional()
}

} // verus!
