//! The two search queries: their text, the values they bind, and which rows they answer with.

use vstd::prelude::*;
use crate::errors::SearchIndexError;
use crate::paths::FilePath;
use crate::projection::{fts_snippet, projection_states, working_tables, ProjectionTables};
use crate::text::{ascii_small, chars_of, joined, lowercase, text_precedes, unicode_lowercase};
use vstd::string::StrSliceExecFns;
use vstd::utf8::encode_utf8;

verus! {

/// What a caller narrows a search by.
pub struct SearchFilters {
    pub content_type: Option<String>,
    pub since: Option<String>,
    pub attendee: Option<String>,
    pub recorded_by: Option<String>,
    pub include_restricted: bool,
}

impl Default for SearchFilters {
    /// No filter, and restricted meetings left out.
    fn default() -> (filters: Self)
        ensures
            filters@ == no_filters(),
    {
        SearchFilters {
            content_type: None,
            since: None,
            attendee: None,
            recorded_by: None,
            include_restricted: false,
        }
    }
}

/// What [`SearchFilters`] hold.
pub struct FilterView {
    pub content_type: Option<Seq<char>>,
    pub since: Option<Seq<char>>,
    pub attendee: Option<Seq<char>>,
    pub recorded_by: Option<Seq<char>>,
    pub include_restricted: bool,
}

/// The filters that let every unrestricted meeting through.
pub open spec fn no_filters() -> FilterView {
    FilterView {
        content_type: None,
        since: None,
        attendee: None,
        recorded_by: None,
        include_restricted: false,
    }
}

/// The characters of an optional text.
pub open spec fn optional_text(text: Option<String>) -> Option<Seq<char>> {
    match text {
        Some(text) => Some(text@),
        None => None,
    }
}

impl View for SearchFilters {
    type V = FilterView;

    open spec fn view(&self) -> FilterView {
        FilterView {
            content_type: optional_text(self.content_type),
            since: optional_text(self.since),
            attendee: optional_text(self.attendee),
            recorded_by: optional_text(self.recorded_by),
            include_restricted: self.include_restricted,
        }
    }
}

/// The texts in a list.
pub open spec fn texts_view(texts: Seq<String>) -> Seq<Seq<char>> {
    Seq::new(texts.len(), |i: int| texts[i]@)
}

/// `text` up to its first NUL, which is all that SQLite's `LIKE` reads.
pub open spec fn until_nul(text: Seq<char>) -> Seq<char>
    decreases text.len(),
{
    if text.len() == 0 || text[0] == '\0' {
        Seq::empty()
    } else {
        seq![text[0]] + until_nul(text.drop_first())
    }
}

/// SQLite's `LIKE`: `%` stands for any characters, `_` for one, and ASCII letters match in either
/// case.
pub open spec fn like_matches(pattern: Seq<char>, text: Seq<char>) -> bool
    decreases pattern.len(), text.len(),
{
    if pattern.len() == 0 {
        text.len() == 0
    } else if pattern[0] == '%' {
        like_matches(pattern.drop_first(), text) || (text.len() > 0 && like_matches(
            pattern,
            text.drop_first(),
        ))
    } else {
        &&& text.len() > 0
        &&& pattern[0] == '_' || ascii_small(pattern[0]) == ascii_small(text[0])
        &&& like_matches(pattern.drop_first(), text.drop_first())
    }
}

/// `text LIKE pattern`.
pub open spec fn is_like(text: Seq<char>, pattern: Seq<char>) -> bool {
    like_matches(until_nul(pattern), until_nul(text))
}

/// The pattern for a text that contains `part`.
pub open spec fn containing(part: Seq<char>) -> Seq<char> {
    "%"@ + part + "%"@
}

/// Whether the meeting at `rowid` passes the filters.
pub open spec fn passes(tables: ProjectionTables, filters: FilterView, rowid: i64) -> bool {
    let meeting = tables.meetings[rowid];
    &&& filters.content_type matches Some(kind) ==> meeting.content_type == kind
    &&& filters.since matches Some(since) ==> !text_precedes(meeting.date, since)
    &&& filters.recorded_by matches Some(name) ==> is_like(meeting.recorded_by, containing(name))
    &&& filters.attendee matches Some(name) ==> exists|attendee: Seq<char>|
        #[trigger] tables.attendees.contains((rowid, attendee)) && is_like(
            attendee,
            containing(unicode_lowercase(name)),
        )
}

/// The snippet of the document at `rowid` for a full-text query.
pub open spec fn stored_snippet(tables: ProjectionTables, query: Seq<char>, rowid: i64) -> Option<
    Seq<char>,
> {
    fts_snippet(tables.texts[rowid].title, tables.texts[rowid].body, query)
}

/// Whether a search selects the meeting at `rowid`: one that passes the filters and, where there
/// is a full-text query, matches it.
pub open spec fn selects(
    tables: ProjectionTables,
    filters: FilterView,
    query: Option<Seq<char>>,
    rowid: i64,
) -> bool {
    &&& tables.meetings.contains_key(rowid)
    &&& passes(tables, filters, rowid)
    &&& query matches Some(query) ==> tables.texts.contains_key(rowid) && stored_snippet(
        tables,
        query,
        rowid,
    ) is Some
}

/// A row that a search query answers with.
pub struct ListedRow {
    pub path: String,
    pub title: String,
    pub date: String,
    pub content_type: String,
    pub snippet: String,
}

/// What a [`ListedRow`] holds.
pub struct ListedView {
    pub path: Seq<char>,
    pub title: Seq<char>,
    pub date: Seq<char>,
    pub content_type: Seq<char>,
    pub snippet: Seq<char>,
}

impl View for ListedRow {
    type V = ListedView;

    open spec fn view(&self) -> ListedView {
        ListedView {
            path: self.path@,
            title: self.title@,
            date: self.date@,
            content_type: self.content_type@,
            snippet: self.snippet@,
        }
    }
}

/// The row that stands for the meeting at `rowid`.
pub open spec fn row_of(
    tables: ProjectionTables,
    query: Option<Seq<char>>,
    rowid: i64,
) -> ListedView {
    let meeting = tables.meetings[rowid];
    ListedView {
        path: meeting.path,
        title: meeting.title,
        date: meeting.date,
        content_type: meeting.content_type,
        snippet: match query {
            Some(query) => stored_snippet(tables, query, rowid)->0,
            None => Seq::empty(),
        },
    }
}

/// `rows` is the row of each of `rowids`, which are different meetings that the search selects: as
/// many as `limit` lets through, which is all of them where it is negative. Without a query they
/// are the latest ones, the latest first.
pub open spec fn lists(
    tables: ProjectionTables,
    filters: FilterView,
    query: Option<Seq<char>>,
    limit: int,
    rows: Seq<ListedView>,
    rowids: Seq<i64>,
) -> bool {
    &&& rowids.len() == rows.len()
    &&& rowids.no_duplicates()
    &&& forall|i: int|
        0 <= i < rowids.len() ==> selects(tables, filters, query, #[trigger] rowids[i]) && rows[i]
            == row_of(tables, query, rowids[i])
    &&& limit >= 0 ==> rows.len() <= limit
    &&& limit < 0 || rows.len() < limit ==> forall|rowid: i64|
        selects(tables, filters, query, rowid) ==> #[trigger] rowids.contains(rowid)
    &&& query is None ==> forall|i: int, j: int|
        0 <= i < j < rows.len() ==> !text_precedes(#[trigger] rows[i].date, #[trigger] rows[j].date)
    &&& query is None ==> forall|i: int, rowid: i64|
        0 <= i < rows.len() && selects(tables, filters, query, rowid) && !rowids.contains(rowid)
            ==> !text_precedes(#[trigger] rows[i].date, #[trigger] tables.meetings[rowid].date)
}

/// Whether rows come one after another until one cannot be read, which then is the last.
pub open spec fn is_read_in_turn(rows: Seq<Option<ListedRow>>) -> bool {
    forall|i: int| 0 <= i < rows.len() - 1 ==> (#[trigger] rows[i]) is Some
}

/// How many of the rows could be read.
pub open spec fn read_count(rows: Seq<Option<ListedRow>>) -> int {
    if rows.len() > 0 && rows.last() is None {
        rows.len() - 1
    } else {
        rows.len() as int
    }
}

/// Whether the rows are those of a whole listing, or the first of them where one could not be read.
pub open spec fn starts_listing(rows: Seq<Option<ListedRow>>, whole: Seq<ListedView>) -> bool {
    &&& is_read_in_turn(rows)
    &&& read_count(rows) <= whole.len()
    &&& read_count(rows) == rows.len() ==> rows.len() == whole.len()
    &&& forall|i: int| 0 <= i < read_count(rows) ==> (#[trigger] rows[i])->0@ == whole[i]
}

/// What a search query answers. A row that could not be read is none, and ends the answer: what
/// came before it is the start of a listing.
pub open spec fn answers(
    tables: ProjectionTables,
    filters: FilterView,
    query: Option<Seq<char>>,
    limit: int,
    rows: Seq<Option<ListedRow>>,
) -> bool {
    exists|whole: Seq<ListedView>, rowids: Seq<i64>| #[trigger]
        lists(tables, filters, query, limit, whole, rowids) && starts_listing(rows, whole)
}

/// The conditions that the filters add to a query.
pub open spec fn filter_conditions(filters: FilterView) -> Seq<char> {
    let kind = if filters.content_type is Some {
        " AND m.content_type = ?"@
    } else {
        Seq::empty()
    };
    let since = if filters.since is Some {
        " AND m.date >= ?"@
    } else {
        Seq::empty()
    };
    let recorded_by = if filters.recorded_by is Some {
        " AND m.recorded_by LIKE ?"@
    } else {
        Seq::empty()
    };
    let attendee = if filters.attendee is Some {
        " AND EXISTS (SELECT 1 FROM meeting_attendees a
                           WHERE a.meeting_rowid = m.rowid
                             AND a.attendee_lower LIKE ?)"@
    } else {
        Seq::empty()
    };
    kind + since + recorded_by + attendee
}

/// The values that those conditions bind.
pub open spec fn filter_values(filters: FilterView) -> Seq<Seq<char>> {
    let kind = match filters.content_type {
        Some(kind) => seq![kind],
        None => Seq::empty(),
    };
    let since = match filters.since {
        Some(since) => seq![since],
        None => Seq::empty(),
    };
    let recorded_by = match filters.recorded_by {
        Some(name) => seq![containing(name)],
        None => Seq::empty(),
    };
    let attendee = match filters.attendee {
        Some(name) => seq![containing(unicode_lowercase(name))],
        None => Seq::empty(),
    };
    kind + since + recorded_by + attendee
}

/// The query that lists meetings.
pub open spec fn list_query(filters: FilterView) -> Seq<char> {
    "SELECT m.path, m.title, m.date, m.content_type
         FROM meetings m
         WHERE 1=1"@ + filter_conditions(filters) + " ORDER BY m.date DESC LIMIT ?"@
}

/// The query that finds meetings by their text.
pub open spec fn match_query(filters: FilterView) -> Seq<char> {
    "SELECT m.path, m.title, m.date, m.content_type,
                snippet(meetings_fts, 1, char(2), char(3), '…', 24) AS snippet
         FROM meetings_fts
         JOIN meetings m ON m.rowid = meetings_fts.rowid
         WHERE meetings_fts MATCH ?"@ + filter_conditions(filters)
        + " ORDER BY rank, m.date DESC LIMIT ?"@
}

/// The values that the full-text query binds.
pub open spec fn match_values(query: Seq<char>, filters: FilterView) -> Seq<Seq<char>> {
    seq![query] + filter_values(filters)
}

/// `Connection::prepare` and `Statement::query_map` on a listing query with its values bound, then
/// the limit. A step that fails ends the rows.
#[verifier::external_body]
pub(crate) fn run_listing(
    conn: &rusqlite::Connection,
    sql: &str,
    values: &Vec<String>,
    limit: i64,
) -> (result: Result<Vec<Option<ListedRow>>, rusqlite::Error>)
    requires
        1 <= projection_states(*conn).len() <= 2,
    ensures
        result matches Ok(rows) ==> forall|filters: FilterView|
            sql@ == #[trigger] list_query(filters) && texts_view(values@) == filter_values(filters)
                ==> answers(working_tables(*conn), filters, None, limit as int, rows@),
{
    let mut statement = conn.prepare(sql)?;
    let bound = values.iter().map(|v| v as &dyn rusqlite::ToSql).chain([&limit as _]);
    let rows = statement.query_map(rusqlite::params_from_iter(bound), |r| Ok(ListedRow {
        path: r.get(0)?,
        title: r.get(1)?,
        date: r.get(2)?,
        content_type: r.get(3)?,
        snippet: String::new(),
    }))?;
    Ok(rows.map(|row| row.ok()).collect())
}

/// `Connection::prepare` and `Statement::query_map` on a full-text query with its values bound,
/// the full-text expression first and the limit last. A step that fails ends the rows. In which
/// order they come is left unsaid: FTS5 ranks them by a floating-point score.
#[verifier::external_body]
pub(crate) fn run_matching(
    conn: &rusqlite::Connection,
    sql: &str,
    values: &Vec<String>,
    limit: i64,
) -> (result: Result<Vec<Option<ListedRow>>, rusqlite::Error>)
    requires
        1 <= projection_states(*conn).len() <= 2,
    ensures
        result matches Ok(rows) ==> forall|filters: FilterView, query: Seq<char>|
            sql@ == match_query(filters) && texts_view(values@) == #[trigger] match_values(
                query,
                filters,
            ) ==> answers(
                working_tables(*conn),
                filters,
                Some(query),
                limit as int,
                rows@,
            ),
{
    let mut statement = conn.prepare(sql)?;
    let bound = values.iter().map(|v| v as &dyn rusqlite::ToSql).chain([&limit as _]);
    let rows = statement.query_map(rusqlite::params_from_iter(bound), |r| Ok(ListedRow {
        path: r.get(0)?,
        title: r.get(1)?,
        date: r.get(2)?,
        content_type: r.get(3)?,
        snippet: r.get(4)?,
    }))?;
    Ok(rows.map(|row| row.ok()).collect())
}

/// The mark that FTS5 is told to set before a match in a snippet.
pub const SNIPPET_OPEN: char = '\u{2}';

/// The mark that FTS5 is told to set after a match in a snippet.
pub const SNIPPET_CLOSE: char = '\u{3}';

/// `text` without the marks around matches.
pub open spec fn without_marks(text: Seq<char>) -> Seq<char>
    decreases text.len(),
{
    if text.len() == 0 {
        Seq::empty()
    } else if text.last() == SNIPPET_OPEN || text.last() == SNIPPET_CLOSE {
        without_marks(text.drop_last())
    } else {
        without_marks(text.drop_last()).push(text.last())
    }
}

/// Removes the marks around matches.
pub fn strip_marks(text: &str) -> (plain: String)
    ensures
        plain@ == without_marks(text@),
{
    let chars = chars_of(text);
    let mut plain = String::new();
    let mut i: usize = 0;
    while i < chars.len()
        invariant
            chars@ == text@,
            i <= chars@.len(),
            plain@ == without_marks(text@.take(i as int)),
        decreases chars@.len() - i,
    {
        let c = chars[i];
        assert(text@.take(i + 1).drop_last() =~= text@.take(i as int));
        if c != SNIPPET_OPEN && c != SNIPPET_CLOSE {
            plain.push(c);
        }
        i = i + 1;
    }
    assert(text@.take(i as int) =~= text@);
    plain
}

/// A snippet that was stripped holds no mark.
pub proof fn stripped_text_has_no_mark(text: Seq<char>)
    ensures
        !without_marks(text).contains(SNIPPET_OPEN),
        !without_marks(text).contains(SNIPPET_CLOSE),
    decreases text.len(),
{
    if text.len() > 0 {
        stripped_text_has_no_mark(text.drop_last());
        let before = without_marks(text.drop_last());
        let after = without_marks(text);
        if after.contains(SNIPPET_OPEN) {
            let i = after.index_of(SNIPPET_OPEN);
            assert(i < before.len() ==> before[i] == SNIPPET_OPEN);
        }
        if after.contains(SNIPPET_CLOSE) {
            let i = after.index_of(SNIPPET_CLOSE);
            assert(i < before.len() ==> before[i] == SNIPPET_CLOSE);
        }
    }
}

/// A meeting that a search found.
pub struct SearchResult {
    pub path: FilePath,
    pub title: String,
    pub date: String,
    pub content_type: String,
    pub snippet: String,
    pub matched_via_alias: Option<String>,
}

/// What a [`SearchResult`] holds.
pub struct ResultView {
    pub path: Seq<u8>,
    pub title: Seq<char>,
    pub date: Seq<char>,
    pub content_type: Seq<char>,
    pub snippet: Seq<char>,
    pub matched_via_alias: Option<Seq<char>>,
}

impl View for SearchResult {
    type V = ResultView;

    open spec fn view(&self) -> ResultView {
        ResultView {
            path: self.path@,
            title: self.title@,
            date: self.date@,
            content_type: self.content_type@,
            snippet: self.snippet@,
            matched_via_alias: optional_text(self.matched_via_alias),
        }
    }
}

/// What a list of results holds.
pub open spec fn results_view(results: Seq<SearchResult>) -> Seq<ResultView> {
    Seq::new(results.len(), |i: int| results[i]@)
}

/// The result that a row becomes.
pub open spec fn result_of(row: ListedView) -> ResultView {
    ResultView {
        path: encode_utf8(row.path),
        title: row.title,
        date: row.date,
        content_type: row.content_type,
        snippet: without_marks(row.snippet),
        matched_via_alias: None,
    }
}

/// The results that an answer's rows become: those that could be read, in their order.
pub open spec fn results_of(rows: Seq<Option<ListedRow>>) -> Seq<ResultView>
    decreases rows.len(),
{
    if rows.len() == 0 {
        Seq::empty()
    } else {
        match rows.last() {
            Some(row) => results_of(rows.drop_last()).push(result_of(row@)),
            None => results_of(rows.drop_last()),
        }
    }
}

/// Turns an answer's rows into results.
pub fn collect_results(rows: &Vec<Option<ListedRow>>) -> (results: Vec<SearchResult>)
    ensures
        results_view(results@) == results_of(rows@),
{
    let mut results: Vec<SearchResult> = Vec::new();
    let mut i: usize = 0;
    assert(results_view(results@) =~= results_of(rows@.take(0)));
    while i < rows.len()
        invariant
            i <= rows@.len(),
            results_view(results@) == results_of(rows@.take(i as int)),
        decreases rows@.len() - i,
    {
        let ghost before = results_view(results@);
        assert(rows@.take(i + 1).drop_last() =~= rows@.take(i as int));
        match &rows[i] {
            Some(row) => {
                let result = SearchResult {
                    path: FilePath { bytes: row.path.as_str().as_bytes_vec() },
                    title: row.title.clone(),
                    date: row.date.clone(),
                    content_type: row.content_type.clone(),
                    snippet: strip_marks(row.snippet.as_str()),
                    matched_via_alias: None,
                };
                results.push(result);
                assert(results_view(results@) =~= before.push(result_of(row@)));
            },
            None => {},
        }
        i = i + 1;
    }
    assert(rows@.take(i as int) =~= rows@);
    results
}

fn add_filters(sql: &mut String, values: &mut Vec<String>, filters: &SearchFilters)
    ensures
        final(sql)@ == old(sql)@ + filter_conditions(filters@),
        texts_view(final(values)@) == texts_view(old(values)@) + filter_values(filters@),
{
    let ghost sql_before = sql@;
    let ghost before = texts_view(values@);
    if let Some(kind) = &filters.content_type {
        sql.append(" AND m.content_type = ?");
        values.push(kind.clone());
    }
    let ghost with_kind = texts_view(values@);
    assert(with_kind =~= before + match filters@.content_type {
        Some(kind) => seq![kind],
        None => Seq::empty(),
    });
    if let Some(since) = &filters.since {
        sql.append(" AND m.date >= ?");
        values.push(since.clone());
    }
    let ghost with_since = texts_view(values@);
    assert(with_since =~= with_kind + match filters@.since {
        Some(since) => seq![since],
        None => Seq::empty(),
    });
    if let Some(name) = &filters.recorded_by {
        sql.append(" AND m.recorded_by LIKE ?");
        values.push(containing_pattern(name.as_str()));
    }
    let ghost with_recorder = texts_view(values@);
    assert(with_recorder =~= with_since + match filters@.recorded_by {
        Some(name) => seq![containing(name)],
        None => Seq::empty(),
    });
    if let Some(name) = &filters.attendee {
        sql.append(
            " AND EXISTS (SELECT 1 FROM meeting_attendees a
                           WHERE a.meeting_rowid = m.rowid
                             AND a.attendee_lower LIKE ?)",
        );
        values.push(containing_pattern(lowercase(name.as_str()).as_str()));
    }
    assert(texts_view(values@) =~= with_recorder + match filters@.attendee {
        Some(name) => seq![containing(unicode_lowercase(name))],
        None => Seq::empty(),
    });
    assert(texts_view(values@) =~= before + filter_values(filters@));
    assert(sql@ =~= sql_before + filter_conditions(filters@));
}

fn containing_pattern(part: &str) -> (pattern: String)
    ensures
        pattern@ == containing(part@),
{
    let mut pattern = joined("%", part);
    pattern.append("%");
    pattern
}

/// How many rows SQLite is told to stop at: a number that no `LIMIT` can hold lets all through.
pub open spec fn limit_of(limit: usize) -> int {
    if limit <= i64::MAX {
        limit as int
    } else {
        -1
    }
}

fn sql_limit(limit: usize) -> (bound: i64)
    ensures
        bound == limit_of(limit),
{
    if limit as u128 <= i64::MAX as u128 {
        limit as i64
    } else {
        -1
    }
}

/// Lists meetings, the latest first.
pub fn search_list(conn: &rusqlite::Connection, filters: &SearchFilters, limit: usize) -> (result:
    Result<Vec<SearchResult>, SearchIndexError>)
    requires
        1 <= projection_states(*conn).len() <= 2,
    ensures
        match result {
            Ok(results) => exists|rows: Seq<Option<ListedRow>>|
                #[trigger] answers(
                    working_tables(*conn),
                    filters@,
                    None,
                    limit_of(limit),
                    rows,
                ) && results_view(results@) == results_of(rows),
            Err(error) => error is Sqlite,
        },
{
    let mut sql = "SELECT m.path, m.title, m.date, m.content_type
         FROM meetings m
         WHERE 1=1".to_owned();
    let mut values: Vec<String> = Vec::new();
    assert(texts_view(values@) =~= Seq::<Seq<char>>::empty());
    add_filters(&mut sql, &mut values, filters);
    sql.append(" ORDER BY m.date DESC LIMIT ?");
    proof {
        assert(sql@ == list_query(filters@));
        assert(texts_view(values@) =~= filter_values(filters@));
    }
    match run_listing(conn, sql.as_str(), &values, sql_limit(limit)) {
        Ok(rows) => Ok(collect_results(&rows)),
        Err(error) => Err(SearchIndexError::Sqlite(error)),
    }
}

/// Finds meetings by their text.
pub fn search_match(
    conn: &rusqlite::Connection,
    sanitized_query: &str,
    filters: &SearchFilters,
    limit: usize,
) -> (result: Result<Vec<SearchResult>, SearchIndexError>)
    requires
        1 <= projection_states(*conn).len() <= 2,
    ensures
        match result {
            Ok(results) => exists|rows: Seq<Option<ListedRow>>|
                #[trigger] answers(
                    working_tables(*conn),
                    filters@,
                    Some(sanitized_query@),
                    limit_of(limit),
                    rows,
                ) && results_view(results@) == results_of(rows),
            Err(error) => error is Sqlite,
        },
{
    let mut sql = "SELECT m.path, m.title, m.date, m.content_type,
                snippet(meetings_fts, 1, char(2), char(3), '…', 24) AS snippet
         FROM meetings_fts
         JOIN meetings m ON m.rowid = meetings_fts.rowid
         WHERE meetings_fts MATCH ?".to_owned();
    let mut values: Vec<String> = Vec::new();
    values.push(sanitized_query.to_owned());
    assert(texts_view(values@) =~= seq![sanitized_query@]);
    add_filters(&mut sql, &mut values, filters);
    sql.append(" ORDER BY rank, m.date DESC LIMIT ?");
    proof {
        assert(sql@ == match_query(filters@));
        assert(texts_view(values@) == match_values(sanitized_query@, filters@));
    }
    match run_matching(conn, sql.as_str(), &values, sql_limit(limit)) {
        Ok(rows) => Ok(collect_results(&rows)),
        Err(error) => Err(SearchIndexError::Sqlite(error)),
    }
}

} // verus!
