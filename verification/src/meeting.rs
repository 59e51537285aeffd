//! Meeting files: their frontmatter, and what the index keeps of one.

use vstd::prelude::*;
use chrono::TimeZone;
use crate::errors::SearchIndexError;
use crate::paths::{absolute_bytes, lossy_text, path_error, path_message, AbsolutePath};
use crate::queries::{optional_text, texts_view};
use crate::text::{chars_of, joined, stands_at, text_between, trimmed, trimmed_of};

verus! {

/// Who may see a meeting.
#[derive(Debug, Clone, Copy, PartialEq, Eq, Structural)]
pub enum Sensitivity {
    Normal,
    Restricted,
}

/// What kind of recording a file holds.
#[derive(Debug, Clone, Copy, PartialEq, Eq, Structural)]
pub enum ContentType {
    Meeting,
    Memo,
    Dictation,
}

/// The word for a content type.
pub open spec fn content_type_word(kind: ContentType) -> Seq<char> {
    match kind {
        ContentType::Meeting => "meeting"@,
        ContentType::Memo => "memo"@,
        ContentType::Dictation => "dictation"@,
    }
}

impl ContentType {
    /// The word that the index keeps for this content type.
    pub fn word(self) -> (word: &'static str)
        ensures
            word@ == content_type_word(self),
    {
        match self {
            ContentType::Meeting => "meeting",
            ContentType::Memo => "memo",
            ContentType::Dictation => "dictation",
        }
    }
}

/// How chrono writes an instant in RFC 3339: the instant is `unix_seconds` and `nanoseconds` after
/// the Unix epoch, seen `offset_seconds` east of UTC. None where chrono has no such date.
pub uninterp spec fn rfc3339_of(
    unix_seconds: i64,
    nanoseconds: u32,
    offset_seconds: i32,
) -> Option<Seq<char>>;

/// `FixedOffset::east_opt`, `TimeZone::timestamp_opt` and `DateTime::to_rfc3339`: the RFC 3339
/// text of an instant, which its three numbers decide.
#[verifier::external_body]
pub(crate) fn rfc3339_text(
    unix_seconds: i64,
    nanoseconds: u32,
    offset_seconds: i32,
) -> (text: Option<String>)
    ensures
        optional_text(text) == rfc3339_of(unix_seconds, nanoseconds, offset_seconds),
{
    let zone = chrono::FixedOffset::east_opt(offset_seconds)?;
    Some(zone.timestamp_opt(unix_seconds, nanoseconds).single()?.to_rfc3339())
}

/// When a meeting took place.
pub struct MeetingDate {
    rfc3339: String,
}

impl View for MeetingDate {
    type V = Seq<char>;

    closed spec fn view(&self) -> Seq<char> {
        self.rfc3339@
    }
}

impl MeetingDate {
    /// The date that is `unix_seconds` and `nanoseconds` after the Unix epoch, seen
    /// `offset_seconds` east of UTC. It is known by its RFC 3339 text.
    pub fn at(unix_seconds: i64, nanoseconds: u32, offset_seconds: i32) -> (date: Option<
        MeetingDate,
    >)
        ensures
            match date {
                Some(date) => rfc3339_of(unix_seconds, nanoseconds, offset_seconds) == Some(date@),
                None => rfc3339_of(unix_seconds, nanoseconds, offset_seconds) is None,
            },
    {
        match rfc3339_text(unix_seconds, nanoseconds, offset_seconds) {
            Some(rfc3339) => Some(MeetingDate { rfc3339 }),
            None => None,
        }
    }

    /// The date in RFC 3339.
    pub fn to_rfc3339(&self) -> (text: String)
        ensures
            text@ == self@,
    {
        self.rfc3339.clone()
    }
}

/// The fields of a meeting's frontmatter that the index reads.
pub struct Frontmatter {
    pub title: String,
    pub content_type: ContentType,
    pub date: MeetingDate,
    pub attendees: Vec<String>,
    pub recorded_by: Option<String>,
    pub sensitivity: Option<Sensitivity>,
}

/// Whether frontmatter keeps its meeting out of the index.
pub open spec fn is_restricted(frontmatter: Frontmatter) -> bool {
    frontmatter.sensitivity == Some(Sensitivity::Restricted)
}

impl Frontmatter {
    /// Whether this frontmatter keeps its meeting out of the index.
    pub fn restricted(&self) -> (yes: bool)
        ensures
            yes == is_restricted(*self),
    {
        match self.sensitivity {
            Some(Sensitivity::Restricted) => true,
            _ => false,
        }
    }
}

/// One stable reading of a meeting file.
pub struct StableMarkdownSnapshot {
    pub path: AbsolutePath,
    pub content: String,
    pub content_sha256: [u8; 32],
}

/// A line that holds three hyphens stands before and after frontmatter.
pub open spec fn fence() -> Seq<char> {
    seq!['-', '-', '-']
}

/// Whether a closing fence stands at `at`: at the start of a line, and with nothing after it on
/// that line.
pub open spec fn closes_at(content: Seq<char>, at: int) -> bool {
    &&& 4 <= at
    &&& at + 3 <= content.len()
    &&& content[at - 1] == '\n'
    &&& content.subrange(at, at + 3) == fence()
    &&& at + 3 < content.len() ==> content[at + 3] == '\n'
}

/// Whether `content` starts with an opening fence.
pub open spec fn opens(content: Seq<char>) -> bool {
    &&& content.len() >= 4
    &&& content.subrange(0, 3) == fence()
    &&& content[3] == '\n'
}

/// The first closing fence is at `at`.
pub open spec fn closes_first_at(content: Seq<char>, at: int) -> bool {
    closes_at(content, at) && forall|k: int| 0 <= k < at ==> !closes_at(content, k)
}

/// `parts` are the frontmatter of `content` and its body: what stands between the fences, and what
/// follows the line of the second. Without both fences all of it is body.
pub open spec fn splits_into(
    content: Seq<char>,
    frontmatter: Seq<char>,
    body: Seq<char>,
) -> bool {
    if opens(content) && exists|at: int| closes_at(content, at) {
        exists|at: int| #[trigger]
            closes_first_at(content, at) && frontmatter == content.subrange(4, at) && body
                == if at + 3 < content.len() {
                content.skip(at + 4)
            } else {
                Seq::empty()
            }
    } else {
        frontmatter.len() == 0 && body == content
    }
}

fn fence_at(chars: &Vec<char>, at: usize) -> (yes: bool)
    requires
        at <= chars@.len(),
    ensures
        yes == (at + 3 <= chars@.len() && chars@.subrange(at as int, at + 3) == fence()),
{
    if chars.len() - at < 3 {
        return false;
    }
    let yes = chars[at] == '-' && chars[at + 1] == '-' && chars[at + 2] == '-';
    proof {
        let part = chars@.subrange(at as int, at + 3);
        if yes {
            assert(part =~= fence());
        } else {
            assert(part[0] == chars@[at as int]);
            assert(part[1] == chars@[at + 1]);
            assert(part[2] == chars@[at + 2]);
            assert(fence()[0] == '-' && fence()[1] == '-' && fence()[2] == '-');
        }
    }
    yes
}

/// Splits a meeting file into its frontmatter and its body.
pub fn split_frontmatter(content: &str) -> (parts: (String, String))
    ensures
        splits_into(content@, parts.0@, parts.1@),
{
    let chars = chars_of(content);
    let n: usize = chars.len();
    if n < 4 || !fence_at(&chars, 0) || chars[3] != '\n' {
        assert(!opens(content@));
        return (String::new(), content.to_owned());
    }
    assert(opens(content@));
    let mut at: usize = 4;
    while at < n
        invariant
            chars@ == content@,
            n == chars@.len(),
            4 <= at <= n,
            opens(content@),
            forall|k: int| 0 <= k < at ==> !closes_at(content@, k),
        decreases n - at,
    {
        if chars[at - 1] == '\n' && fence_at(&chars, at) && (at + 3 == n || chars[at + 3] == '\n') {
            let frontmatter = text_between(&chars, 4, at);
            let body = if at + 3 < n {
                text_between(&chars, at + 4, n)
            } else {
                String::new()
            };
            proof {
                assert(closes_first_at(content@, at as int));
                assert(closes_at(content@, at as int));
                if at + 3 < n {
                    assert(body@ =~= content@.skip(at + 4));
                }
            }
            return (frontmatter, body);
        }
        assert(!closes_at(content@, at as int));
        at = at + 1;
    }
    assert forall|k: int| !closes_at(content@, k) by {}
    (String::new(), content.to_owned())
}

/// The pieces of a text between line ends.
pub open spec fn lines_of(text: Seq<char>) -> Seq<Seq<char>>
    decreases text.len(),
{
    if text.len() == 0 {
        seq![Seq::<char>::empty()]
    } else {
        let before = lines_of(text.drop_last());
        if text.last() == '\n' {
            before.push(Seq::empty())
        } else {
            before.drop_last().push(before.last().push(text.last()))
        }
    }
}

proof fn lines_are_one_or_more(text: Seq<char>)
    ensures
        lines_of(text).len() >= 1,
    decreases text.len(),
{
    if text.len() > 0 {
        lines_are_one_or_more(text.drop_last());
    }
}

/// Cuts a text at its line ends.
pub fn lines(text: &str) -> (pieces: Vec<String>)
    ensures
        texts_view(pieces@) == lines_of(text@),
{
    let chars = chars_of(text);
    let mut pieces: Vec<String> = Vec::new();
    let mut piece = String::new();
    let mut i: usize = 0;
    proof {
        assert(text@.take(0) =~= Seq::<char>::empty());
        assert(lines_of(text@.take(0)).drop_last() =~= Seq::<Seq<char>>::empty());
        assert(texts_view(pieces@) =~= Seq::<Seq<char>>::empty());
    }
    while i < chars.len()
        invariant
            chars@ == text@,
            i <= chars@.len(),
            piece@ == lines_of(text@.take(i as int)).last(),
            texts_view(pieces@) == lines_of(text@.take(i as int)).drop_last(),
        decreases chars@.len() - i,
    {
        let c = chars[i];
        let ghost seen = lines_of(text@.take(i as int));
        let ghost before = texts_view(pieces@);
        proof {
            lines_are_one_or_more(text@.take(i as int));
            assert(text@.take(i + 1).drop_last() =~= text@.take(i as int));
        }
        if c == '\n' {
            let finished = piece;
            piece = String::new();
            pieces.push(finished);
            assert(texts_view(pieces@) =~= before.push(seen.last()));
            assert(before.push(seen.last()) =~= seen);
            assert(seen.push(Seq::<char>::empty()).drop_last() =~= seen);
        } else {
            piece.push(c);
            assert(seen.drop_last().push(piece@).drop_last() =~= seen.drop_last());
        }
        i = i + 1;
    }
    let ghost before = texts_view(pieces@);
    proof {
        lines_are_one_or_more(text@);
        assert(text@.take(i as int) =~= text@);
    }
    pieces.push(piece);
    assert(texts_view(pieces@) =~= before.push(lines_of(text@).last()));
    assert(before.push(lines_of(text@).last()) =~= lines_of(text@));
    pieces
}

/// `value` without the quotation marks around it.
pub open spec fn unquoted(value: Seq<char>) -> Seq<char> {
    if value.len() >= 2 && value[0] == value.last() && (value[0] == '"' || value[0] == '\'') {
        value.subrange(1, value.len() - 1)
    } else {
        value
    }
}

/// What a line of frontmatter gives for `key`: nothing where it is another key's, or empty.
pub open spec fn line_field(line: Seq<char>, key: Seq<char>) -> Option<Seq<char>> {
    let text = trimmed_of(line);
    let head = key.push(':');
    if head.len() <= text.len() && text.take(head.len() as int) == head {
        let value = unquoted(trimmed_of(text.skip(head.len() as int)));
        if value.len() == 0 {
            None
        } else {
            Some(value)
        }
    } else {
        None
    }
}

/// What the first line for `key` gives.
pub open spec fn field_of(pieces: Seq<Seq<char>>, key: Seq<char>) -> Option<Seq<char>>
    decreases pieces.len(),
{
    if pieces.len() == 0 {
        None
    } else {
        match line_field(pieces[0], key) {
            Some(value) => Some(value),
            None => field_of(pieces.drop_first(), key),
        }
    }
}

fn field_in_line(line: &str, key: &str) -> (value: Option<String>)
    ensures
        optional_text(value) == line_field(line@, key@),
{
    let text = trimmed(line);
    let chars = chars_of(text.as_str());
    let mut head = chars_of(key);
    head.push(':');
    let ghost mark = key@.push(':');
    assert(head@ == mark);
    if !stands_at(&chars, &head, 0) {
        proof {
            if mark.len() <= text@.len() && text@.take(mark.len() as int) == mark {
                assert(chars@.subrange(0, mark.len() as int) =~= text@.take(mark.len() as int));
            }
        }
        return None;
    }
    assert(chars@.subrange(0, mark.len() as int) =~= text@.take(mark.len() as int));
    let rest = text_between(&chars, head.len(), chars.len());
    assert(rest@ =~= text@.skip(mark.len() as int));
    let value = trimmed(rest.as_str());
    let marks = chars_of(value.as_str());
    let n: usize = marks.len();
    let value = if n >= 2 && marks[0] == marks[n - 1] && (marks[0] == '"' || marks[0] == '\'') {
        text_between(&marks, 1, n - 1)
    } else {
        value
    };
    if value.as_str().is_empty() {
        None
    } else {
        Some(value)
    }
}

/// Reads a plain text field of frontmatter by its key.
pub fn extract_field(frontmatter: &str, key: &str) -> (value: Option<String>)
    ensures
        optional_text(value) == field_of(lines_of(frontmatter@), key@),
{
    let pieces = lines(frontmatter);
    let ghost all = lines_of(frontmatter@);
    let mut i: usize = 0;
    assert(all.skip(0) =~= all);
    while i < pieces.len()
        invariant
            texts_view(pieces@) == all,
            all == lines_of(frontmatter@),
            i <= pieces@.len(),
            field_of(all, key@) == field_of(all.skip(i as int), key@),
        decreases pieces@.len() - i,
    {
        assert(all.skip(i as int)[0] == all[i as int]);
        assert(all.skip(i as int).drop_first() =~= all.skip(i + 1));
        assert(all[i as int] == pieces@[i as int]@);
        let value = field_in_line(pieces[i].as_str(), key);
        if value.is_some() {
            return value;
        }
        i = i + 1;
    }
    None
}

/// What the operating system says of a file.
pub struct FileFacts {
    pub is_file: bool,
    /// Nanoseconds from the Unix epoch to the last change, where that is known.
    pub modified_ns: Option<u128>,
    pub length: u64,
}

/// A meeting that the index may hold.
pub struct IndexableDocument {
    pub path: AbsolutePath,
    pub title: String,
    pub date: String,
    pub content_type: String,
    pub attendees: Vec<String>,
    pub recorded_by: String,
    pub body: String,
    pub source_sha256: [u8; 32],
    pub mtime_ns: i64,
    pub size_bytes: i64,
}

/// The nanoseconds that the index keeps of a file's last change.
pub open spec fn kept_mtime(modified_ns: Option<u128>) -> i64 {
    match modified_ns {
        Some(ns) => ns as i64,
        None => 0,
    }
}

/// Whether `document` is what the index keeps of a meeting with this snapshot, these file facts
/// and this frontmatter.
pub open spec fn is_document_of(
    document: IndexableDocument,
    snapshot: StableMarkdownSnapshot,
    facts: FileFacts,
    frontmatter: Frontmatter,
) -> bool {
    &&& document.path@ == snapshot.path@
    &&& document.title@ == frontmatter.title@
    &&& exists|header: Seq<char>| #[trigger]
        splits_into(snapshot.content@, header, document.body@) && document.date@ == match field_of(
            lines_of(header),
            "date"@,
        ) {
            Some(date) => date,
            None => frontmatter.date@,
        }
    &&& document.content_type@ == content_type_word(frontmatter.content_type)
    &&& document.attendees@ == frontmatter.attendees@
    &&& document.recorded_by@ == match frontmatter.recorded_by {
        Some(name) => name@,
        None => Seq::empty(),
    }
    &&& document.source_sha256 == snapshot.content_sha256
    &&& document.mtime_ns == kept_mtime(facts.modified_ns)
    &&& document.size_bytes == facts.length as i64
}

/// Whether the content has frontmatter.
pub open spec fn has_frontmatter(content: Seq<char>) -> bool {
    exists|header: Seq<char>, body: Seq<char>|
        header.len() > 0 && #[trigger] splits_into(content, header, body)
}

/// A content splits in one way.
pub proof fn content_splits_in_one_way(
    content: Seq<char>,
    header: Seq<char>,
    body: Seq<char>,
    other_header: Seq<char>,
    other_body: Seq<char>,
)
    requires
        splits_into(content, header, body),
        splits_into(content, other_header, other_body),
    ensures
        header == other_header,
        body == other_body,
{
    if opens(content) && exists|at: int| closes_at(content, at) {
        let a = choose|at: int| #[trigger]
            closes_first_at(content, at) && header == content.subrange(4, at) && body == if at + 3
                < content.len() {
                content.skip(at + 4)
            } else {
                Seq::empty()
            };
        let b = choose|at: int| #[trigger]
            closes_first_at(content, at) && other_header == content.subrange(4, at) && other_body
                == if at + 3 < content.len() {
                content.skip(at + 4)
            } else {
                Seq::empty()
            };
        assert(a == b);
    } else {
        assert(header =~= other_header);
    }
}

/// Content has frontmatter where what it splits into does.
pub proof fn frontmatter_is_the_header(content: Seq<char>, header: Seq<char>, body: Seq<char>)
    requires
        splits_into(content, header, body),
    ensures
        has_frontmatter(content) == (header.len() > 0),
{
    if has_frontmatter(content) {
        let (other, rest) = choose|other: Seq<char>, rest: Seq<char>|
            other.len() > 0 && #[trigger] splits_into(content, other, rest);
        content_splits_in_one_way(content, header, body, other, rest);
    }
}

/// Why a snapshot that could be read is no document, in the order in which it is looked at.
pub open spec fn rejection_of(
    snapshot: StableMarkdownSnapshot,
    facts: Result<FileFacts, String>,
    parsed: Result<Frontmatter, String>,
    error: SearchIndexError,
) -> bool {
    let shown = lossy_text(absolute_bytes(snapshot.path@));
    match facts {
        Err(reason) => error matches SearchIndexError::Io(message) && message@ == "stat "@ + shown
            + ": "@ + reason@,
        Ok(facts) => if !facts.is_file {
            error matches SearchIndexError::Io(message) && message@ == path_message(
                "meeting path is not a regular file: "@,
                absolute_bytes(snapshot.path@),
            )
        } else if !has_frontmatter(snapshot.content@) {
            error matches SearchIndexError::Frontmatter { path, message } && path@ == shown
                && message@ == "missing YAML frontmatter"@
        } else {
            match parsed {
                Err(reason) => error matches SearchIndexError::Frontmatter { path, message }
                    && path@ == shown && message@ == reason@,
                Ok(frontmatter) => {
                    &&& trimmed_of(frontmatter.title@).len() == 0
                    &&& error matches SearchIndexError::Frontmatter { path, message } && path@
                        == shown && message@ == "title must not be empty"@
                },
            }
        },
    }
}

/// Whether a snapshot can be judged: a regular file whose frontmatter parses and has a title.
pub open spec fn is_well_formed(
    snapshot: StableMarkdownSnapshot,
    facts: Result<FileFacts, String>,
    parsed: Result<Frontmatter, String>,
) -> bool {
    &&& facts matches Ok(facts) && facts.is_file
    &&& has_frontmatter(snapshot.content@)
    &&& parsed matches Ok(frontmatter) && trimmed_of(frontmatter.title@).len() > 0
}

/// What the index keeps of a meeting file: nothing of a restricted one. `facts` is what the
/// operating system says of the file and `parsed` what its frontmatter parses to.
pub fn indexable_document_from_snapshot(
    snapshot: StableMarkdownSnapshot,
    facts: Result<FileFacts, String>,
    parsed: Result<Frontmatter, String>,
) -> (result: Result<Option<IndexableDocument>, SearchIndexError>)
    ensures
        match result {
            Ok(Some(document)) => is_well_formed(snapshot, facts, parsed) && !is_restricted(
                parsed->Ok_0,
            ) && is_document_of(document, snapshot, facts->Ok_0, parsed->Ok_0),
            Ok(None) => is_well_formed(snapshot, facts, parsed) && is_restricted(parsed->Ok_0),
            Err(error) => !is_well_formed(snapshot, facts, parsed) && rejection_of(
                snapshot,
                facts,
                parsed,
                error,
            ),
        },
{
    let facts = match facts {
        Ok(facts) => facts,
        Err(reason) => {
            let mut message = joined("stat ", snapshot.path.display().as_str());
            message.append(": ");
            message.append(reason.as_str());
            return Err(SearchIndexError::Io(message));
        },
    };
    if !facts.is_file {
        return Err(
            path_error("meeting path is not a regular file: ", &snapshot.path.file_path()),
        );
    }
    let (header, body) = split_frontmatter(snapshot.content.as_str());
    proof {
        frontmatter_is_the_header(snapshot.content@, header@, body@);
    }
    if header.as_str().is_empty() {
        return Err(
            SearchIndexError::Frontmatter {
                path: snapshot.path.display(),
                message: "missing YAML frontmatter".to_owned(),
            },
        );
    }
    let frontmatter = match parsed {
        Ok(frontmatter) => frontmatter,
        Err(reason) => {
            return Err(
                SearchIndexError::Frontmatter { path: snapshot.path.display(), message: reason },
            );
        },
    };
    if trimmed(frontmatter.title.as_str()).as_str().is_empty() {
        return Err(
            SearchIndexError::Frontmatter {
                path: snapshot.path.display(),
                message: "title must not be empty".to_owned(),
            },
        );
    }
    if frontmatter.restricted() {
        return Ok(None);
    }
    let date = match extract_field(header.as_str(), "date") {
        Some(date) => date,
        None => frontmatter.date.to_rfc3339(),
    };
    let mtime_ns: i64 = match facts.modified_ns {
        Some(ns) => #[verifier::truncate] (ns as i64),
        None => 0,
    };
    let recorded_by = match frontmatter.recorded_by {
        Some(name) => name,
        None => String::new(),
    };
    let ghost content = snapshot.content@;
    let size_bytes: i64 = #[verifier::truncate] (facts.length as i64);
    let document = IndexableDocument {
        path: snapshot.path,
        title: frontmatter.title,
        date,
        content_type: frontmatter.content_type.word().to_owned(),
        attendees: frontmatter.attendees,
        recorded_by,
        body,
        source_sha256: snapshot.content_sha256,
        mtime_ns,
        size_bytes,
    };
    assert(splits_into(content, header@, document.body@));
    Ok(Some(document))
}

} // verus!
