//! What holds of meeting files: how they are split, what their frontmatter says, and what the index
//! keeps of them.

use vstd::prelude::*;
use crate::errors::SearchIndexError;
use crate::meeting::{
    closes_at, closes_first_at, content_splits_in_one_way, content_type_word, fence, field_of,
    frontmatter_is_the_header, has_frontmatter, is_document_of, is_restricted, is_well_formed,
    kept_mtime, line_field, lines_of, opens, rejection_of, splits_into, unquoted, ContentType,
    FileFacts, Frontmatter, IndexableDocument, Sensitivity, StableMarkdownSnapshot,
};
use crate::paths::{absolute_bytes, lossy_text};
use crate::text::trimmed_of;

verus! {

/// Each content type has its word.
pub proof fn content_types_have_their_words()
    ensures
        content_type_word(ContentType::Meeting) == "meeting"@,
        content_type_word(ContentType::Memo) == "memo"@,
        content_type_word(ContentType::Dictation) == "dictation"@,
{
}

/// A meeting is restricted where its frontmatter says so, and otherwise not: neither where it says
/// that it is normal nor where it says nothing.
pub proof fn meetings_are_restricted_by_their_own_word(frontmatter: Frontmatter)
    ensures
        frontmatter.sensitivity == Some(Sensitivity::Restricted) ==> is_restricted(frontmatter),
        frontmatter.sensitivity == Some(Sensitivity::Normal) ==> !is_restricted(frontmatter),
        frontmatter.sensitivity is None ==> !is_restricted(frontmatter),
{
}

/// Whether a line of three hyphens, with its line end, stands at `k`.
pub open spec fn is_fence_line(text: Seq<char>, k: int) -> bool {
    &&& 0 <= k
    &&& k + 3 < text.len()
    &&& k == 0 || text[k - 1] == '\n'
    &&& text[k] == '-' && text[k + 1] == '-' && text[k + 2] == '-'
    &&& text[k + 3] == '\n'
}

/// Between a first line of three hyphens and the next such line stands the frontmatter, and behind
/// that the body.
pub proof fn frontmatter_stands_between_two_fences(header: Seq<char>, body: Seq<char>)
    requires
        header.len() == 0 || header.last() == '\n',
        forall|k: int| !is_fence_line(header, k),
    ensures
        splits_into(seq!['-', '-', '-', '\n'] + header + seq!['-', '-', '-', '\n'] + body, header, body),
        splits_into(
            seq!['-', '-', '-', '\n'] + header + seq!['-', '-', '-'],
            header,
            Seq::empty(),
        ),
{
    let open = seq!['-', '-', '-', '\n'];
    let whole = open + header + seq!['-', '-', '-', '\n'] + body;
    let at = 4 + header.len() as int;
    assert forall|i: int| 4 <= i < at implies #[trigger] whole[i] == header[i - 4] by {}
    closes_behind_the_header(header, whole);
    assert(whole.subrange(4, at) =~= header);
    assert(whole.skip(at + 4) =~= body);
    let short = open + header + seq!['-', '-', '-'];
    assert forall|i: int| 4 <= i < at implies #[trigger] short[i] == header[i - 4] by {}
    closes_behind_the_header(header, short);
    assert(short.subrange(4, at) =~= header);
}

proof fn closes_behind_the_header(header: Seq<char>, content: Seq<char>)
    requires
        header.len() == 0 || header.last() == '\n',
        forall|k: int| !is_fence_line(header, k),
        content.len() >= 7 + header.len(),
        content[0] == '-' && content[1] == '-' && content[2] == '-' && content[3] == '\n',
        forall|i: int| 4 <= i < 4 + header.len() ==> #[trigger] content[i] == header[i - 4],
        content[4 + header.len() as int] == '-',
        content[5 + header.len() as int] == '-',
        content[6 + header.len() as int] == '-',
        content.len() > 7 + header.len() ==> content[7 + header.len() as int] == '\n',
    ensures
        opens(content),
        closes_first_at(content, 4 + header.len() as int),
{
    let at = 4 + header.len() as int;
    assert(content.subrange(0, 3) =~= fence());
    assert(content.subrange(at, at + 3) =~= fence());
    assert(content[at - 1] == '\n');
    assert forall|k: int| 0 <= k < at implies !closes_at(content, k) by {
        if closes_at(content, k) {
            header_holds_no_closing_fence(header, content, k);
        }
    }
}

proof fn header_holds_no_closing_fence(header: Seq<char>, content: Seq<char>, k: int)
    requires
        header.len() == 0 || header.last() == '\n',
        content.len() >= 7 + header.len(),
        content[3] == '\n',
        forall|i: int| 4 <= i < 4 + header.len() ==> #[trigger] content[i] == header[i - 4],
        closes_at(content, k),
        k < 4 + header.len(),
    ensures
        is_fence_line(header, k - 4),
{
    let found = content.subrange(k, k + 3);
    assert(found[0] == content[k] && found[1] == content[k + 1] && found[2] == content[k + 2]);
    assert(fence()[0] == '-' && fence()[1] == '-' && fence()[2] == '-');
    let end = 3 + header.len() as int;
    assert(content[end] == '\n');
    assert(k + 2 < end);
    assert(content[k + 3] == header[k - 1]);
    assert(content[k] == header[k - 4]);
    assert(content[k + 1] == header[k - 3]);
    assert(content[k + 2] == header[k - 2]);
    assert(k > 4 ==> content[k - 1] == header[k - 5]);
}

/// Content whose first line is not three hyphens, or that no later such line follows, has no
/// frontmatter and is all body.
pub proof fn unfenced_content_is_all_body(content: Seq<char>)
    ensures
        content.len() < 4 || content.take(4) != seq!['-', '-', '-', '\n'] ==> splits_into(
            content,
            Seq::empty(),
            content,
        ) && !has_frontmatter(content),
        (forall|k: int| k > 0 ==> !is_fence_line(content, k)) && !(content.len() >= 7
            && content.skip(content.len() - 4) == seq!['\n', '-', '-', '-']) ==> splits_into(
            content,
            Seq::empty(),
            content,
        ) && !has_frontmatter(content),
{
    if content.len() < 4 || content.take(4) != seq!['-', '-', '-', '\n'] {
        if opens(content) {
            let fence = content.subrange(0, 3);
            assert(fence[0] == content[0] && fence[1] == content[1] && fence[2] == content[2]);
            assert(content.take(4) =~= seq!['-', '-', '-', '\n']);
        }
        frontmatter_is_the_header(content, Seq::empty(), content);
    }
    if (forall|k: int| k > 0 ==> !is_fence_line(content, k)) && !(content.len() >= 7
        && content.skip(content.len() - 4) == seq!['\n', '-', '-', '-']) {
        assert forall|at: int| !closes_at(content, at) by {
            if closes_at(content, at) {
                let fence = content.subrange(at, at + 3);
                assert(fence[0] == content[at] && fence[1] == content[at + 1] && fence[2]
                    == content[at + 2]);
                if at + 3 < content.len() {
                    assert(is_fence_line(content, at));
                } else {
                    assert(content.skip(content.len() - 4) =~= seq!['\n', '-', '-', '-']);
                }
            }
        }
        frontmatter_is_the_header(content, Seq::empty(), content);
    }
}

/// A file has frontmatter where something stands between its fences.
pub proof fn empty_frontmatter_is_none(content: Seq<char>, header: Seq<char>, body: Seq<char>)
    requires
        splits_into(content, header, body),
    ensures
        has_frontmatter(content) == (header.len() > 0),
{
    frontmatter_is_the_header(content, header, body);
}

/// A value loses the quotation marks around it, double or single, where both are of one kind; any
/// other value is as it stands.
pub proof fn values_lose_their_quotation_marks(value: Seq<char>, c: char, d: char)
    ensures
        unquoted(seq!['"'] + value + seq!['"']) == value,
        unquoted(seq!['\''] + value + seq!['\'']) == value,
        c != d ==> unquoted(seq![c] + value + seq![d]) == seq![c] + value + seq![d],
        c != '"' && c != '\'' ==> unquoted(seq![c] + value) == seq![c] + value,
        unquoted(Seq::empty()) == Seq::<char>::empty(),
        unquoted(seq![c]) == seq![c],
{
    let double = seq!['"'] + value + seq!['"'];
    assert(double.subrange(1, double.len() - 1) =~= value);
    let single = seq!['\''] + value + seq!['\''];
    assert(single.subrange(1, single.len() - 1) =~= value);
    let mixed = seq![c] + value + seq![d];
    assert(mixed[0] == c && mixed.last() == d);
}

/// A line gives for a key what stands behind the key and its colon, trimmed and without quotation
/// marks; an empty value is none, and a line that starts otherwise gives nothing.
pub proof fn lines_give_what_stands_behind_their_key(
    line: Seq<char>,
    key: Seq<char>,
    rest: Seq<char>,
)
    ensures
        trimmed_of(line) == key + seq![':'] + rest ==> line_field(line, key) == if unquoted(
            trimmed_of(rest),
        ).len() == 0 {
            None
        } else {
            Some(unquoted(trimmed_of(rest)))
        },
        !(key + seq![':']).is_prefix_of(trimmed_of(line)) ==> line_field(line, key) is None,
{
    let head = key.push(':');
    assert(head =~= key + seq![':']);
    let text = trimmed_of(line);
    if text == key + seq![':'] + rest {
        assert(text.take(head.len() as int) =~= head);
        assert(text.skip(head.len() as int) =~= rest);
    }
    if head.len() <= text.len() && text.take(head.len() as int) == head {
        assert forall|i: int| 0 <= i < head.len() implies head[i] == text[i] by {
            assert(text.take(head.len() as int)[i] == text[i]);
        }
    }
}

/// The first line that gives something for a key is what the frontmatter gives for it.
pub proof fn the_first_line_gives(line: Seq<char>, pieces: Seq<Seq<char>>, key: Seq<char>)
    ensures
        field_of(Seq::empty(), key) is None,
        line_field(line, key) is Some ==> field_of(seq![line] + pieces, key) == line_field(
            line,
            key,
        ),
        line_field(line, key) is None ==> field_of(seq![line] + pieces, key) == field_of(
            pieces,
            key,
        ),
{
    assert((seq![line] + pieces).drop_first() =~= pieces);
}

/// A document holds the path and digest of its file, its body, the title, content type, attendees
/// and recorder of its frontmatter, and the date as the frontmatter writes it or else as it was
/// parsed.
pub proof fn documents_hold_what_their_file_says(
    document: IndexableDocument,
    snapshot: StableMarkdownSnapshot,
    facts: FileFacts,
    frontmatter: Frontmatter,
    header: Seq<char>,
    body: Seq<char>,
)
    requires
        is_document_of(document, snapshot, facts, frontmatter),
        splits_into(snapshot.content@, header, body),
    ensures
        document.path@ == snapshot.path@,
        document.title@ == frontmatter.title@,
        document.body@ == body,
        field_of(lines_of(header), "date"@) matches Some(date) ==> document.date@ == date,
        field_of(lines_of(header), "date"@) is None ==> document.date@ == frontmatter.date@,
        frontmatter.content_type == ContentType::Meeting ==> document.content_type@ == "meeting"@,
        frontmatter.content_type == ContentType::Memo ==> document.content_type@ == "memo"@,
        frontmatter.content_type == ContentType::Dictation ==> document.content_type@
            == "dictation"@,
        document.attendees@ == frontmatter.attendees@,
        frontmatter.recorded_by matches Some(name) ==> document.recorded_by@ == name@,
        frontmatter.recorded_by is None ==> document.recorded_by@.len() == 0,
        document.source_sha256 == snapshot.content_sha256,
        facts.modified_ns matches Some(ns) ==> ns <= 0x7fff_ffff_ffff_ffff ==> document.mtime_ns
            == ns,
        facts.modified_ns is None ==> document.mtime_ns == 0,
        facts.length <= 0x7fff_ffff_ffff_ffff ==> document.size_bytes == facts.length,
{
    let other = choose|other: Seq<char>| #[trigger]
        splits_into(snapshot.content@, other, document.body@) && document.date@ == match field_of(
            lines_of(other),
            "date"@,
        ) {
            Some(date) => date,
            None => frontmatter.date@,
        };
    content_splits_in_one_way(snapshot.content@, header, body, other, document.body@);
}

/// The time of a change is kept in nanoseconds, reduced to 64 bits; one that is not known as zero.
pub proof fn times_are_kept_in_nanoseconds(ns: u128)
    ensures
        kept_mtime(None) == 0,
        ns <= 0x7fff_ffff_ffff_ffff ==> kept_mtime(Some(ns)) == ns,
        kept_mtime(Some(ns)) == (ns % 0x1_0000_0000_0000_0000) as i64,
{
    assert(ns as i64 == (ns % 0x1_0000_0000_0000_0000) as i64) by (bit_vector);
}

/// A file can be judged exactly where it is a regular file whose frontmatter is there, parses, and
/// has a title that is more than white space.
pub proof fn judged_files_are_regular_and_titled(
    snapshot: StableMarkdownSnapshot,
    facts: Result<FileFacts, String>,
    parsed: Result<Frontmatter, String>,
    header: Seq<char>,
    body: Seq<char>,
)
    requires
        splits_into(snapshot.content@, header, body),
    ensures
        is_well_formed(snapshot, facts, parsed) == (facts is Ok && facts->Ok_0.is_file && header.len()
            > 0 && parsed is Ok && trimmed_of(parsed->Ok_0.title@).len() > 0),
{
    frontmatter_is_the_header(snapshot.content@, header, body);
}

/// A file that cannot be judged is told the first thing that is wrong with it, in this order: that
/// it cannot be looked at, is no regular file, has no frontmatter, has some that does not parse, or
/// has no title.
pub proof fn rejections_name_the_first_problem(
    snapshot: StableMarkdownSnapshot,
    facts: Result<FileFacts, String>,
    parsed: Result<Frontmatter, String>,
    error: SearchIndexError,
)
    requires
        rejection_of(snapshot, facts, parsed, error),
    ensures
        ({
            let shown = lossy_text(absolute_bytes(snapshot.path@));
            let content = snapshot.content@;
            &&& facts matches Err(reason) ==> (error matches SearchIndexError::Io(message) && message@
                == "stat "@ + shown + ": "@ + reason@)
            &&& facts is Ok && !facts->Ok_0.is_file ==> (error matches SearchIndexError::Io(
                message,
            ) && message@ == "meeting path is not a regular file: "@ + shown)
            &&& facts is Ok && facts->Ok_0.is_file && !has_frontmatter(content) ==> (
            error matches SearchIndexError::Frontmatter { path, message } && path@ == shown
                && message@ == "missing YAML frontmatter"@)
            &&& facts is Ok && facts->Ok_0.is_file && has_frontmatter(content) && parsed is Err
                ==> (error matches SearchIndexError::Frontmatter { path, message } && path@ == shown
                && message@ == parsed->Err_0@)
            &&& facts is Ok && facts->Ok_0.is_file && has_frontmatter(content) && parsed is Ok
                ==> (error matches SearchIndexError::Frontmatter { path, message } && path@ == shown
                && message@ == "title must not be empty"@) && trimmed_of(
                parsed->Ok_0.title@,
            ).len() == 0
        }),
{
}

} // verus!
