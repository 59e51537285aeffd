//! What holds of the meeting corpus: which of its entries are meetings, where it is, and which of
//! a caller's paths lie in it.

use vstd::prelude::*;
use crate::corpus::{
    candidate_of, canonical_of, corpus_problem, is_excluded, is_excluded_name, is_markdown,
    nearest_existing, open_refusal, resolved_corpus, step_names, steps_below, steps_to,
    AncestorFacts,
};
use crate::direct::{is_readable, reading_refusal};
use crate::errors::SearchIndexError;
use crate::meeting::rejection_of;
use crate::path_laws::resolved_paths_are_spelled_from_the_root;
use crate::paths::{absolute_bytes, normalized, parts_of, path_message, AbsolutePath, Part};
use crate::search_index::{bound_to, corpus_depth, unbound_message};
use crate::sync::{is_judged, is_wanted, leads_to, SourceReading};

verus! {

/// The name of a directory whose contents are never indexed, `archive`.
pub open spec fn archive() -> Seq<u8> {
    seq![0x61u8, 0x72, 0x63, 0x68, 0x69, 0x76, 0x65]
}

/// The name of a directory whose contents are never indexed, `processed`.
pub open spec fn processed() -> Seq<u8> {
    seq![0x70u8, 0x72, 0x6f, 0x63, 0x65, 0x73, 0x73, 0x65, 0x64]
}

/// The name of a directory whose contents are never indexed, `failed`.
pub open spec fn failed() -> Seq<u8> {
    seq![0x66u8, 0x61, 0x69, 0x6c, 0x65, 0x64]
}

/// Every entry below the corpus is wanted, at any depth, that is no directory, whose name ends in
/// `.md` behind at least one byte, and that no name on the way to it keeps out; and none else is.
pub proof fn meeting_files_are_wanted_at_any_depth(
    root: Seq<Seq<u8>>,
    below: Seq<Seq<u8>>,
    stem: Seq<u8>,
)
    requires
        stem.len() > 0,
        forall|i: int|
            0 <= i < below.len() ==> (#[trigger] below[i]) != archive() && below[i] != processed()
                && below[i] != failed(),
    ensures
        is_wanted(root, root + below.push(stem + seq![0x2eu8, 0x6d, 0x64]), false),
{
    let name = stem + seq![0x2eu8, 0x6d, 0x64];
    let path = root + below.push(name);
    assert(path.last() == name);
    assert(name.last() == 0x64u8);
    assert forall|i: int| root.len() <= i < path.len() implies !is_excluded_name(
        #[trigger] path[i],
    ) by {
        if i < path.len() - 1 {
            assert(path[i] == below[i - root.len()]);
        } else {
            assert(archive().last() == 0x65u8);
            assert(processed().last() == 0x64u8 && processed()[6] == 0x73u8);
            assert(failed().last() == 0x64u8 && failed()[3] == 0x6cu8);
            assert(name[name.len() - 3] == 0x2eu8);
        }
    }
}

/// An entry below the corpus is wanted exactly where its last name ends in `.md` behind at least
/// one byte and none of its names below the corpus is that of a directory that is never indexed.
pub proof fn wanting_goes_by_the_names_alone(root: Seq<Seq<u8>>, path: Seq<Seq<u8>>)
    requires
        root.is_prefix_of(path),
    ensures
        is_wanted(root, path, false) <==> {
            &&& path.len() > 0
            &&& path.last().len() > 3
            &&& path.last().skip(path.last().len() - 3) == seq![0x2eu8, 0x6d, 0x64]
            &&& forall|i: int|
                root.len() <= i < path.len() ==> (#[trigger] path[i]) != archive() && path[i]
                    != processed() && path[i] != failed()
        },
{
    if path.len() > 0 && path.last().len() > 3 {
        let name = path.last();
        let end = name.skip(name.len() - 3);
        assert(end[0] == name[name.len() - 3]);
        assert(end[1] == name[name.len() - 2]);
        assert(end[2] == name[name.len() - 1]);
        if is_markdown(path) {
            assert(end =~= seq![0x2eu8, 0x6d, 0x64]);
        }
    }
    assert forall|i: int| root.len() <= i < path.len() implies is_excluded_name(#[trigger] path[i])
        == (path[i] == archive() || path[i] == processed() || path[i] == failed()) by {}
}

/// One more directory on the way to an entry changes nothing, wherever it is below the corpus and
/// whatever its name, as long as it is not one of those that keep their contents out.
pub proof fn depth_does_not_matter(
    root: Seq<Seq<u8>>,
    before: Seq<Seq<u8>>,
    name: Seq<u8>,
    after: Seq<Seq<u8>>,
)
    requires
        after.len() > 0,
        name != archive(),
        name != processed(),
        name != failed(),
    ensures
        is_wanted(root, root + before + seq![name] + after, false) == is_wanted(
            root,
            root + before + after,
            false,
        ),
{
    let short = root + before + after;
    let long = root + before + seq![name] + after;
    let at = (root.len() + before.len()) as int;
    assert(short.last() == after.last());
    assert(long.last() == after.last());
    if is_excluded(root, short) {
        let i = choose|i: int|
            root.len() <= i < short.len() && is_excluded_name(#[trigger] short[i]);
        if i < at {
            assert(long[i] == short[i]);
        } else {
            assert(long[i + 1] == short[i]);
        }
        assert(is_excluded(root, long));
    }
    if is_excluded(root, long) {
        let i = choose|i: int| root.len() <= i < long.len() && is_excluded_name(#[trigger] long[i]);
        if i < at {
            assert(short[i] == long[i]);
        } else {
            assert(i != at);
            assert(short[i - 1] == long[i]);
        }
        assert(is_excluded(root, short));
    }
}

/// Nothing below an excluded directory of the corpus is wanted, however deep; a directory never is.
pub proof fn excluded_directories_keep_their_contents(
    root: Seq<Seq<u8>>,
    before: Seq<Seq<u8>>,
    name: Seq<u8>,
    after: Seq<Seq<u8>>,
    path: Seq<Seq<u8>>,
)
    requires
        name == archive() || name == processed() || name == failed(),
    ensures
        !is_wanted(root, root + before + seq![name] + after, false),
        !is_wanted(root, path, true),
{
    let long = root + before + seq![name] + after;
    assert(long[(root.len() + before.len()) as int] == name);
    assert(root.is_prefix_of(long));
}

/// Where the corpus itself lies does not matter: its own names keep nothing out, and an entry below
/// it is wanted as it would be below any other corpus.
pub proof fn where_the_corpus_lies_does_not_matter(
    root: Seq<Seq<u8>>,
    other: Seq<Seq<u8>>,
    below: Seq<Seq<u8>>,
)
    requires
        below.len() > 0,
    ensures
        is_wanted(root, root + below, false) == is_wanted(other, other + below, false),
{
    excluded_below_either(root, other, below);
    excluded_below_either(other, root, below);
    assert((root + below).last() == below.last());
    assert((other + below).last() == below.last());
}

proof fn excluded_below_either(root: Seq<Seq<u8>>, other: Seq<Seq<u8>>, below: Seq<Seq<u8>>)
    ensures
        is_excluded(root, root + below) ==> is_excluded(other, other + below),
{
    if is_excluded(root, root + below) {
        let path = root + below;
        let i = choose|i: int|
            root.len() <= i < path.len() && is_excluded_name(#[trigger] path[i]);
        assert((other + below)[i - root.len() + other.len()] == path[i]);
    }
}

/// Of a path that does not lie below the corpus, the last name alone decides.
pub proof fn outside_the_corpus_the_name_decides(root: Seq<Seq<u8>>, path: Seq<Seq<u8>>)
    requires
        !root.is_prefix_of(path),
    ensures
        is_wanted(root, path, false) == (path.len() > 0 && path.last().len() > 3
            && path.last().skip(path.last().len() - 3) == seq![0x2eu8, 0x6d, 0x64]),
{
    if path.len() > 0 && path.last().len() > 3 {
        let name = path.last();
        let end = name.skip(name.len() - 3);
        assert(end[0] == name[name.len() - 3]);
        assert(end[1] == name[name.len() - 2]);
        assert(end[2] == name[name.len() - 1]);
        if is_markdown(path) {
            assert(end =~= seq![0x2eu8, 0x6d, 0x64]);
        }
    }
}

/// What a path resolves to is said by the first entry for it, and not known without one.
pub proof fn the_first_entry_resolves(
    entries: Seq<(Seq<Seq<u8>>, Seq<Seq<u8>>)>,
    path: Seq<Seq<u8>>,
    other: Seq<Seq<u8>>,
    target: Seq<Seq<u8>>,
)
    ensures
        canonical_of(Seq::empty(), path) is None,
        canonical_of(seq![(path, target)] + entries, path) == Some(target),
        path != other ==> canonical_of(seq![(other, target)] + entries, path) == canonical_of(
            entries,
            path,
        ),
{
    assert((seq![(path, target)] + entries).drop_first() =~= entries);
    assert((seq![(other, target)] + entries).drop_first() =~= entries);
}

/// A relative path is taken from the directory it is given with, an absolute one is as it stands.
pub proof fn only_relative_paths_are_joined(directory: Seq<u8>, path: Seq<u8>)
    ensures
        path.len() > 0 && path[0] == 0x2f ==> candidate_of(directory, path) == path,
        (path.len() == 0 || path[0] != 0x2f) && directory.len() > 0 && directory.last() != 0x2f
            ==> candidate_of(directory, path) == directory + seq![0x2fu8] + path,
        (path.len() == 0 || path[0] != 0x2f) && directory.len() > 0 && directory.last() == 0x2f
            ==> candidate_of(directory, path) == directory + path,
        (path.len() == 0 || path[0] != 0x2f) && directory.len() == 0 ==> candidate_of(
            directory,
            path,
        ) == path,
{
    if directory.len() == 0 {
        assert(directory + path =~= path);
    }
    if directory.len() > 0 && directory.last() != 0x2f {
        assert(directory.push(0x2f) + path =~= directory + seq![0x2fu8] + path);
    }
}

/// The nearest that exists is the first, going up from the path itself, and not above the root.
pub proof fn the_nearest_is_the_first_going_up(facts: Seq<AncestorFacts>, depth: nat, up: nat)
    requires
        up <= depth,
    ensures
        match nearest_existing(facts, depth, up) {
            Some(found) => {
                &&& up <= found <= depth
                &&& found < facts.len() && facts[found as int].exists
                &&& forall|k: int|
                    up <= k < found ==> !(k < facts.len() && (#[trigger] facts[k]).exists)
            },
            None => forall|k: int|
                up <= k <= depth ==> !(k < facts.len() && (#[trigger] facts[k]).exists),
        },
    decreases depth - up,
{
    reveal_with_fuel(nearest_existing, 2);
    if up < depth && !(up < facts.len() && facts[up as int].exists) {
        the_nearest_is_the_first_going_up(facts, depth, up + 1);
    }
}

/// The corpus is what its nearest existing ancestor resolves to, then the names below that one; an
/// existing corpus has to be a directory.
pub proof fn the_corpus_follows_its_nearest_ancestor(
    path: Seq<Seq<u8>>,
    facts: Seq<AncestorFacts>,
    up: nat,
)
    requires
        up < facts.len(),
        up <= path.len(),
    ensures
        facts[up as int].canonical is Err ==> resolved_corpus(path, facts, up) is None,
        up == 0 && !facts[0].is_directory ==> resolved_corpus(path, facts, up) is None,
        facts[up as int].canonical matches Ok(found) && (up > 0 || facts[0].is_directory)
            ==> resolved_corpus(path, facts, up) == Some(
            facts[up as int].canonical->Ok_0@ + path.skip(path.len() - up),
        ),
{
}

/// What is wrong with a corpus is said in words, with the path and the reason.
pub proof fn corpus_problems_are_named(path: Seq<Seq<u8>>, facts: Seq<AncestorFacts>, up: nat)
    requires
        up < facts.len(),
        up <= path.len(),
    ensures
        facts[up as int].canonical is Ok ==> corpus_problem(path, facts, up) == path_message(
            "meeting corpus is not a directory: "@,
            absolute_bytes(path),
        ),
        facts[up as int].canonical matches Err(reason) && up == 0 ==> corpus_problem(
            path,
            facts,
            up,
        ) == path_message("resolve meeting corpus "@, absolute_bytes(path)) + ": "@
            + facts[0].canonical->Err_0@,
        facts[up as int].canonical matches Err(reason) && up > 0 ==> corpus_problem(
            path,
            facts,
            up,
        ) == path_message(
            "resolve meeting corpus ancestor "@,
            absolute_bytes(path.take(path.len() - up)),
        ) + ": "@ + facts[up as int].canonical->Err_0@,
{
    assert(path.take(path.len() as int) =~= path);
}

/// The corpus is found where the configured path leads to the bound root and nowhere else.
pub proof fn corpora_are_found_at_their_root(
    corpus: Result<AbsolutePath, SearchIndexError>,
    root: Seq<Seq<u8>>,
)
    ensures
        corpus is Err ==> !leads_to(corpus, root),
        corpus is Ok ==> leads_to(corpus, root) == (corpus->Ok_0@ == root),
{
}

/// A file is opened beneath the corpus by the names that follow it, which have to be names and at
/// least one; without a NUL in the corpus nothing else stops it.
pub proof fn files_are_opened_by_the_names_below(
    root: Seq<Seq<u8>>,
    path: Seq<u8>,
    below: Seq<Part>,
)
    requires
        parts_of(path) == seq![Part::Root] + Seq::new(
            root.len(),
            |i: int| Part::Name(root[i]),
        ) + below,
    ensures
        steps_below(root, path) == Some(below),
        (below.len() == 0 || exists|i: int| 0 <= i < below.len() && !((#[trigger] below[i]) is Name))
            ==> open_refusal(root, path) == Some(
            path_message("meeting path is not a regular corpus path: "@, path),
        ),
        below.len() > 0 && (forall|i: int|
            0 <= i < below.len() ==> (#[trigger] below[i]) is Name) ==> open_refusal(root, path)
            == if absolute_bytes(root).contains(0u8) {
            Some(path_message("meeting corpus contains a NUL byte: "@, absolute_bytes(root)))
        } else {
            None
        },
        step_names(below) == Seq::new(below.len(), |i: int| below[i]->Name_0),
{
    let to_root = steps_to(root);
    assert(to_root =~= seq![Part::Root] + Seq::new(root.len(), |i: int| Part::Name(root[i])));
    assert(to_root.is_prefix_of(parts_of(path)));
    assert(parts_of(path).skip(to_root.len() as int) =~= below);
    assert(step_names(below) =~= Seq::new(below.len(), |i: int| below[i]->Name_0));
}

/// A file whose path does not start with the corpus is not opened beneath it.
pub proof fn files_outside_the_corpus_are_not_opened(root: Seq<Seq<u8>>, path: Seq<u8>)
    requires
        !(seq![Part::Root] + Seq::new(root.len(), |i: int| Part::Name(root[i]))).is_prefix_of(
            parts_of(path),
        ),
    ensures
        open_refusal(root, path) == Some(path_message("meeting path is outside corpus: "@, path)),
{
}

/// A caller's path binds through the longest of its beginnings that resolves to the corpus and
/// leaves at least one name: what follows it is found below the corpus.
pub proof fn paths_bind_through_their_nearest_corpus(
    root: Seq<Seq<u8>>,
    path: Seq<u8>,
    canonical: Seq<(Seq<Seq<u8>>, Seq<Seq<u8>>)>,
    candidate: Seq<Seq<u8>>,
    k: int,
)
    requires
        normalized(candidate_of(absolute_bytes(root), path)) == Some(candidate),
        0 <= k <= candidate.len(),
        canonical_of(canonical, candidate.take(k)) == Some(root),
        forall|j: int|
            k < j <= candidate.len() ==> canonical_of(canonical, #[trigger] candidate.take(j))
                != Some(root),
    ensures
        bound_to(root, path, canonical) == if k < candidate.len() {
            Some(root + candidate.skip(k))
        } else {
            None
        },
{
    longest_beginning_is_found(candidate, root, canonical, k, candidate.len());
}

proof fn longest_beginning_is_found(
    candidate: Seq<Seq<u8>>,
    root: Seq<Seq<u8>>,
    canonical: Seq<(Seq<Seq<u8>>, Seq<Seq<u8>>)>,
    k: int,
    from: nat,
)
    requires
        0 <= k <= from <= candidate.len(),
        canonical_of(canonical, candidate.take(k)) == Some(root),
        forall|j: int|
            k < j <= candidate.len() ==> canonical_of(canonical, #[trigger] candidate.take(j))
                != Some(root),
    ensures
        corpus_depth(candidate, root, canonical, from) == Some(k as nat),
    decreases from,
{
    if from > k {
        assert(canonical_of(canonical, candidate.take(from as int)) != Some(root));
        longest_beginning_is_found(candidate, root, canonical, k, (from - 1) as nat);
    }
}

/// A path none of whose beginnings resolves to the corpus binds to nothing, and neither does one
/// that goes above the root or is not absolute; each is told so in its own words.
pub proof fn paths_outside_bind_to_nothing(
    root: Seq<Seq<u8>>,
    path: Seq<u8>,
    canonical: Seq<(Seq<Seq<u8>>, Seq<Seq<u8>>)>,
)
    ensures
        normalized(candidate_of(absolute_bytes(root), path)) matches Some(candidate) && (forall|
            j: int,
        |
            0 <= j <= candidate.len() ==> canonical_of(canonical, #[trigger] candidate.take(j))
                != Some(root)) ==> bound_to(root, path, canonical) is None,
        normalized(candidate_of(absolute_bytes(root), path)) is None ==> bound_to(
            root,
            path,
            canonical,
        ) is None,
        normalized(candidate_of(absolute_bytes(root), path)) is Some ==> unbound_message(root, path)
            == path_message("meeting path is outside the configured corpus: "@, path),
        normalized(candidate_of(absolute_bytes(root), path)) is None ==> unbound_message(root, path)
            == path_message(
            "meeting path escapes filesystem root: "@,
            candidate_of(absolute_bytes(root), path),
        ),
{
    if let Some(candidate) = normalized(candidate_of(absolute_bytes(root), path)) {
        if forall|j: int|
            0 <= j <= candidate.len() ==> canonical_of(canonical, #[trigger] candidate.take(j))
                != Some(root) {
            no_beginning_is_found(candidate, root, canonical, candidate.len());
        }
    }
    let bytes = absolute_bytes(root);
    resolved_paths_are_spelled_from_the_root(root, Seq::empty());
    let candidate = candidate_of(bytes, path);
    assert(candidate.len() > 0 && candidate[0] == 0x2fu8);
}

proof fn no_beginning_is_found(
    candidate: Seq<Seq<u8>>,
    root: Seq<Seq<u8>>,
    canonical: Seq<(Seq<Seq<u8>>, Seq<Seq<u8>>)>,
    from: nat,
)
    requires
        from <= candidate.len(),
        forall|j: int|
            0 <= j <= candidate.len() ==> canonical_of(canonical, #[trigger] candidate.take(j))
                != Some(root),
    ensures
        corpus_depth(candidate, root, canonical, from) is None,
    decreases from,
{
    assert(canonical_of(canonical, candidate.take(from as int)) != Some(root));
    if from > 0 {
        no_beginning_is_found(candidate, root, canonical, (from - 1) as nat);
    }
}

/// A file is read for the index where its path binds below the corpus, is wanted there, and its
/// reading can be judged; else the first of these that fails is reported.
pub proof fn one_file_is_read_where_it_is_wanted(
    root: Seq<Seq<u8>>,
    path: Seq<u8>,
    canonical: Seq<(Seq<Seq<u8>>, Seq<Seq<u8>>)>,
    reading: SourceReading,
    error: SearchIndexError,
)
    ensures
        is_readable(root, path, canonical, reading) == (bound_to(root, path, canonical) is Some
            && is_wanted(root, bound_to(root, path, canonical)->0, false) && is_judged(reading)),
        reading_refusal(root, path, canonical, reading, error) == if bound_to(
            root,
            path,
            canonical,
        ) is None {
            error matches SearchIndexError::Io(message) && message@ == unbound_message(root, path)
        } else if !is_wanted(root, bound_to(root, path, canonical)->0, false) {
            error matches SearchIndexError::Io(message) && message@ == path_message(
                "path is not an indexable meeting file: "@,
                absolute_bytes(bound_to(root, path, canonical)->0),
            )
        } else if reading.snapshot is None {
            error matches SearchIndexError::Io(message) && message@
                == "meeting could not be read as a stable policy snapshot"@
        } else {
            rejection_of(reading.snapshot->0, reading.facts, reading.parsed, error)
        },
{
}

} // verus!
