//! What holds of a journal: which events are changes, what is watched and in which order, and how
//! many descriptors that takes.

use vstd::prelude::*;
use crate::descriptors::{
    all_asked, high_water_of, open_among, required_descriptors, DescriptorStatus,
};
use crate::journal::{
    correction_paths_of, departs, entries_fit, entry_problem, first_departure, inventory_refusal,
    is_above, is_change, is_inventory, is_over_budget, is_plan, is_roots_plan, is_too_much,
    is_watched, is_watched_as, key_precedes_at, leaf_of, leaf_problem, leaves_fit, path_precedes,
    says, sidecar_of, some_absent, sort_key, version_of, watches_above, CorpusEntry,
    CorrectionTarget, CorrectionTargetState, JournalError, LeafFacts, VnodeEvent, CONTENT_FLAGS,
    GRAPH_VNODE_FD_HEADROOM, MAX_DESCRIPTOR_OCCUPANCY_SCAN, MAX_GRAPH_VNODE_WATCHES,
    STRUCTURAL_FLAGS,
};
use crate::paths::{parts_of, AbsolutePath, Part};
use vstd::utf8::valid_utf8;

verus! {

/// Any event of a path other than the directory of the correction inputs is a change, whatever
/// happened. An event of that directory is one exactly where it was deleted, renamed or revoked.
pub proof fn other_events_are_changes(event: VnodeEvent, correction_root: i32)
    ensures
        event.descriptor != correction_root ==> is_change(event, correction_root),
        event.descriptor == correction_root && event.flags & 0x01 != 0 ==> is_change(
            event,
            correction_root,
        ),
        event.descriptor == correction_root && event.flags & 0x20 != 0 ==> is_change(
            event,
            correction_root,
        ),
        event.descriptor == correction_root && event.flags & 0x40 != 0 ==> is_change(
            event,
            correction_root,
        ),
        event.descriptor == correction_root && event.flags & 0x01 == 0 && event.flags & 0x20 == 0
            && event.flags & 0x40 == 0 ==> !is_change(event, correction_root),
{
    let flags = event.flags;
    assert(flags & 0x01u32 != 0 ==> flags & 0x61u32 != 0) by (bit_vector);
    assert(flags & 0x20u32 != 0 ==> flags & 0x61u32 != 0) by (bit_vector);
    assert(flags & 0x40u32 != 0 ==> flags & 0x61u32 != 0) by (bit_vector);
    assert(flags & 0x01u32 == 0 && flags & 0x20u32 == 0 && flags & 0x40u32 == 0 ==> flags & 0x61u32
        == 0) by (bit_vector);
}

/// A path whose contents matter is watched for being deleted, written, extended, linked, renamed and
/// revoked; one that only has to stay what it is for being deleted, renamed and revoked. Whatever
/// either is watched for is a change where it happens to a path other than the directory of the
/// correction inputs.
pub proof fn what_is_watched_for_is_a_change(
    flag: u32,
    descriptor: i32,
    correction_root: i32,
)
    ensures
        CONTENT_FLAGS & flag != 0 <==> (flag & 0x01 != 0 || flag & 0x02 != 0 || flag & 0x04 != 0
            || flag & 0x10 != 0 || flag & 0x20 != 0 || flag & 0x40 != 0),
        STRUCTURAL_FLAGS & flag != 0 <==> (flag & 0x01 != 0 || flag & 0x20 != 0 || flag & 0x40
            != 0),
        descriptor != correction_root && CONTENT_FLAGS & flag != 0 ==> is_change(
            VnodeEvent { descriptor, flags: flag },
            correction_root,
        ),
        descriptor != correction_root && STRUCTURAL_FLAGS & flag != 0 ==> is_change(
            VnodeEvent { descriptor, flags: flag },
            correction_root,
        ),
{
    assert(0x77u32 & flag != 0 <==> (flag & 0x01u32 != 0 || flag & 0x02u32 != 0 || flag & 0x04u32
        != 0 || flag & 0x10u32 != 0 || flag & 0x20u32 != 0 || flag & 0x40u32 != 0)) by (bit_vector);
    assert(0x61u32 & flag != 0 <==> (flag & 0x01u32 != 0 || flag & 0x20u32 != 0 || flag & 0x40u32
        != 0)) by (bit_vector);
}

/// A correction input is what it was exactly where it could be looked at and has the version that it
/// had, or still is not there.
pub proof fn inputs_depart_by_any_difference(target: CorrectionTarget)
    ensures
        departs(target) == !(target.current == Ok::<Option<CorrectionTargetState>, JournalError>(
            target.expected,
        )),
{
}

/// The correction input that is reported is the first that is not what it was; none is exactly where
/// each is.
pub proof fn departures_are_found_in_order(targets: Seq<CorrectionTarget>, from: nat)
    ensures
        match first_departure(targets, from) {
            Some(found) => {
                &&& from <= found < targets.len()
                &&& targets[found as int].current != Ok::<
                    Option<CorrectionTargetState>,
                    JournalError,
                >(targets[found as int].expected)
                &&& forall|i: int|
                    from <= i < found ==> (#[trigger] targets[i]).current == Ok::<
                        Option<CorrectionTargetState>,
                        JournalError,
                    >(targets[i].expected)
            },
            None => forall|i: int|
                from <= i < targets.len() ==> (#[trigger] targets[i]).current == Ok::<
                    Option<CorrectionTargetState>,
                    JournalError,
                >(targets[i].expected),
        },
    decreases targets.len() - from,
{
    if from < targets.len() && !departs(targets[from as int]) {
        departures_are_found_in_order(targets, from + 1);
    }
}

/// One input that was not there when the journal began is enough for what happens in its directory
/// to count.
pub proof fn one_absent_input_is_enough(targets: Seq<CorrectionTarget>, i: int)
    requires
        0 <= i < targets.len(),
    ensures
        targets[i].expected is None ==> some_absent(targets),
        (forall|k: int| 0 <= k < targets.len() ==> (#[trigger] targets[k]).expected is Some)
            ==> !some_absent(targets),
{
    assert(targets[i] == targets[i]);
}

/// Two versions of a correction input are told apart by each of the six things that are kept of it.
pub proof fn versions_are_told_apart(
    device: u64,
    inode: u64,
    links: u64,
    length: u64,
    seconds: i64,
    nanoseconds: i64,
)
    ensures
        ({
            let version = version_of(
                LeafFacts::Present {
                    is_file: true,
                    is_symlink: false,
                    device,
                    inode,
                    links,
                    length,
                    modified_seconds: seconds,
                    modified_nanoseconds: nanoseconds,
                },
            );
            &&& version.device == device
            &&& version.inode == inode
            &&& version.links == links
            &&& version.length == length
            &&& version.modified_seconds == seconds
            &&& version.modified_nanoseconds == nanoseconds
        }),
{
}

/// The correction inputs are the two files and, where the name of the second is text, the files
/// beside it that are named like it with `-wal`, `-shm` and `-journal` behind.
pub proof fn sidecars_are_inputs_too(
    vocabulary: Seq<Seq<u8>>,
    directory: Seq<Seq<u8>>,
    name: Seq<u8>,
)
    ensures
        correction_paths_of(vocabulary, Seq::empty()) == seq![vocabulary, Seq::empty()],
        !valid_utf8(name) ==> correction_paths_of(vocabulary, directory.push(name)) == seq![
            vocabulary,
            directory.push(name),
        ],
        valid_utf8(name) ==> correction_paths_of(vocabulary, directory.push(name)) == seq![
            vocabulary,
            directory.push(name),
            directory.push(name + seq![0x2du8, 0x77, 0x61, 0x6c]),
            directory.push(name + seq![0x2du8, 0x73, 0x68, 0x6d]),
            directory.push(name + seq![0x2du8, 0x6a, 0x6f, 0x75, 0x72, 0x6e, 0x61, 0x6c]),
        ],
{
    let overlays = directory.push(name);
    assert(overlays.drop_last() =~= directory);
    assert(correction_paths_of(vocabulary, Seq::empty()) =~= seq![vocabulary, Seq::empty()]);
    if valid_utf8(name) {
        assert(sidecar_of(overlays, seq![0x2du8, 0x77, 0x61, 0x6c]) =~= directory.push(
            name + seq![0x2du8, 0x77, 0x61, 0x6c],
        ));
        assert(correction_paths_of(vocabulary, overlays) =~= seq![
            vocabulary,
            overlays,
            directory.push(name + seq![0x2du8, 0x77, 0x61, 0x6c]),
            directory.push(name + seq![0x2du8, 0x73, 0x68, 0x6d]),
            directory.push(name + seq![0x2du8, 0x6a, 0x6f, 0x75, 0x72, 0x6e, 0x61, 0x6c]),
        ]);
    } else {
        assert(correction_paths_of(vocabulary, overlays) =~= seq![vocabulary, overlays]);
    }
}

/// Plans that watch more than is allowed together are over their budget, and no others are.
pub proof fn budgets_are_sums(roots: nat, paths: nat, most: usize)
    ensures
        roots + paths <= usize::MAX ==> is_over_budget(roots, paths, most) == (roots + paths
            > most),
        roots + paths > usize::MAX ==> is_over_budget(roots, paths, most) == (most < usize::MAX),
        MAX_GRAPH_VNODE_WATCHES == 8_192,
        GRAPH_VNODE_FD_HEADROOM == 512,
        MAX_DESCRIPTOR_OCCUPANCY_SCAN == 100_000,
{
}

/// A plan of the roots watches both for their contents, every directory above either for staying
/// what it is, and nothing beside them.
pub proof fn roots_are_watched_with_what_is_above(
    corpus: Seq<Seq<u8>>,
    corrections: Seq<Seq<u8>>,
    plan: Seq<(Seq<Seq<u8>>, bool)>,
    n: int,
    path: Seq<Seq<u8>>,
)
    requires
        is_roots_plan(corpus, corrections, plan),
        0 <= n,
    ensures
        is_watched_as(plan, corpus, true),
        is_watched_as(plan, corrections, true),
        n < corpus.len() && corpus.take(n) != corrections ==> is_watched_as(
            plan,
            corpus.take(n),
            false,
        ),
        n < corrections.len() && corrections.take(n) != corpus ==> is_watched_as(
            plan,
            corrections.take(n),
            false,
        ),
        !path.is_prefix_of(corpus) && !path.is_prefix_of(corrections) ==> !is_watched_as(
            plan,
            path,
            true,
        ) && !is_watched_as(plan, path, false),
        is_plan(plan),
{
    if n < corpus.len() {
        assert(corpus.take(n).len() == n);
        assert(is_above(corpus.take(n), corpus));
        assert(corpus.take(n) != corpus);
        assert(is_watched_as(plan, corpus.take(n), false) == if corpus.take(n) == corpus
            || corpus.take(n) == corrections {
            false
        } else {
            true
        });
    }
    if n < corrections.len() {
        assert(corrections.take(n).len() == n);
        assert(is_above(corrections.take(n), corrections));
        assert(corrections.take(n) != corrections);
    }
    if is_above(path, corpus) {
        assert(path.is_prefix_of(corpus));
    }
    if is_above(path, corrections) {
        assert(path.is_prefix_of(corrections));
    }
    assert(corpus.is_prefix_of(corpus));
    assert(corrections.is_prefix_of(corrections));
}

/// Watching what is above a root adds each directory on the way to it that was not watched, and
/// changes nothing that was.
pub proof fn ancestors_are_added_where_they_are_missing(
    before: Seq<(Seq<Seq<u8>>, bool)>,
    root: Seq<Seq<u8>>,
    after: Seq<(Seq<Seq<u8>>, bool)>,
    n: int,
    path: Seq<Seq<u8>>,
    content: bool,
)
    requires
        watches_above(before, root, 0, after),
        0 <= n < root.len(),
    ensures
        is_watched_as(before, path, content) ==> is_watched_as(after, path, content),
        !is_watched(before, root.take(n)) ==> is_watched_as(after, root.take(n), false),
        is_watched_as(after, path, true) ==> is_watched_as(before, path, true),
        is_watched_as(after, path, content) && !is_watched_as(before, path, content)
            ==> path.is_prefix_of(root) && path != root,
{
    assert(root.take(n).len() == n);
    assert(is_above(root.take(n), root));
}

/// An inventory watches, for its contents, each entry that was listed and each correction input that
/// is there, unless it is watched as a root; and nothing else.
pub proof fn inventories_watch_what_was_listed(
    roots: Seq<(Seq<Seq<u8>>, bool)>,
    entries: Seq<CorpusEntry>,
    leaves: Seq<(AbsolutePath, LeafFacts)>,
    plan: Seq<(Seq<Seq<u8>>, bool)>,
    i: int,
    path: Seq<Seq<u8>>,
)
    requires
        is_inventory(roots, entries, leaves, plan),
        0 <= i,
    ensures
        i < entries.len() ==> (entries[i].path matches Ok(found) ==> is_watched(roots, found@)
            || is_watched_as(plan, found@, true)),
        i < leaves.len() && leaves[i].1 is Present ==> is_watched(roots, leaves[i].0@)
            || is_watched_as(plan, leaves[i].0@, true),
        !is_watched_as(plan, path, false),
        is_watched(roots, path) ==> !is_watched_as(plan, path, true),
        (forall|k: int|
            0 <= k < entries.len() ==> !((#[trigger] entries[k]).path matches Ok(found) && found@
                == path)) && (forall|k: int|
            0 <= k < leaves.len() ==> !((#[trigger] leaves[k]).0@ == path && leaves[k].1
                is Present)) ==> !is_watched_as(plan, path, true),
        is_plan(plan),
{
    if i < entries.len() {
        assert(entries[i] == entries[i]);
        if let Ok(found) = entries[i].path {
            assert(is_watched_as(plan, found@, true) == (!is_watched(roots, found@) && (
            crate::journal::has_entry(entries, found@) || crate::journal::has_leaf(
                leaves,
                found@,
            ))));
        }
    }
    if i < leaves.len() && leaves[i].1 is Present {
        assert(crate::journal::has_leaf(leaves, leaves[i].0@));
    }
}

/// An entry that could not be walked is a problem in the words of the walk, and a symbolic link is
/// one of its own. Of a correction input, one that could not be looked at and a symbolic link is a
/// problem; one that is not there is none.
pub proof fn links_and_failures_are_problems(entry: CorpusEntry, reason: String, facts: LeafFacts)
    ensures
        entry.path matches Err(reason) ==> entry_problem(entry) == Some(reason@),
        entry.path is Ok && entry.is_symlink ==> entry_problem(entry)
            == Some("macOS graph journal refuses symlinked corpus entries"@),
        entry.path is Ok && !entry.is_symlink ==> entry_problem(entry) is None,
        leaf_problem(LeafFacts::Missing) is None,
        leaf_problem(LeafFacts::Failed(reason)) == Some(reason@),
        facts matches LeafFacts::Present { is_symlink, .. } ==> leaf_problem(facts)
            == if is_symlink {
            Some("macOS graph journal refuses symlinked correction inputs"@)
        } else {
            None
        },
{
}

/// Whatever is refused of an inventory is refused for a reason that is there: an entry that is not to
/// be watched, a correction input that is not to be, or too many watches.
pub proof fn inventories_are_refused_for_a_reason(
    roots: Seq<(Seq<Seq<u8>>, bool)>,
    entries: Seq<CorpusEntry>,
    leaves: Seq<(AbsolutePath, LeafFacts)>,
    max_watches: usize,
    message: Seq<char>,
)
    requires
        inventory_refusal(roots, entries, leaves, max_watches, message),
    ensures
        ({
            ||| exists|i: int|
                0 <= i < entries.len() && entry_problem(#[trigger] entries[i]) == Some(message)
                    && forall|k: int| 0 <= k < i ==> entry_problem(#[trigger] entries[k]) is None
            ||| exists|i: int|
                0 <= i < leaves.len() && leaf_problem((#[trigger] leaves[i]).1) == Some(message)
                    && forall|k: int| 0 <= k < i ==> leaf_problem((#[trigger] leaves[k]).1) is None
            ||| message == "macOS graph journal vnode budget exceeded"@ && exists|
                n: int,
                m: int,
                plan: Seq<(Seq<Seq<u8>>, bool)>,
            |
                0 <= n <= entries.len() && 0 <= m <= leaves.len() && #[trigger] is_inventory(
                    roots,
                    entries.take(n),
                    leaves.take(m),
                    plan,
                ) && (roots.len() + plan.len() > max_watches)
        }),
{
    let none = Seq::<(AbsolutePath, LeafFacts)>::empty();
    if exists|i: int|
        0 <= i < entries.len() && #[trigger] entries_fit(roots, entries.take(i), max_watches) && (
        match entry_problem(entries[i]) {
            Some(problem) => message == problem,
            None => message == crate::journal::budget_message() && is_too_much(
                roots,
                entries.take(i + 1),
                Seq::empty(),
                max_watches,
            ),
        }) {
        let i = choose|i: int|
            0 <= i < entries.len() && #[trigger] entries_fit(roots, entries.take(i), max_watches)
                && (match entry_problem(entries[i]) {
                Some(problem) => message == problem,
                None => message == crate::journal::budget_message() && is_too_much(
                    roots,
                    entries.take(i + 1),
                    Seq::empty(),
                    max_watches,
                ),
            });
        assert forall|k: int| 0 <= k < i implies entry_problem(#[trigger] entries[k]) is None by {
            assert(entries.take(i)[k] == entries[k]);
        }
        if entry_problem(entries[i]) is None {
            let plan = choose|plan: Seq<(Seq<Seq<u8>>, bool)>| #[trigger]
                is_inventory(roots, entries.take(i + 1), none, plan) && is_over_budget(
                    roots.len(),
                    plan.len(),
                    max_watches,
                );
            assert(leaves.take(0) =~= none);
            assert(is_inventory(roots, entries.take(i + 1), leaves.take(0), plan));
        }
    } else if exists|i: int|
        0 <= i < leaves.len() && #[trigger] leaves_fit(leaves.take(i)) && leaf_problem(leaves[i].1)
            == Some(message) {
        let i = choose|i: int|
            0 <= i < leaves.len() && #[trigger] leaves_fit(leaves.take(i)) && leaf_problem(
                leaves[i].1,
            ) == Some(message);
        assert forall|k: int| 0 <= k < i implies leaf_problem((#[trigger] leaves[k]).1) is None by {
            assert(leaves.take(i)[k] == leaves[k]);
        }
    } else {
        let plan = choose|plan: Seq<(Seq<Seq<u8>>, bool)>| #[trigger]
            is_inventory(roots, entries, leaves, plan) && is_over_budget(
                roots.len(),
                plan.len(),
                max_watches,
            );
        assert(entries.take(entries.len() as int) =~= entries);
        assert(leaves.take(leaves.len() as int) =~= leaves);
        assert(is_inventory(
            roots,
            entries.take(entries.len() as int),
            leaves.take(leaves.len() as int),
            plan,
        ));
    }
}

proof fn keys_follow_each_other(first: Seq<Seq<u8>>, second: Seq<Seq<u8>>)
    ensures
        sort_key(first + second) == sort_key(first) + sort_key(second),
    decreases second.len(),
{
    if second.len() == 0 {
        assert(first + second =~= first);
        assert(sort_key(first) + sort_key(second) =~= sort_key(first));
    } else {
        assert((first + second).drop_last() =~= first + second.drop_last());
        keys_follow_each_other(first, second.drop_last());
        assert(sort_key(first + second) =~= sort_key(first) + sort_key(second));
    }
}

proof fn key_of_one(name: Seq<u8>)
    ensures
        sort_key(seq![name]).len() == name.len() + 1,
        forall|i: int| 0 <= i < name.len() ==> #[trigger] sort_key(seq![name])[i] == name[i] + 1,
        sort_key(seq![name])[name.len() as int] == 0,
{
    assert(seq![name].drop_last() =~= Seq::<Seq<u8>>::empty());
    reveal_with_fuel(sort_key, 2);
}

/// Paths are ordered name by name: a directory comes before what is in it, and of two entries of one
/// directory the one whose name comes first, by its bytes, comes before the other, with all that is
/// in each.
pub proof fn paths_are_ordered_by_their_names(
    directory: Seq<Seq<u8>>,
    left: Seq<u8>,
    left_rest: Seq<Seq<u8>>,
    right: Seq<u8>,
    right_rest: Seq<Seq<u8>>,
    k: int,
)
    ensures
        path_precedes(directory, directory + seq![left] + left_rest),
        0 <= k <= left.len() && k < right.len() && (forall|i: int|
            0 <= i < k ==> left[i] == right[i]) && (k < left.len() ==> left[k] < right[k])
            ==> path_precedes(
            directory + seq![left] + left_rest,
            directory + seq![right] + right_rest,
        ),
{
    let base = sort_key(directory);
    let first = directory + seq![left] + left_rest;
    let second = directory + seq![right] + right_rest;
    keys_follow_each_other(directory, seq![left]);
    keys_follow_each_other(directory + seq![left], left_rest);
    keys_follow_each_other(directory, seq![right]);
    keys_follow_each_other(directory + seq![right], right_rest);
    key_of_one(left);
    key_of_one(right);
    let a = sort_key(first);
    let b = sort_key(second);
    assert(key_precedes_at(base, a, base.len() as int));
    if 0 <= k <= left.len() && k < right.len() && (forall|i: int|
        0 <= i < k ==> left[i] == right[i]) && (k < left.len() ==> left[k] < right[k]) {
        let at = base.len() + k;
        assert forall|i: int| 0 <= i < at implies a[i] == b[i] by {
            if i >= base.len() {
                assert(a[i] == sort_key(seq![left])[i - base.len()]);
                assert(b[i] == sort_key(seq![right])[i - base.len()]);
                assert(left[i - base.len()] == right[i - base.len()]);
            }
        }
        assert(a[at] == sort_key(seq![left])[k]);
        assert(b[at] == sort_key(seq![right])[k]);
        assert(key_precedes_at(a, b, at));
    }
}

/// As many descriptors must be allowed as are open or lie below the highest open one, whichever is
/// more, and those that are planned, and 513 beside them.
pub proof fn descriptors_leave_headroom(additional: usize, open_count: usize, high_water: usize)
    ensures
        required_descriptors(additional, open_count, high_water) >= open_count + additional + 513,
        required_descriptors(additional, open_count, high_water) >= high_water + additional + 513,
        required_descriptors(additional, open_count, high_water) == open_count + additional + 513
            || required_descriptors(additional, open_count, high_water) == high_water + additional
            + 513,
{
}

/// Each open descriptor counts once, and the highest of them is one below the mark. Only one that
/// could not be asked spoils a count.
pub proof fn open_descriptors_are_counted(
    statuses: Seq<DescriptorStatus>,
    next: DescriptorStatus,
)
    ensures
        open_among(Seq::empty()) == 0,
        high_water_of(Seq::empty()) == 0,
        all_asked(Seq::empty()),
        open_among(statuses.push(next)) == open_among(statuses) + if next is Open {
            1nat
        } else {
            0nat
        },
        high_water_of(statuses.push(next)) == if next is Open {
            statuses.len() + 1
        } else {
            high_water_of(statuses)
        },
        all_asked(statuses.push(next)) == (all_asked(statuses) && !(next is Failed)),
{
    let more = statuses.push(next);
    assert(more.drop_last() =~= statuses);
    assert(more[statuses.len() as int] == next);
    if all_asked(more) {
        assert forall|i: int| 0 <= i < statuses.len() implies !((#[trigger] statuses[i])
            is Failed) by {
            assert(more[i] == statuses[i]);
        }
    }
}

/// A plan watches the paths that were put into it, each as it was put in.
pub proof fn plans_watch_each_of_their_paths(
    plan: Seq<(Seq<Seq<u8>>, bool)>,
    added: Seq<Seq<u8>>,
    path: Seq<Seq<u8>>,
    content: bool,
    other: bool,
)
    ensures
        !is_watched(Seq::empty(), path),
        !is_watched_as(Seq::empty(), path, content),
        is_watched(plan.push((added, content)), path) == (is_watched(plan, path) || added == path),
        is_watched_as(plan.push((added, content)), path, other) == (is_watched_as(plan, path, other)
            || (added == path && content == other)),
{
    let more = plan.push((added, content));
    assert(more[plan.len() as int] == (added, content));
    if is_watched(plan, path) {
        let i = choose|i: int| 0 <= i < plan.len() && (#[trigger] plan[i]).0 == path;
        assert(more[i] == plan[i]);
    }
    if is_watched(more, path) && added != path {
        let i = choose|i: int| 0 <= i < more.len() && (#[trigger] more[i]).0 == path;
        assert(plan[i] == more[i]);
    }
    if is_watched_as(plan, path, other) {
        let i = choose|i: int| 0 <= i < plan.len() && #[trigger] plan[i] == (path, other);
        assert(more[i] == plan[i]);
    }
    if is_watched_as(more, path, other) && !(added == path && content == other) {
        let i = choose|i: int| 0 <= i < more.len() && #[trigger] more[i] == (path, other);
        assert(plan[i] == more[i]);
    }
}

/// A plan has no path twice, and none behind one that it comes before.
pub proof fn plans_are_in_order(
    before: Seq<(Seq<Seq<u8>>, bool)>,
    first: (Seq<Seq<u8>>, bool),
    between: Seq<(Seq<Seq<u8>>, bool)>,
    second: (Seq<Seq<u8>>, bool),
    after: Seq<(Seq<Seq<u8>>, bool)>,
)
    requires
        is_plan(before + seq![first] + between + seq![second] + after),
    ensures
        first.0 != second.0,
        !path_precedes(second.0, first.0),
{
    let plan = before + seq![first] + between + seq![second] + after;
    let i = before.len() as int;
    let j = (before.len() + 1 + between.len()) as int;
    assert(plan[i] == first);
    assert(plan[j] == second);
}

/// The leaf of a path is the name that it ends in; one that ends in none has no leaf.
pub proof fn leaves_are_last_names(path: Seq<u8>, name: Seq<u8>)
    ensures
        parts_of(path).len() == 0 ==> leaf_of(path) is None,
        parts_of(path).len() > 0 && parts_of(path).last() == Part::Name(name) ==> leaf_of(path)
            == Some(name),
        parts_of(path).len() > 0 && !(parts_of(path).last() is Name) ==> leaf_of(path) is None,
{
}

/// No entries always fit; some fit where none of them has a problem and what is watched for them is
/// within the budget.
pub proof fn entries_fit_within_the_budget(
    roots: Seq<(Seq<Seq<u8>>, bool)>,
    entries: Seq<CorpusEntry>,
    entry: CorpusEntry,
    max_watches: usize,
)
    ensures
        entries_fit(roots, Seq::empty(), max_watches),
        entries_fit(roots, entries.push(entry), max_watches) ==> entry_problem(entry) is None
            && exists|plan: Seq<(Seq<Seq<u8>>, bool)>| #[trigger]
            is_inventory(roots, entries.push(entry), Seq::empty(), plan) && !is_over_budget(
                roots.len(),
                plan.len(),
                max_watches,
            ),
{
    assert(entries.push(entry)[entries.len() as int] == entry);
}

/// A journal error says what its message is.
pub proof fn journal_errors_say_their_message(error: JournalError, text: Seq<char>)
    ensures
        says(error, text) == (error.message@ == text),
{
}

/// Of two paths at most one comes before the other, and none before itself.
pub proof fn at_most_one_of_two_paths_comes_first(left: Seq<Seq<u8>>, right: Seq<Seq<u8>>)
    ensures
        path_precedes(left, right) ==> !path_precedes(right, left),
        !path_precedes(left, left),
{
    let a = sort_key(left);
    let b = sort_key(right);
    assert forall|k: int| !key_precedes_at(a, a, k) by {}
    if path_precedes(left, right) && path_precedes(right, left) {
        let i = choose|k: int| key_precedes_at(a, b, k);
        let j = choose|k: int| key_precedes_at(b, a, k);
        if i < j {
            assert(b[i] == a[i]);
        } else if j < i {
            assert(a[j] == b[j]);
        }
    }
}

} // verus!
