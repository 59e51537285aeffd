//! The journal of one graph snapshot: which files are watched, and what their events say.

use vstd::prelude::*;
use crate::corpus::has_nul;
use crate::journal_laws::other_events_are_changes;
use crate::paths::{
    absolute_bytes, append_bytes, copied_bytes, is_entry_name, is_utf8, parts_name_entries,
    parts_of, parts_view, AbsolutePath, FilePath, Part, PathComponent,
};
use vstd::utf8::valid_utf8;

verus! {

/// How many files one journal may watch.
pub const MAX_GRAPH_VNODE_WATCHES: usize = 8_192;

/// How many descriptors are left free beside those of a journal.
pub const GRAPH_VNODE_FD_HEADROOM: usize = 512;

/// The highest limit up to which open descriptors are counted.
pub const MAX_DESCRIPTOR_OCCUPANCY_SCAN: usize = 100_000;

/// The flags of a file or directory whose contents matter: deleted, written, extended, linked,
/// renamed or revoked.
pub const CONTENT_FLAGS: u32 = 0x77;

/// The flags of a directory that only has to stay what it is: deleted, renamed or revoked.
pub const STRUCTURAL_FLAGS: u32 = 0x61;

/// Why a journal cannot be had.
#[derive(Debug)]
pub struct JournalError {
    pub message: String,
}

/// Whether an error says this.
pub open spec fn says(error: JournalError, text: Seq<char>) -> bool {
    error.message@ == text
}

fn journal_error(text: &str) -> (error: JournalError)
    ensures
        says(error, text@),
{
    JournalError { message: text.to_owned() }
}

/// What a watched path is waited on for.
pub fn watch_flags(content: bool) -> (flags: u32)
    ensures
        flags == if content {
            CONTENT_FLAGS
        } else {
            STRUCTURAL_FLAGS
        },
        content ==> flags == 0x77,
        !content ==> flags == 0x61,
{
    if content {
        CONTENT_FLAGS
    } else {
        STRUCTURAL_FLAGS
    }
}

/// Whatever a directory that has to stay what it is is watched for, one whose contents matter is
/// watched for too.
pub proof fn contents_cover_structure(event: u32)
    ensures
        event & STRUCTURAL_FLAGS != 0 ==> event & CONTENT_FLAGS != 0,
{
    assert(event & 0x61u32 != 0 ==> event & 0x77u32 != 0) by (bit_vector);
}

/// A path as numbers that sort as its names do: each byte one higher, and a zero after each name.
pub open spec fn sort_key(path: Seq<Seq<u8>>) -> Seq<u16>
    decreases path.len(),
{
    if path.len() == 0 {
        Seq::empty()
    } else {
        sort_key(path.drop_last()) + Seq::new(
            path.last().len(),
            |i: int| (path.last()[i] + 1) as u16,
        ).push(0u16)
    }
}

/// `left` comes before `right`, the first difference being at `k`.
pub open spec fn key_precedes_at(left: Seq<u16>, right: Seq<u16>, k: int) -> bool {
    &&& 0 <= k <= left.len()
    &&& k < right.len()
    &&& forall|i: int| 0 <= i < k ==> left[i] == right[i]
    &&& k < left.len() ==> left[k] < right[k]
}

/// Whether `left` comes before `right`: by the first number that differs, or by ending first.
pub open spec fn key_precedes(left: Seq<u16>, right: Seq<u16>) -> bool {
    exists|k: int| #[trigger] key_precedes_at(left, right, k)
}

/// Whether a path comes before another: by the first name that differs, or as its ancestor.
pub open spec fn path_precedes(left: Seq<Seq<u8>>, right: Seq<Seq<u8>>) -> bool {
    key_precedes(sort_key(left), sort_key(right))
}

proof fn key_order_is_total(a: Seq<u16>, b: Seq<u16>, k: int)
    requires
        0 <= k <= a.len(),
        k <= b.len(),
        forall|i: int| 0 <= i < k ==> a[i] == b[i],
    ensures
        a == b || key_precedes(a, b) || key_precedes(b, a),
    decreases a.len() - k,
{
    if k == a.len() && k == b.len() {
        assert(a =~= b);
    } else if k == a.len() {
        assert(key_precedes_at(a, b, k));
    } else if k == b.len() {
        assert(key_precedes_at(b, a, k));
    } else if a[k] == b[k] {
        key_order_is_total(a, b, k + 1);
    } else if a[k] < b[k] {
        assert(key_precedes_at(a, b, k));
    } else {
        assert(key_precedes_at(b, a, k));
    }
}

proof fn key_order_is_transitive(a: Seq<u16>, b: Seq<u16>, c: Seq<u16>)
    requires
        key_precedes(a, b),
        key_precedes(b, c),
    ensures
        key_precedes(a, c),
{
    let j = choose|k: int| #[trigger] key_precedes_at(a, b, k);
    let k = choose|k: int| #[trigger] key_precedes_at(b, c, k);
    if j <= k {
        assert(key_precedes_at(a, c, j));
    } else {
        assert(key_precedes_at(a, c, k));
    }
}

proof fn key_order_is_asymmetric(a: Seq<u16>, b: Seq<u16>)
    requires
        key_precedes(a, b),
    ensures
        !key_precedes(b, a),
{
    if key_precedes(b, a) {
        let j = choose|k: int| #[trigger] key_precedes_at(a, b, k);
        let k = choose|k: int| #[trigger] key_precedes_at(b, a, k);
        assert(j < k ==> a[j] == b[j]);
        assert(k < j ==> a[k] == b[k]);
    }
}

fn key_of(path: &AbsolutePath) -> (key: Vec<u16>)
    ensures
        key@ == sort_key(path@),
{
    let mut key: Vec<u16> = Vec::new();
    let depth: usize = path.depth();
    let mut i: usize = 0;
    assert(path@.take(0) =~= Seq::<Seq<u8>>::empty());
    while i < depth
        invariant
            depth == path@.len(),
            i <= depth,
            key@ == sort_key(path@.take(i as int)),
        decreases depth - i,
    {
        let name = path.name(i);
        let ghost before = key@;
        let ghost numbers = Seq::new(name@.len(), |j: int| (name@[j] + 1) as u16);
        let mut j: usize = 0;
        assert(before + numbers.take(0) =~= before);
        while j < name.len()
            invariant
                j <= name@.len(),
                numbers == Seq::new(name@.len(), |j: int| (name@[j] + 1) as u16),
                key@ == before + numbers.take(j as int),
            decreases name@.len() - j,
        {
            key.push(name[j] as u16 + 1);
            j = j + 1;
            assert(before + numbers.take(j as int) =~= (before + numbers.take(j - 1)).push(
                numbers[j - 1],
            ));
        }
        assert(numbers.take(j as int) =~= numbers);
        key.push(0);
        i = i + 1;
        assert(path@.take(i as int).drop_last() =~= path@.take(i - 1));
        assert(path@.take(i as int).last() == name@);
        assert((before + numbers).push(0u16) =~= before + numbers.push(0u16));
    }
    assert(path@.take(i as int) =~= path@);
    key
}

fn key_less(left: &Vec<u16>, right: &Vec<u16>) -> (less: bool)
    ensures
        less == key_precedes(left@, right@),
{
    let mut i: usize = 0;
    while i < left.len() && i < right.len() && left[i] == right[i]
        invariant
            i <= left@.len(),
            i <= right@.len(),
            forall|k: int| 0 <= k < i ==> left@[k] == right@[k],
        decreases left@.len() - i,
    {
        i = i + 1;
    }
    let less = i < right.len() && (i == left.len() || left[i] < right[i]);
    proof {
        if less {
            assert(key_precedes_at(left@, right@, i as int));
        } else {
            assert forall|k: int| !#[trigger] key_precedes_at(left@, right@, k) by {
                if key_precedes_at(left@, right@, k) {
                    if k < i {
                        assert(left@[k] == right@[k]);
                    } else if k > i {
                        assert(left@[i as int] == right@[i as int]);
                    }
                }
            }
        }
    }
    less
}

/// The paths to watch, each with whether its contents matter. They stand in their order, and each
/// stands once.
pub struct WatchPlan {
    entries: Vec<(AbsolutePath, bool)>,
}

impl View for WatchPlan {
    type V = Seq<(Seq<Seq<u8>>, bool)>;

    closed spec fn view(&self) -> Seq<(Seq<Seq<u8>>, bool)> {
        Seq::new(self.entries@.len(), |i: int| (self.entries@[i].0@, self.entries@[i].1))
    }
}

/// Whether a plan has a path.
pub open spec fn is_watched(plan: Seq<(Seq<Seq<u8>>, bool)>, path: Seq<Seq<u8>>) -> bool {
    exists|i: int| 0 <= i < plan.len() && (#[trigger] plan[i]).0 == path
}

/// Whether the paths of a plan stand in their order, and each once.
pub open spec fn is_plan(plan: Seq<(Seq<Seq<u8>>, bool)>) -> bool {
    forall|i: int, j: int|
        0 <= i < j < plan.len() ==> #[trigger] plan[i].0 != #[trigger] plan[j].0 && !path_precedes(
            plan[j].0,
            plan[i].0,
        )
}

/// `after` is `before` with `path` watched: anew, or with its contents as said.
pub open spec fn watches(
    before: Seq<(Seq<Seq<u8>>, bool)>,
    path: Seq<Seq<u8>>,
    content: bool,
    after: Seq<(Seq<Seq<u8>>, bool)>,
) -> bool {
    if is_watched(before, path) {
        exists|i: int|
            0 <= i < before.len() && (#[trigger] before[i]).0 == path && after == before.update(
                i,
                (path, content),
            )
    } else {
        exists|at: int|
            0 <= at <= before.len() && after == #[trigger] before.insert(at, (path, content))
    }
}

proof fn inserting_keeps_a_plan(
    before: Seq<(Seq<Seq<u8>>, bool)>,
    path: Seq<Seq<u8>>,
    content: bool,
    at: int,
)
    requires
        is_plan(before),
        !is_watched(before, path),
        0 <= at <= before.len(),
        forall|k: int| 0 <= k < at ==> !path_precedes(path, (#[trigger] before[k]).0),
        at < before.len() ==> path_precedes(path, before[at].0),
    ensures
        is_plan(before.insert(at, (path, content))),
{
    let after = before.insert(at, (path, content));
    assert forall|i: int, j: int| 0 <= i < j < after.len() implies #[trigger] after[i].0
        != #[trigger] after[j].0 && !path_precedes(after[j].0, after[i].0) by {
        let a = if i < at {
            i
        } else {
            i - 1
        };
        let b = if j < at {
            j
        } else {
            j - 1
        };
        if i == at {
            assert(after[j] == before[b]);
            assert(before[b].0 != path);
            let key = sort_key(path);
            let other = sort_key(before[b].0);
            if b > at {
                assert(before[at].0 != before[b].0);
                let first = sort_key(before[at].0);
                key_order_is_total(first, other, 0);
                if key_precedes(first, other) {
                    key_order_is_transitive(key, first, other);
                }
            }
            assert(key_precedes(key, other));
            key_order_is_asymmetric(key, other);
        } else if j == at {
            assert(after[i] == before[a]);
            assert(before[a].0 != path);
        } else {
            assert(after[i] == before[a] && after[j] == before[b]);
            assert(before[a].0 != before[b].0);
        }
    }
}

impl WatchPlan {
    #[verifier::type_invariant]
    spec fn in_order(self) -> bool {
        is_plan(self@)
    }

    /// A plan that watches nothing.
    pub fn new() -> (plan: Self)
        ensures
            plan@.len() == 0,
    {
        WatchPlan { entries: Vec::new() }
    }

    /// How many paths are watched.
    pub fn len(&self) -> (n: usize)
        ensures
            n == self@.len(),
            is_plan(self@),
    {
        proof {
            use_type_invariant(self);
        }
        self.entries.len()
    }

    /// The path at `index`.
    pub fn path(&self, index: usize) -> (path: &AbsolutePath)
        requires
            index < self@.len(),
        ensures
            path@ == self@[index as int].0,
    {
        &self.entries[index].0
    }

    /// Whether the contents of the path at `index` matter.
    pub fn content(&self, index: usize) -> (content: bool)
        requires
            index < self@.len(),
        ensures
            content == self@[index as int].1,
    {
        self.entries[index].1
    }

    fn position(&self, path: &AbsolutePath) -> (found: Option<usize>)
        ensures
            match found {
                Some(i) => i < self@.len() && self@[i as int].0 == path@,
                None => !is_watched(self@, path@),
            },
    {
        let mut i: usize = 0;
        while i < self.entries.len()
            invariant
                i <= self.entries@.len(),
                forall|k: int| 0 <= k < i ==> (#[trigger] self@[k]).0 != path@,
            decreases self.entries@.len() - i,
        {
            assert(self@[i as int].0 == self.entries@[i as int].0@);
            if self.entries[i].0.same(path) {
                return Some(i);
            }
            i = i + 1;
        }
        None
    }

    /// Whether a path is watched.
    pub fn contains(&self, path: &AbsolutePath) -> (yes: bool)
        ensures
            yes == is_watched(self@, path@),
    {
        match self.position(path) {
            Some(i) => {
                assert(self@[i as int].0 == path@);
                true
            },
            None => false,
        }
    }

    /// This plan with a path watched.
    pub fn with(self, path: AbsolutePath, content: bool) -> (plan: WatchPlan)
        ensures
            watches(self@, path@, content, plan@),
            is_plan(plan@),
    {
        proof {
            use_type_invariant(&self);
        }
        let ghost before = self@;
        let ghost names = path@;
        let found = self.position(&path);
        let mut entries = self.entries;
        match found {
            Some(i) => {
                entries.set(i, (path, content));
                let ghost after = Seq::new(
                    entries@.len(),
                    |k: int| (entries@[k].0@, entries@[k].1),
                );
                proof {
                    assert(after =~= before.update(i as int, (names, content)));
                    assert(before[i as int].0 == names);
                    assert(is_watched(before, names));
                    assert forall|a: int, b: int| 0 <= a < b < after.len() implies #[trigger] after[a].0
                        != #[trigger] after[b].0 && !path_precedes(after[b].0, after[a].0) by {
                        assert(after[a].0 == before[a].0 && after[b].0 == before[b].0);
                    }
                }
                WatchPlan { entries }
            },
            None => {
                let key = key_of(&path);
                let mut at: usize = 0;
                while at < entries.len() && !key_less(&key, &key_of(&entries[at].0))
                    invariant
                        key@ == sort_key(names),
                        before.len() == entries@.len(),
                        forall|k: int|
                            0 <= k < before.len() ==> (#[trigger] before[k]).0 == entries@[k].0@,
                        at <= entries@.len(),
                        forall|k: int|
                            0 <= k < at ==> !path_precedes(names, (#[trigger] before[k]).0),
                    decreases entries@.len() - at,
                {
                    assert(before[at as int].0 == entries@[at as int].0@);
                    at = at + 1;
                }
                assert(at < before.len() ==> before[at as int].0 == entries@[at as int].0@);
                proof {
                    inserting_keeps_a_plan(before, names, content, at as int);
                }
                entries.insert(at, (path, content));
                let ghost after = Seq::new(
                    entries@.len(),
                    |k: int| (entries@[k].0@, entries@[k].1),
                );
                assert(after =~= before.insert(at as int, (names, content)));
                WatchPlan { entries }
            },
        }
    }
}

/// Whether `path` is a directory on the way to `root`.
pub open spec fn is_above(path: Seq<Seq<u8>>, root: Seq<Seq<u8>>) -> bool {
    path.len() < root.len() && path == root.take(path.len() as int)
}

/// Whether a plan has a path, with its contents as said.
pub open spec fn is_watched_as(
    plan: Seq<(Seq<Seq<u8>>, bool)>,
    path: Seq<Seq<u8>>,
    content: bool,
) -> bool {
    exists|i: int| 0 <= i < plan.len() && #[trigger] plan[i] == (path, content)
}

/// Watching a path watches it, as said, and changes nothing of the others.
pub proof fn watching_watches(
    before: Seq<(Seq<Seq<u8>>, bool)>,
    path: Seq<Seq<u8>>,
    content: bool,
    after: Seq<(Seq<Seq<u8>>, bool)>,
)
    requires
        is_plan(before),
        watches(before, path, content, after),
    ensures
        is_watched_as(after, path, content),
        forall|other: Seq<Seq<u8>>| #[trigger]
            is_watched(after, other) == (other == path || is_watched(before, other)),
        forall|other: Seq<Seq<u8>>, flag: bool|
            other != path ==> (#[trigger] is_watched_as(after, other, flag) == is_watched_as(
                before,
                other,
                flag,
            )),
{
    if is_watched(before, path) {
        let i = choose|i: int|
            0 <= i < before.len() && (#[trigger] before[i]).0 == path && after == before.update(
                i,
                (path, content),
            );
        assert(after[i] == (path, content));
        assert forall|other: Seq<Seq<u8>>| #[trigger] is_watched(after, other) == (other == path
            || is_watched(before, other)) by {
            if is_watched(after, other) {
                let k = choose|k: int| 0 <= k < after.len() && (#[trigger] after[k]).0 == other;
                assert(k != i ==> before[k] == after[k]);
            }
            if other != path && is_watched(before, other) {
                let k = choose|k: int| 0 <= k < before.len() && (#[trigger] before[k]).0 == other;
                assert(after[k] == before[k]);
            }
        }
        assert forall|other: Seq<Seq<u8>>, flag: bool| other != path implies (
        #[trigger] is_watched_as(after, other, flag) == is_watched_as(before, other, flag)) by {
            if is_watched_as(after, other, flag) {
                let k = choose|k: int| 0 <= k < after.len() && #[trigger] after[k] == (other, flag);
                assert(before[k] == after[k]);
            }
            if is_watched_as(before, other, flag) {
                let k = choose|k: int|
                    0 <= k < before.len() && #[trigger] before[k] == (other, flag);
                assert(after[k] == before[k]);
            }
        }
    } else {
        let at = choose|at: int|
            0 <= at <= before.len() && after == #[trigger] before.insert(at, (path, content));
        assert(after[at] == (path, content));
        assert forall|other: Seq<Seq<u8>>| #[trigger] is_watched(after, other) == (other == path
            || is_watched(before, other)) by {
            if is_watched(after, other) {
                let k = choose|k: int| 0 <= k < after.len() && (#[trigger] after[k]).0 == other;
                if k < at {
                    assert(before[k] == after[k]);
                } else if k > at {
                    assert(before[k - 1] == after[k]);
                }
            }
            if is_watched(before, other) {
                let k = choose|k: int| 0 <= k < before.len() && (#[trigger] before[k]).0 == other;
                let moved = if k < at {
                    k
                } else {
                    k + 1
                };
                assert(after[moved] == before[k]);
            }
        }
        assert forall|other: Seq<Seq<u8>>, flag: bool| other != path implies (
        #[trigger] is_watched_as(after, other, flag) == is_watched_as(before, other, flag)) by {
            if is_watched_as(after, other, flag) {
                let k = choose|k: int| 0 <= k < after.len() && #[trigger] after[k] == (other, flag);
                if k < at {
                    assert(before[k] == after[k]);
                } else {
                    assert(before[k - 1] == after[k]);
                }
            }
            if is_watched_as(before, other, flag) {
                let k = choose|k: int|
                    0 <= k < before.len() && #[trigger] before[k] == (other, flag);
                let moved = if k < at {
                    k
                } else {
                    k + 1
                };
                assert(after[moved] == before[k]);
            }
        }
    }
}

/// `after` is `before` with the directories above `root`, from `from` names on, watched for
/// staying what they are. What was watched stays as it was.
pub open spec fn watches_above(
    before: Seq<(Seq<Seq<u8>>, bool)>,
    root: Seq<Seq<u8>>,
    from: int,
    after: Seq<(Seq<Seq<u8>>, bool)>,
) -> bool {
    forall|path: Seq<Seq<u8>>, content: bool| #[trigger]
        is_watched_as(after, path, content) == (is_watched_as(before, path, content) || (!content
            && !is_watched(before, path) && is_above(path, root) && path.len() >= from))
}

proof fn watched_is_watched_as_something(plan: Seq<(Seq<Seq<u8>>, bool)>, path: Seq<Seq<u8>>)
    ensures
        is_watched(plan, path) == (is_watched_as(plan, path, true) || is_watched_as(
            plan,
            path,
            false,
        )),
{
    if is_watched(plan, path) {
        let i = choose|i: int| 0 <= i < plan.len() && (#[trigger] plan[i]).0 == path;
        assert(plan[i] == (path, plan[i].1));
    }
    if is_watched_as(plan, path, true) {
        let i = choose|i: int| 0 <= i < plan.len() && #[trigger] plan[i] == (path, true);
        assert(plan[i].0 == path);
    }
    if is_watched_as(plan, path, false) {
        let i = choose|i: int| 0 <= i < plan.len() && #[trigger] plan[i] == (path, false);
        assert(plan[i].0 == path);
    }
}

/// Watches every directory above `root` for staying what it is. What is watched already stays as
/// it is.
pub fn add_ancestors(paths: WatchPlan, root: &AbsolutePath) -> (plan: WatchPlan)
    ensures
        is_plan(plan@),
        watches_above(paths@, root@, 0, plan@),
{
    let depth: usize = root.depth();
    let ghost start = paths@;
    let mut plan = paths;
    let mut up: usize = 1;
    let n: usize = plan.len();
    assert(watches_above(start, root@, depth as int, plan@));
    while up <= depth
        invariant
            depth == root@.len(),
            start == paths@,
            1 <= up,
            up <= depth + 1,
            is_plan(plan@),
            watches_above(start, root@, depth - (up - 1), plan@),
        decreases depth + 1 - up,
    {
        let ancestor = root.ancestor(up);
        let ghost above = ancestor@;
        let ghost before = plan@;
        proof {
            assert(above.len() == depth - up);
            assert(is_above(above, root@)) by {
                assert(above =~= root@.take(above.len() as int));
            }
            watched_is_watched_as_something(before, above);
            watched_is_watched_as_something(start, above);
        }
        if !plan.contains(&ancestor) {
            plan = plan.with(ancestor, false);
            proof {
                watching_watches(before, above, false, plan@);
                assert forall|path: Seq<Seq<u8>>, content: bool| #[trigger]
                    is_watched_as(plan@, path, content) == (is_watched_as(start, path, content) || (
                    !content && !is_watched(start, path) && is_above(path, root@) && path.len()
                        >= depth - up)) by {
                    if path == above {
                        if content && is_watched_as(plan@, path, true) {
                            let i = choose|i: int|
                                0 <= i < plan@.len() && #[trigger] plan@[i] == (path, true);
                            let j = choose|j: int|
                                0 <= j < plan@.len() && #[trigger] plan@[j] == (path, false);
                            assert(i < j || j < i);
                            assert(plan@[i].0 == plan@[j].0);
                        }
                    } else {
                        assert(is_watched_as(before, path, content) == is_watched_as(
                            plan@,
                            path,
                            content,
                        ));
                        if is_above(path, root@) && path.len() == depth - up {
                            assert(path =~= above);
                        }
                    }
                }
            }
        } else {
            proof {
                assert forall|path: Seq<Seq<u8>>, content: bool| #[trigger]
                    is_watched_as(plan@, path, content) == (is_watched_as(start, path, content) || (
                    !content && !is_watched(start, path) && is_above(path, root@) && path.len()
                        >= depth - up)) by {
                    if is_above(path, root@) && path.len() == depth - up {
                        assert(path =~= above);
                    }
                }
            }
        }
        if up == depth {
            return plan;
        }
        up = up + 1;
    }
    plan
}

/// The last name of a path: none where it ends in no name.
pub open spec fn leaf_of(path: Seq<u8>) -> Option<Seq<u8>> {
    let parts = parts_of(path);
    if parts.len() > 0 {
        match parts.last() {
            Part::Name(name) => Some(name),
            _ => None,
        }
    } else {
        None
    }
}

/// The entry of `root` that a correction input is: the one with its last name. `missing` is said
/// where it has none.
pub fn correction_leaf(root: &AbsolutePath, path: &FilePath, missing: &str) -> (result: Result<
    AbsolutePath,
    JournalError,
>)
    ensures
        match leaf_of(path@) {
            Some(name) => result matches Ok(leaf) && leaf@ == root@.push(name),
            None => result matches Err(error) && says(error, missing@),
        },
{
    let mut components = path.components();
    let ghost parts = parts_of(path@);
    assert(components@.len() == parts.len()) by {
        assert(parts_view(components@).len() == components@.len());
    }
    let ghost all = components@;
    match components.pop() {
        Some(PathComponent::Normal(name)) => {
            proof {
                assert(parts.last() == all.last()@);
                parts_name_entries(path@, parts.len() - 1);
            }
            Ok(root.child(name))
        },
        Some(_) => {
            assert(parts.last() == all.last()@);
            Err(journal_error(missing))
        },
        None => Err(journal_error(missing)),
    }
}

/// The endings of the files that SQLite keeps beside a database: `-wal`, `-shm` and `-journal`.
pub open spec fn sidecar_endings() -> Seq<Seq<u8>> {
    seq![
        seq![45u8, 119, 97, 108],
        seq![45u8, 115, 104, 109],
        seq![45u8, 106, 111, 117, 114, 110, 97, 108],
    ]
}

/// The path beside `path` whose name has one more ending.
pub open spec fn sidecar_of(path: Seq<Seq<u8>>, ending: Seq<u8>) -> Seq<Seq<u8>> {
    path.drop_last().push(path.last() + ending)
}

/// The correction inputs: the two files and, where the name of the second is text, what SQLite
/// keeps beside it.
pub open spec fn correction_paths_of(
    vocabulary: Seq<Seq<u8>>,
    overlays: Seq<Seq<u8>>,
) -> Seq<Seq<Seq<u8>>> {
    if overlays.len() > 0 && valid_utf8(overlays.last()) {
        seq![
            vocabulary,
            overlays,
            sidecar_of(overlays, sidecar_endings()[0]),
            sidecar_of(overlays, sidecar_endings()[1]),
            sidecar_of(overlays, sidecar_endings()[2]),
        ]
    } else {
        seq![vocabulary, overlays]
    }
}

fn sidecar(path: &AbsolutePath, name: &Vec<u8>, ending: &Vec<u8>) -> (beside: AbsolutePath)
    requires
        path@.len() > 0,
        name@ == path@.last(),
        is_entry_name(name@),
        ending@.len() > 2,
        forall|i: int| 0 <= i < ending@.len() ==> ending@[i] != 47,
    ensures
        beside@ == sidecar_of(path@, ending@),
{
    let mut whole = copied_bytes(name);
    append_bytes(&mut whole, ending);
    proof {
        assert forall|i: int| 0 <= i < whole@.len() implies whole@[i] != 47 by {
            if i < name@.len() {
                assert(whole@[i] == name@[i]);
            } else {
                assert(whole@[i] == ending@[i - name@.len()]);
            }
        }
        assert(whole@.len() > 2);
    }
    let parent = path.ancestor(1);
    assert(parent@ =~= path@.drop_last());
    parent.child(whole)
}

/// The correction inputs.
pub fn correction_paths(vocabulary: &AbsolutePath, overlays: &AbsolutePath) -> (paths: Vec<
    AbsolutePath,
>)
    ensures
        crate::sync::paths_view(paths@) == correction_paths_of(vocabulary@, overlays@),
{
    let mut paths: Vec<AbsolutePath> = Vec::new();
    paths.push(vocabulary.copied());
    paths.push(overlays.copied());
    let name = match overlays.file_name() {
        Some(name) => name,
        None => {
            assert(crate::sync::paths_view(paths@) =~= correction_paths_of(
                vocabulary@,
                overlays@,
            ));
            return paths;
        },
    };
    if !is_utf8(&name) {
        assert(crate::sync::paths_view(paths@) =~= correction_paths_of(vocabulary@, overlays@));
        return paths;
    }
    let wal: Vec<u8> = vec![45u8, 119, 97, 108];
    let shm: Vec<u8> = vec![45u8, 115, 104, 109];
    let journal: Vec<u8> = vec![45u8, 106, 111, 117, 114, 110, 97, 108];
    assert(wal@ =~= sidecar_endings()[0]);
    assert(shm@ =~= sidecar_endings()[1]);
    assert(journal@ =~= sidecar_endings()[2]);
    paths.push(sidecar(overlays, &name, &wal));
    paths.push(sidecar(overlays, &name, &shm));
    paths.push(sidecar(overlays, &name, &journal));
    assert(crate::sync::paths_view(paths@) =~= correction_paths_of(vocabulary@, overlays@));
    paths
}

/// What is said of a journal that would watch too much.
pub open spec fn budget_message() -> Seq<char> {
    "macOS graph journal vnode budget exceeded"@
}

/// Whether two plans together watch more than `most`. Their number stops at the largest there is.
pub open spec fn is_over_budget(roots: nat, paths: nat, most: usize) -> bool {
    if roots + paths > usize::MAX {
        most < usize::MAX
    } else {
        roots + paths > most
    }
}

fn over_budget(roots: usize, paths: usize, most: usize) -> (yes: bool)
    ensures
        yes == is_over_budget(roots as nat, paths as nat, most),
{
    roots.saturating_add(paths) > most
}

/// Whether a plan watches exactly two roots, for their contents, and the directories above them,
/// for staying what they are.
pub open spec fn is_roots_plan(
    corpus: Seq<Seq<u8>>,
    corrections: Seq<Seq<u8>>,
    plan: Seq<(Seq<Seq<u8>>, bool)>,
) -> bool {
    &&& is_plan(plan)
    &&& forall|path: Seq<Seq<u8>>, content: bool| #[trigger]
        is_watched_as(plan, path, content) == if path == corpus || path == corrections {
            content
        } else {
            !content && (is_above(path, corpus) || is_above(path, corrections))
        }
}

proof fn one_entry_for_each_path(
    plan: Seq<(Seq<Seq<u8>>, bool)>,
    path: Seq<Seq<u8>>,
    content: bool,
)
    requires
        is_plan(plan),
        is_watched_as(plan, path, content),
    ensures
        !is_watched_as(plan, path, !content),
{
    if is_watched_as(plan, path, !content) {
        let i = choose|i: int| 0 <= i < plan.len() && #[trigger] plan[i] == (path, content);
        let j = choose|j: int| 0 <= j < plan.len() && #[trigger] plan[j] == (path, !content);
        assert(i < j || j < i);
        assert(plan[i].0 == plan[j].0);
    }
}

/// Plans the watches that are set before anything is listed: the two roots and what is above them.
/// Too many are refused before anything is opened.
pub fn plan_roots(
    corpus_root: &AbsolutePath,
    correction_root: &AbsolutePath,
    max_watches: usize,
) -> (result: Result<WatchPlan, JournalError>)
    ensures
        match result {
            Ok(plan) => is_roots_plan(corpus_root@, correction_root@, plan@) && plan@.len()
                <= max_watches,
            Err(error) => says(error, budget_message()) && exists|
                plan: Seq<(Seq<Seq<u8>>, bool)>,
            | #[trigger]
                is_roots_plan(corpus_root@, correction_root@, plan) && plan.len() > max_watches,
        },
{
    let ghost corpus = corpus_root@;
    let ghost corrections = correction_root@;
    let empty = WatchPlan::new();
    let ghost nothing = empty@;
    let first = add_ancestors(empty, corpus_root);
    let ghost one = first@;
    let second = add_ancestors(first, correction_root);
    let ghost two = second@;
    let third = second.with(corpus_root.copied(), true);
    let ghost three = third@;
    let plan = third.with(correction_root.copied(), true);
    let ghost whole = plan@;
    proof {
        watching_watches(two, corpus, true, three);
        watching_watches(three, corrections, true, whole);
        assert forall|path: Seq<Seq<u8>>, content: bool| #[trigger]
            is_watched_as(whole, path, content) == if path == corpus || path == corrections {
                content
            } else {
                !content && (is_above(path, corpus) || is_above(path, corrections))
            } by {
            watched_is_watched_as_something(nothing, path);
            watched_is_watched_as_something(one, path);
            assert(!is_watched_as(nothing, path, content));
            assert(!is_watched(nothing, path));
            assert(is_watched_as(one, path, true) == is_watched_as(nothing, path, true));
            assert(is_watched_as(one, path, false) == is_above(path, corpus));
            assert(is_watched_as(two, path, content) == (is_watched_as(one, path, content) || (
            !content && !is_watched(one, path) && is_above(path, corrections))));
            if path == corrections {
                if !content && is_watched_as(whole, path, content) {
                    one_entry_for_each_path(whole, path, true);
                }
            } else {
                assert(is_watched_as(whole, path, content) == is_watched_as(three, path, content));
                if path == corpus {
                    if !content && is_watched_as(three, path, content) {
                        one_entry_for_each_path(three, path, true);
                    }
                } else {
                    assert(is_watched_as(three, path, content) == is_watched_as(
                        two,
                        path,
                        content,
                    ));
                }
            }
        }
        assert(is_roots_plan(corpus, corrections, whole));
    }
    if plan.len() > max_watches {
        return Err(journal_error("macOS graph journal vnode budget exceeded"));
    }
    Ok(plan)
}

/// An entry that a walk through the corpus came to.
pub struct CorpusEntry {
    /// The entry, or why the walk failed.
    pub path: Result<AbsolutePath, String>,
    pub is_symlink: bool,
}

/// Whether a walk goes into an entry: never into a directory below the root that is inactive.
pub fn walks_into(is_root: bool, is_directory: bool, is_inactive_name: bool) -> (yes: bool)
    ensures
        yes == (is_root || !is_directory || !is_inactive_name),
{
    is_root || !is_directory || !is_inactive_name
}

/// What is wrong with an entry.
pub open spec fn entry_problem(entry: CorpusEntry) -> Option<Seq<char>> {
    match entry.path {
        Err(reason) => Some(reason@),
        Ok(_) => if entry.is_symlink {
            Some("macOS graph journal refuses symlinked corpus entries"@)
        } else {
            None
        },
    }
}

/// What the operating system says of a correction input.
pub enum LeafFacts {
    Missing,
    Failed(String),
    Present {
        is_file: bool,
        is_symlink: bool,
        device: u64,
        inode: u64,
        links: u64,
        length: u64,
        modified_seconds: i64,
        modified_nanoseconds: i64,
    },
}

/// What is wrong with a correction input.
pub open spec fn leaf_problem(facts: LeafFacts) -> Option<Seq<char>> {
    match facts {
        LeafFacts::Missing => None,
        LeafFacts::Failed(reason) => Some(reason@),
        LeafFacts::Present { is_symlink, .. } => if is_symlink {
            Some("macOS graph journal refuses symlinked correction inputs"@)
        } else {
            None
        },
    }
}

/// Whether one of the entries is at `path`.
pub open spec fn has_entry(entries: Seq<CorpusEntry>, path: Seq<Seq<u8>>) -> bool {
    exists|i: int|
        0 <= i < entries.len() && ((#[trigger] entries[i]).path matches Ok(found) && found@ == path)
}

/// Whether one of the correction inputs is at `path`, and there.
pub open spec fn has_leaf(leaves: Seq<(AbsolutePath, LeafFacts)>, path: Seq<Seq<u8>>) -> bool {
    exists|i: int|
        0 <= i < leaves.len() && (#[trigger] leaves[i]).0@ == path && leaves[i].1 is Present
}

/// Whether a plan watches exactly what was listed and is not watched as a root.
pub open spec fn is_inventory(
    roots: Seq<(Seq<Seq<u8>>, bool)>,
    entries: Seq<CorpusEntry>,
    leaves: Seq<(AbsolutePath, LeafFacts)>,
    plan: Seq<(Seq<Seq<u8>>, bool)>,
) -> bool {
    &&& is_plan(plan)
    &&& forall|path: Seq<Seq<u8>>, content: bool| #[trigger]
        is_watched_as(plan, path, content) == (content && !is_watched(roots, path) && (has_entry(
            entries,
            path,
        ) || has_leaf(leaves, path)))
}

/// Whether entries can be watched, as far as they go: none has a problem, and they are not too many.
pub open spec fn entries_fit(
    roots: Seq<(Seq<Seq<u8>>, bool)>,
    entries: Seq<CorpusEntry>,
    max_watches: usize,
) -> bool {
    &&& forall|i: int| 0 <= i < entries.len() ==> entry_problem(#[trigger] entries[i]) is None
    &&& entries.len() > 0 ==> exists|plan: Seq<(Seq<Seq<u8>>, bool)>| #[trigger]
        is_inventory(roots, entries, Seq::empty(), plan) && !is_over_budget(
            roots.len(),
            plan.len(),
            max_watches,
        )
}

/// Whether no correction input has a problem.
pub open spec fn leaves_fit(leaves: Seq<(AbsolutePath, LeafFacts)>) -> bool {
    forall|i: int| 0 <= i < leaves.len() ==> leaf_problem((#[trigger] leaves[i]).1) is None
}

/// Whether the watches of what was listed are too many.
pub open spec fn is_too_much(
    roots: Seq<(Seq<Seq<u8>>, bool)>,
    entries: Seq<CorpusEntry>,
    leaves: Seq<(AbsolutePath, LeafFacts)>,
    max_watches: usize,
) -> bool {
    exists|plan: Seq<(Seq<Seq<u8>>, bool)>| #[trigger]
        is_inventory(roots, entries, leaves, plan) && is_over_budget(
            roots.len(),
            plan.len(),
            max_watches,
        )
}

/// Why what was listed cannot be watched: the first entry that is not to be, or that is one too
/// many; where every entry can, the first correction input that is not to be; and where each of
/// those can too, that they are too many.
pub open spec fn inventory_refusal(
    roots: Seq<(Seq<Seq<u8>>, bool)>,
    entries: Seq<CorpusEntry>,
    leaves: Seq<(AbsolutePath, LeafFacts)>,
    max_watches: usize,
    message: Seq<char>,
) -> bool {
    ||| exists|i: int|
        0 <= i < entries.len() && #[trigger] entries_fit(roots, entries.take(i), max_watches) && (
        match entry_problem(entries[i]) {
            Some(problem) => message == problem,
            None => message == budget_message() && is_too_much(
                roots,
                entries.take(i + 1),
                Seq::empty(),
                max_watches,
            ),
        })
    ||| entries_fit(roots, entries, max_watches) && exists|i: int|
        0 <= i < leaves.len() && #[trigger] leaves_fit(leaves.take(i)) && leaf_problem(leaves[i].1)
            == Some(message)
    ||| entries_fit(roots, entries, max_watches) && leaves_fit(leaves) && message
        == budget_message() && is_too_much(roots, entries, leaves, max_watches)
}

/// A plan with one more path for its contents, unless it is watched as a root.
fn with_listed(plan: WatchPlan, roots: &WatchPlan, path: &AbsolutePath) -> (more: WatchPlan)
    ensures
        is_plan(more@),
        (forall|other: Seq<Seq<u8>>| !is_watched_as(plan@, other, false)) ==> forall|
            other: Seq<Seq<u8>>,
            content: bool,
        | #[trigger]
            is_watched_as(more@, other, content) == (is_watched_as(plan@, other, content) || (
            content && other == path@ && !is_watched(roots@, path@))),
{
    let ghost before = plan@;
    let n: usize = plan.len();
    if roots.contains(path) {
        return plan;
    }
    let more = plan.with(path.copied(), true);
    proof {
        watching_watches(before, path@, true, more@);
        if forall|other: Seq<Seq<u8>>| !is_watched_as(before, other, false) {
            one_entry_for_each_path(more@, path@, true);
        }
    }
    more
}

/// Plans the watches of what was listed once the roots were watched: the entries of the corpus, and
/// the correction inputs that are there. Symbolic links, and too much, are refused.
pub fn plan_inventory(
    roots: &WatchPlan,
    entries: &Vec<CorpusEntry>,
    leaves: &Vec<(AbsolutePath, LeafFacts)>,
    max_watches: usize,
) -> (result: Result<WatchPlan, JournalError>)
    ensures
        match result {
            Ok(plan) => {
                &&& is_inventory(roots@, entries@, leaves@, plan@)
                &&& !is_over_budget(roots@.len(), plan@.len(), max_watches)
                &&& forall|i: int| 0 <= i < entries@.len() ==> entry_problem(#[trigger] entries@[i])
                    is None
                &&& forall|i: int|
                    0 <= i < leaves@.len() ==> leaf_problem((#[trigger] leaves@[i]).1) is None
            },
            Err(error) => inventory_refusal(
                roots@,
                entries@,
                leaves@,
                max_watches,
                error.message@,
            ),
        },
{
    let mut plan = WatchPlan::new();
    let watched_roots: usize = roots.len();
    let mut i: usize = 0;
    let ghost none = Seq::<(AbsolutePath, LeafFacts)>::empty();
    assert(is_inventory(roots@, entries@.take(0), none, plan@));
    while i < entries.len()
        invariant
            watched_roots == roots@.len(),
            i <= entries@.len(),
            none == Seq::<(AbsolutePath, LeafFacts)>::empty(),
            is_inventory(roots@, entries@.take(i as int), none, plan@),
            i > 0 ==> !is_over_budget(roots@.len(), plan@.len(), max_watches),
            forall|k: int| 0 <= k < i ==> entry_problem(#[trigger] entries@[k]) is None,
        decreases entries@.len() - i,
    {
        let ghost n = i as int;
        assert(entries_fit(roots@, entries@.take(n), max_watches));
        let path = match &entries[i].path {
            Ok(path) => path,
            Err(reason) => {
                return Err(journal_error(reason.as_str()));
            },
        };
        if entries[i].is_symlink {
            return Err(journal_error("macOS graph journal refuses symlinked corpus entries"));
        }
        let ghost before = plan@;
        plan = with_listed(plan, roots, path);
        i = i + 1;
        proof {
            assert forall|other: Seq<Seq<u8>>, content: bool| #[trigger]
                is_watched_as(plan@, other, content) == (content && !is_watched(roots@, other) && (
                has_entry(entries@.take(n + 1), other) || has_leaf(none, other))) by {
                entries_with_one_more(entries@, n, other);
            }
            assert(is_inventory(roots@, entries@.take(n + 1), none, plan@));
        }
        if over_budget(watched_roots, plan.len(), max_watches) {
            return Err(journal_error("macOS graph journal vnode budget exceeded"));
        }
    }
    assert(entries@.take(i as int) =~= entries@);
    assert(leaves@.take(0) =~= none);
    assert(entries_fit(roots@, entries@, max_watches));
    let mut j: usize = 0;
    while j < leaves.len()
        invariant
            watched_roots == roots@.len(),
            j <= leaves@.len(),
            is_inventory(roots@, entries@, leaves@.take(j as int), plan@),
            entries_fit(roots@, entries@, max_watches),
            forall|k: int| 0 <= k < j ==> leaf_problem((#[trigger] leaves@[k]).1) is None,
        decreases leaves@.len() - j,
    {
        let ghost m = j as int;
        assert(leaves_fit(leaves@.take(m)));
        match &leaves[j].1 {
            LeafFacts::Missing => {},
            LeafFacts::Failed(reason) => {
                return Err(journal_error(reason.as_str()));
            },
            LeafFacts::Present { is_symlink, .. } => {
                if *is_symlink {
                    return Err(
                        journal_error("macOS graph journal refuses symlinked correction inputs"),
                    );
                }
                plan = with_listed(plan, roots, &leaves[j].0);
            },
        }
        j = j + 1;
        proof {
            assert forall|other: Seq<Seq<u8>>, content: bool| #[trigger]
                is_watched_as(plan@, other, content) == (content && !is_watched(roots@, other) && (
                has_entry(entries@, other) || has_leaf(leaves@.take(m + 1), other))) by {
                leaves_with_one_more(leaves@, m, other);
            }
        }
    }
    assert(leaves@.take(j as int) =~= leaves@);
    if over_budget(watched_roots, plan.len(), max_watches) {
        return Err(journal_error("macOS graph journal vnode budget exceeded"));
    }
    Ok(plan)
}

proof fn entries_with_one_more(entries: Seq<CorpusEntry>, n: int, path: Seq<Seq<u8>>)
    requires
        0 <= n < entries.len(),
    ensures
        has_entry(entries.take(n + 1), path) == (has_entry(entries.take(n), path) || (
        entries[n].path matches Ok(found) && found@ == path)),
{
    let more = entries.take(n + 1);
    if has_entry(more, path) {
        let i = choose|i: int|
            0 <= i < more.len() && ((#[trigger] more[i]).path matches Ok(found) && found@ == path);
        if i < n {
            assert(entries.take(n)[i] == more[i]);
        }
    }
    if has_entry(entries.take(n), path) {
        let i = choose|i: int|
            0 <= i < n && ((#[trigger] entries.take(n)[i]).path matches Ok(found) && found@
                == path);
        assert(more[i] == entries.take(n)[i]);
    }
    assert(more[n] == entries[n]);
}

proof fn leaves_with_one_more(
    leaves: Seq<(AbsolutePath, LeafFacts)>,
    n: int,
    path: Seq<Seq<u8>>,
)
    requires
        0 <= n < leaves.len(),
    ensures
        has_leaf(leaves.take(n + 1), path) == (has_leaf(leaves.take(n), path) || (leaves[n].0@
            == path && leaves[n].1 is Present)),
{
    let more = leaves.take(n + 1);
    if has_leaf(more, path) {
        let i = choose|i: int|
            0 <= i < more.len() && (#[trigger] more[i]).0@ == path && more[i].1 is Present;
        if i < n {
            assert(leaves.take(n)[i] == more[i]);
        }
    }
    if has_leaf(leaves.take(n), path) {
        let i = choose|i: int|
            0 <= i < n && (#[trigger] leaves.take(n)[i]).0@ == path && leaves.take(n)[i].1 is Present;
        assert(more[i] == leaves.take(n)[i]);
    }
    assert(more[n] == leaves[n]);
}

/// What tells one version of a correction input from another.
#[derive(Debug, Clone, Copy, PartialEq, Eq, Structural)]
pub struct CorrectionTargetState {
    pub device: u64,
    pub inode: u64,
    pub links: u64,
    pub length: u64,
    pub modified_seconds: i64,
    pub modified_nanoseconds: i64,
}

/// The version of a correction input that is a regular file.
pub open spec fn version_of(facts: LeafFacts) -> CorrectionTargetState {
    CorrectionTargetState {
        device: facts->device,
        inode: facts->inode,
        links: facts->links,
        length: facts->length,
        modified_seconds: facts->modified_seconds,
        modified_nanoseconds: facts->modified_nanoseconds,
    }
}

/// Which version a correction input is: none where it is not there. What is no regular file is
/// refused.
pub fn correction_target_state(facts: &LeafFacts) -> (result: Result<
    Option<CorrectionTargetState>,
    JournalError,
>)
    ensures
        match *facts {
            LeafFacts::Missing => result == Ok::<Option<CorrectionTargetState>, JournalError>(None),
            LeafFacts::Failed(reason) => result matches Err(error) && says(error, reason@),
            LeafFacts::Present { is_file, is_symlink, .. } => if is_file && !is_symlink {
                result == Ok::<Option<CorrectionTargetState>, JournalError>(
                    Some(version_of(*facts)),
                )
            } else {
                result matches Err(error) && says(
                    error,
                    "macOS graph correction input was not a regular file"@,
                )
            },
        },
{
    match facts {
        LeafFacts::Missing => Ok(None),
        LeafFacts::Failed(reason) => Err(journal_error(reason.as_str())),
        LeafFacts::Present {
            is_file,
            is_symlink,
            device,
            inode,
            links,
            length,
            modified_seconds,
            modified_nanoseconds,
        } => {
            if !*is_file || *is_symlink {
                return Err(journal_error("macOS graph correction input was not a regular file"));
            }
            Ok(
                Some(
                    CorrectionTargetState {
                        device: *device,
                        inode: *inode,
                        links: *links,
                        length: *length,
                        modified_seconds: *modified_seconds,
                        modified_nanoseconds: *modified_nanoseconds,
                    },
                ),
            )
        },
    }
}

/// An event of a watched path: its descriptor, and what happened.
#[derive(Debug, Clone, Copy, PartialEq, Eq, Structural)]
pub struct VnodeEvent {
    pub descriptor: i32,
    pub flags: u32,
}

/// What the events of a journal say.
#[derive(Debug, Clone, Copy, PartialEq, Eq, Structural)]
pub enum EventsVerdict {
    /// Something that matters has changed.
    Changed,
    /// Something happened in the directory of the correction inputs.
    CorrectionsTouched,
    /// Nothing happened.
    Quiet,
}

/// Whether an event is a change by itself: it is of another path than the directory of the
/// correction inputs, or that directory is not what it was.
pub open spec fn is_change(event: VnodeEvent, correction_root: i32) -> bool {
    event.descriptor != correction_root || event.flags & STRUCTURAL_FLAGS != 0
}

/// What the events of a journal say.
pub fn events_verdict(events: &Vec<VnodeEvent>, correction_root: i32) -> (verdict: EventsVerdict)
    ensures
        verdict == if exists|i: int|
            0 <= i < events@.len() && is_change(#[trigger] events@[i], correction_root) {
            EventsVerdict::Changed
        } else if events@.len() > 0 {
            EventsVerdict::CorrectionsTouched
        } else {
            EventsVerdict::Quiet
        },
        (exists|i: int|
            0 <= i < events@.len() && (#[trigger] events@[i]).descriptor != correction_root)
            ==> verdict == EventsVerdict::Changed,
        (exists|i: int|
            0 <= i < events@.len() && ((#[trigger] events@[i]).flags & 0x01 != 0 || events@[i].flags
                & 0x20 != 0 || events@[i].flags & 0x40 != 0)) ==> verdict == EventsVerdict::Changed,
{
    proof {
        assert forall|i: int| 0 <= i < events@.len() implies is_change(
            #[trigger] events@[i],
            correction_root,
        ) == (events@[i].descriptor != correction_root || events@[i].flags & 0x01 != 0
            || events@[i].flags & 0x20 != 0 || events@[i].flags & 0x40 != 0) by {
            other_events_are_changes(events@[i], correction_root);
        }
    }
    let mut i: usize = 0;
    while i < events.len()
        invariant
            i <= events@.len(),
            forall|k: int| 0 <= k < i ==> !is_change(#[trigger] events@[k], correction_root),
        decreases events@.len() - i,
    {
        let event = events[i];
        if event.descriptor != correction_root || event.flags & STRUCTURAL_FLAGS != 0 {
            assert(is_change(events@[i as int], correction_root));
            return EventsVerdict::Changed;
        }
        i = i + 1;
    }
    if events.len() > 0 {
        EventsVerdict::CorrectionsTouched
    } else {
        EventsVerdict::Quiet
    }
}

/// A correction input: which version it was when the journal began, and which it is now.
pub struct CorrectionTarget {
    pub expected: Option<CorrectionTargetState>,
    pub current: Result<Option<CorrectionTargetState>, JournalError>,
}

/// Whether a correction input is not known to be what it was.
pub open spec fn departs(target: CorrectionTarget) -> bool {
    match target.current {
        Ok(current) => current != target.expected,
        Err(_) => true,
    }
}

/// The first correction input, from `from` on, that is not known to be what it was.
pub open spec fn first_departure(targets: Seq<CorrectionTarget>, from: nat) -> Option<nat>
    decreases targets.len() - from,
{
    if from >= targets.len() {
        None
    } else if departs(targets[from as int]) {
        Some(from)
    } else {
        first_departure(targets, from + 1)
    }
}

/// Whether a correction input was not there when the journal began.
pub open spec fn some_absent(targets: Seq<CorrectionTarget>) -> bool {
    exists|i: int| 0 <= i < targets.len() && (#[trigger] targets[i]).expected is None
}

fn same_version(
    left: &Option<CorrectionTargetState>,
    right: &Option<CorrectionTargetState>,
) -> (same: bool)
    ensures
        same == (*left == *right),
{
    match (left, right) {
        (Some(left), Some(right)) => *left == *right,
        (None, None) => true,
        _ => false,
    }
}

/// Looks at the correction inputs once the events say no change by themselves. The events of a
/// directory do not name what changed in it: where an input was not there, it may have come and
/// gone, and that counts as a change.
pub fn re_attest(corrections_touched: bool, targets: &Vec<CorrectionTarget>) -> (result: Result<
    bool,
    JournalError,
>)
    ensures
        match first_departure(targets@, 0) {
            Some(i) => match targets@[i as int].current {
                Ok(_) => result == Ok::<bool, JournalError>(true),
                Err(reason) => result matches Err(error) && says(error, reason.message@),
            },
            None => result == Ok::<bool, JournalError>(
                corrections_touched && some_absent(targets@),
            ),
        },
{
    let mut i: usize = 0;
    let mut absent = false;
    while i < targets.len()
        invariant
            i <= targets@.len(),
            first_departure(targets@, 0) == first_departure(targets@, i as nat),
            absent == exists|k: int| 0 <= k < i && (#[trigger] targets@[k]).expected is None,
        decreases targets@.len() - i,
    {
        let target = &targets[i];
        match &target.current {
            Err(reason) => {
                return Err(journal_error(reason.message.as_str()));
            },
            Ok(current) => {
                if !same_version(current, &target.expected) {
                    return Ok(true);
                }
            },
        }
        if target.expected.is_none() {
            assert(targets@[i as int].expected is None);
            absent = true;
        }
        i = i + 1;
    }
    Ok(corrections_touched && absent)
}

/// Whether anything that the snapshot rests on has changed. `targets` is looked at only where the
/// events say no change by themselves.
pub fn changed(
    events: &Vec<VnodeEvent>,
    correction_root: i32,
    targets: &Vec<CorrectionTarget>,
) -> (result: Result<bool, JournalError>)
    ensures
        if exists|i: int|
            0 <= i < events@.len() && is_change(#[trigger] events@[i], correction_root) {
            result == Ok::<bool, JournalError>(true)
        } else {
            match first_departure(targets@, 0) {
                Some(i) => match targets@[i as int].current {
                    Ok(_) => result == Ok::<bool, JournalError>(true),
                    Err(reason) => result matches Err(error) && says(error, reason.message@),
                },
                None => result == Ok::<bool, JournalError>(
                    events@.len() > 0 && some_absent(targets@),
                ),
            }
        },
        (exists|i: int|
            0 <= i < events@.len() && (#[trigger] events@[i]).descriptor != correction_root)
            ==> result == Ok::<bool, JournalError>(true),
        (exists|i: int|
            0 <= i < events@.len() && ((#[trigger] events@[i]).flags & 0x01 != 0 || events@[i].flags
                & 0x20 != 0 || events@[i].flags & 0x40 != 0)) ==> result == Ok::<
            bool,
            JournalError,
        >(true),
{
    match events_verdict(events, correction_root) {
        EventsVerdict::Changed => Ok(true),
        EventsVerdict::CorrectionsTouched => re_attest(true, targets),
        EventsVerdict::Quiet => re_attest(false, targets),
    }
}

proof fn no_departure_from(targets: Seq<CorrectionTarget>, from: nat)
    requires
        first_departure(targets, from) is None,
    ensures
        forall|i: int| from <= i < targets.len() ==> !departs(#[trigger] targets[i]),
    decreases targets.len() - from,
{
    if from < targets.len() {
        no_departure_from(targets, from + 1);
    }
}

/// Where nothing is said to have changed, every correction input is what it was, and one that was
/// not there cannot have come and gone unseen: nothing happened in its directory.
pub proof fn unchanged_journals_saw_nothing(
    events: Seq<VnodeEvent>,
    correction_root: i32,
    targets: Seq<CorrectionTarget>,
)
    requires
        forall|i: int| 0 <= i < events.len() ==> !is_change(#[trigger] events[i], correction_root),
        first_departure(targets, 0) is None,
        !(events.len() > 0 && some_absent(targets)),
    ensures
        forall|i: int|
            0 <= i < targets.len() ==> (#[trigger] targets[i]).current == Ok::<
                Option<CorrectionTargetState>,
                JournalError,
            >(targets[i].expected),
        some_absent(targets) ==> events.len() == 0,
{
    no_departure_from(targets, 0);
    assert forall|i: int| 0 <= i < targets.len() implies (#[trigger] targets[i]).current == Ok::<
        Option<CorrectionTargetState>,
        JournalError,
    >(targets[i].expected) by {
        assert(!departs(targets[i]));
    }
}

/// The path that a watch opens. One with a NUL cannot be opened.
pub fn vnode_path(path: &AbsolutePath) -> (result: Result<Vec<u8>, JournalError>)
    ensures
        match result {
            Ok(bytes) => !has_nul(absolute_bytes(path@)) && bytes@ == absolute_bytes(path@),
            Err(error) => has_nul(absolute_bytes(path@)) && says(
                error,
                "macOS graph journal path contains NUL"@,
            ),
        },
{
    let bytes = path.bytes();
    if crate::corpus::contains_nul(&bytes) {
        return Err(journal_error("macOS graph journal path contains NUL"));
    }
    Ok(bytes)
}

/// What a registration came to.
#[derive(Debug, Clone, Copy, PartialEq, Eq, Structural)]
pub enum Registration {
    Registered,
    /// The call failed; the operating system says why.
    CallFailed,
    /// No receipt came.
    NoReceipt,
    /// The receipt holds this error number.
    Refused(i32),
}

/// Reads the receipt of a registration: `count` receipts came, and the one that did says `error`
/// with `data`.
pub fn read_receipt(count: i32, error: bool, data: i64) -> (registration: Registration)
    ensures
        registration == if count < 0 {
            Registration::CallFailed
        } else if count != 1 {
            Registration::NoReceipt
        } else if error && data != 0 {
            Registration::Refused(data as i32)
        } else {
            Registration::Registered
        },
{
    if count != 1 {
        return if count < 0 {
            Registration::CallFailed
        } else {
            Registration::NoReceipt
        };
    }
    if error && data != 0 {
        return Registration::Refused(#[verifier::truncate] (data as i32));
    }
    Registration::Registered
}

} // verus!
