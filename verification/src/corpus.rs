//! The meeting corpus: where it is, which of its files are meetings, and how one is opened.

use vstd::prelude::*;
use crate::errors::SearchIndexError;
use crate::paths::{
    absolute_bytes, copied_bytes, first_step_is_the_root, is_absolute, joined_bytes, names_view,
    normalize_absolute_path, normalized, normalized_names, parts_of, parts_view, path_error,
    path_message, same_bytes, AbsolutePath, FilePath, Part, PathComponent, FULL_STOP,
};
use crate::text::joined;

verus! {

/// What the operating system resolves paths to: each pair is a path that exists and the path it
/// is reached by without symbolic links.
pub struct CanonicalPaths {
    pub entries: Vec<(AbsolutePath, AbsolutePath)>,
}

impl View for CanonicalPaths {
    type V = Seq<(Seq<Seq<u8>>, Seq<Seq<u8>>)>;

    open spec fn view(&self) -> Seq<(Seq<Seq<u8>>, Seq<Seq<u8>>)> {
        Seq::new(self.entries@.len(), |i: int| (self.entries@[i].0@, self.entries@[i].1@))
    }
}

/// What `path` resolves to, where it is known to exist.
pub open spec fn canonical_of(
    entries: Seq<(Seq<Seq<u8>>, Seq<Seq<u8>>)>,
    path: Seq<Seq<u8>>,
) -> Option<Seq<Seq<u8>>>
    decreases entries.len(),
{
    if entries.len() == 0 {
        None
    } else if entries[0].0 == path {
        Some(entries[0].1)
    } else {
        canonical_of(entries.drop_first(), path)
    }
}

impl CanonicalPaths {
    /// Whether `path` is known to resolve to `target`.
    pub fn resolves_to(&self, path: &AbsolutePath, target: &AbsolutePath) -> (yes: bool)
        ensures
            yes == (canonical_of(self@, path@) == Some(target@)),
    {
        let mut i: usize = 0;
        assert(self@.skip(0) =~= self@);
        while i < self.entries.len()
            invariant
                i <= self.entries@.len(),
                canonical_of(self@, path@) == canonical_of(self@.skip(i as int), path@),
            decreases self.entries@.len() - i,
        {
            assert(self@.skip(i as int)[0] == self@[i as int]);
            assert(self@.skip(i as int).drop_first() =~= self@.skip(i + 1));
            if self.entries[i].0.same(path) {
                return self.entries[i].1.same(target);
            }
            i = i + 1;
        }
        false
    }
}

/// Whether an entry is named like a meeting file: something, then `.md`.
pub open spec fn is_markdown_name(name: Seq<u8>) -> bool {
    let n = name.len() as int;
    n > 3 && name[n - 3] == FULL_STOP && name[n - 2] == 109 && name[n - 1] == 100
}

/// Whether a path is named like a meeting file.
pub open spec fn is_markdown(path: Seq<Seq<u8>>) -> bool {
    path.len() > 0 && is_markdown_name(path.last())
}

/// Whether a path is named like a meeting file.
pub fn has_markdown_name(path: &AbsolutePath) -> (yes: bool)
    ensures
        yes == is_markdown(path@),
{
    if path.depth() == 0 {
        return false;
    }
    let name = path.name(path.depth() - 1);
    let n: usize = name.len();
    n > 3 && name[n - 3] == FULL_STOP && name[n - 2] == 109 && name[n - 1] == 100
}

/// The directories whose contents are never indexed: `archive`, `processed` and `failed`.
pub open spec fn is_excluded_name(name: Seq<u8>) -> bool {
    ||| name == seq![97u8, 114, 99, 104, 105, 118, 101]
    ||| name == seq![112u8, 114, 111, 99, 101, 115, 115, 101, 100]
    ||| name == seq![102u8, 97, 105, 108, 101, 100]
}

/// Whether a path lies in a directory of the corpus that is never indexed.
pub open spec fn is_excluded(root: Seq<Seq<u8>>, path: Seq<Seq<u8>>) -> bool {
    root.is_prefix_of(path) && exists|i: int|
        root.len() <= i < path.len() && is_excluded_name(#[trigger] path[i])
}

fn excluded_name(name: &Vec<u8>) -> (yes: bool)
    ensures
        yes == is_excluded_name(name@),
{
    let archive: Vec<u8> = vec![97u8, 114, 99, 104, 105, 118, 101];
    let processed: Vec<u8> = vec![112u8, 114, 111, 99, 101, 115, 115, 101, 100];
    let failed: Vec<u8> = vec![102u8, 97, 105, 108, 101, 100];
    assert(archive@ =~= seq![97u8, 114, 99, 104, 105, 118, 101]);
    assert(processed@ =~= seq![112u8, 114, 111, 99, 101, 115, 115, 101, 100]);
    assert(failed@ =~= seq![102u8, 97, 105, 108, 101, 100]);
    same_bytes(name, &archive) || same_bytes(name, &processed) || same_bytes(name, &failed)
}

/// Whether a path lies in a directory of the corpus that is never indexed.
pub fn is_excluded_path(path: &AbsolutePath, root: &AbsolutePath) -> (yes: bool)
    ensures
        yes == is_excluded(root@, path@),
{
    let names = match path.names_below(root) {
        Some(names) => names,
        None => {
            return false;
        },
    };
    let ghost below = path@.skip(root@.len() as int);
    let mut i: usize = 0;
    assert(names_view(names@).len() == names@.len());
    while i < names.len()
        invariant
            names_view(names@) == below,
            below == path@.skip(root@.len() as int),
            root@.is_prefix_of(path@),
            names@.len() + root@.len() == path@.len(),
            i <= names@.len(),
            forall|k: int| root@.len() <= k < root@.len() + i ==> !is_excluded_name(path@[k]),
        decreases names@.len() - i,
    {
        assert(names@[i as int]@ == below[i as int]);
        assert(below[i as int] == path@[root@.len() + i]);
        if excluded_name(&names[i]) {
            assert(is_excluded_name(path@[root@.len() + i]));
            return true;
        }
        i = i + 1;
    }
    assert(names@.len() == below.len());
    false
}

/// What a relative path is taken from `directory`; an absolute one is as it stands.
pub open spec fn candidate_of(directory: Seq<u8>, path: Seq<u8>) -> Seq<u8> {
    if is_absolute(path) {
        path
    } else {
        joined_bytes(directory, path)
    }
}

/// What the operating system says of a directory on the way to the corpus.
pub struct AncestorFacts {
    pub exists: bool,
    /// What it resolves to, or why that is not known.
    pub canonical: Result<AbsolutePath, String>,
    /// Whether what it resolves to is a directory.
    pub is_directory: bool,
}

/// Whether the path `up` steps above is known to exist.
pub open spec fn exists_above(facts: Seq<AncestorFacts>, up: int) -> bool {
    0 <= up < facts.len() && facts[up].exists
}

/// The nearest of a path and its ancestors, counted from `up`, that exists.
pub open spec fn nearest_existing(facts: Seq<AncestorFacts>, depth: nat, up: nat) -> Option<nat>
    decreases depth + 1 - up,
{
    if up > depth {
        None
    } else if exists_above(facts, up as int) {
        Some(up)
    } else {
        nearest_existing(facts, depth, up + 1)
    }
}

/// Where the corpus is, for a path whose nearest existing ancestor is `up` steps above.
pub open spec fn resolved_corpus(
    path: Seq<Seq<u8>>,
    facts: Seq<AncestorFacts>,
    up: nat,
) -> Option<Seq<Seq<u8>>> {
    match facts[up as int].canonical {
        Ok(canonical) => if up == 0 && !facts[0].is_directory {
            None
        } else {
            Some(canonical@ + path.skip(path.len() - up))
        },
        Err(_) => None,
    }
}

/// What is wrong with a corpus whose nearest existing ancestor is `up` steps above.
pub open spec fn corpus_problem(
    path: Seq<Seq<u8>>,
    facts: Seq<AncestorFacts>,
    up: nat,
) -> Seq<char> {
    match facts[up as int].canonical {
        Ok(_) => path_message("meeting corpus is not a directory: "@, absolute_bytes(path)),
        Err(reason) => path_message(
            if up == 0 {
                "resolve meeting corpus "@
            } else {
                "resolve meeting corpus ancestor "@
            },
            absolute_bytes(path.take(path.len() - up)),
        ) + ": "@ + reason@,
    }
}

/// The configured corpus as an absolute path. `current_directory` is asked for a relative one.
pub fn absolute_corpus_path(
    path: &FilePath,
    current_directory: Result<FilePath, String>,
) -> (result: Result<AbsolutePath, SearchIndexError>)
    ensures
        match result {
            Ok(names) => (is_absolute(path@) || current_directory is Ok) && normalized(
                candidate_of(current_directory->Ok_0@, path@),
            ) == Some(names@),
            Err(error) => error matches SearchIndexError::Io(message) && {
                if !is_absolute(path@) && current_directory is Err {
                    message@ == "resolve current directory: "@ + current_directory->Err_0@
                } else {
                    let candidate = candidate_of(current_directory->Ok_0@, path@);
                    normalized(candidate) is None && message@ == path_message(
                        if is_absolute(candidate) {
                            "meeting path escapes filesystem root: "@
                        } else {
                            "expected absolute meeting path: "@
                        },
                        candidate,
                    )
                }
            },
        },
{
    if path.absolute() {
        return normalize_absolute_path(path);
    }
    match current_directory {
        Ok(directory) => normalize_absolute_path(&directory.join(path)),
        Err(reason) => Err(
            SearchIndexError::Io(joined("resolve current directory: ", reason.as_str())),
        ),
    }
}

/// Resolves the corpus once: the nearest of the path and its ancestors that exists, with the
/// names that do not exist yet below it. `facts` says of the path, and of each directory above it
/// in turn, what the operating system does.
pub fn canonical_corpus_root(absolute: &AbsolutePath, facts: &Vec<AncestorFacts>) -> (result:
    Result<AbsolutePath, SearchIndexError>)
    ensures
        match nearest_existing(facts@, absolute@.len(), 0) {
            None => result matches Err(SearchIndexError::Io(message)) && message@ == path_message(
                "meeting corpus has no existing ancestor: "@,
                absolute_bytes(absolute@),
            ),
            Some(up) => match resolved_corpus(absolute@, facts@, up) {
                Some(root) => result matches Ok(path) && path@ == root,
                None => result matches Err(SearchIndexError::Io(message)) && message@
                    == corpus_problem(absolute@, facts@, up),
            },
        },
{
    let depth: usize = absolute.depth();
    let mut up: usize = 0;
    while up < facts.len() && !facts[up].exists
        invariant
            up <= facts@.len(),
            up <= absolute@.len(),
            depth == absolute@.len(),
            nearest_existing(facts@, absolute@.len(), 0) == nearest_existing(
                facts@,
                absolute@.len(),
                up as nat,
            ),
        decreases facts@.len() - up,
    {
        if up == depth {
            reveal_with_fuel(nearest_existing, 2);
            return Err(
                path_error("meeting corpus has no existing ancestor: ", &absolute.file_path()),
            );
        }
        up = up + 1;
    }
    if up >= facts.len() {
        proof {
            nothing_exists_beyond(facts@, absolute@.len(), up as nat);
        }
        return Err(path_error("meeting corpus has no existing ancestor: ", &absolute.file_path()));
    }
    assert(nearest_existing(facts@, absolute@.len(), 0) == Some(up as nat));
    let ghost names = absolute@;
    match &facts[up].canonical {
        Err(reason) => {
            let what = if up == 0 {
                "resolve meeting corpus "
            } else {
                "resolve meeting corpus ancestor "
            };
            let mut message = joined(what, absolute.ancestor(up).display().as_str());
            message.append(": ");
            message.append(reason.as_str());
            Err(SearchIndexError::Io(message))
        },
        Ok(canonical) => {
            if up == 0 {
                if !facts[up].is_directory {
                    return Err(
                        path_error("meeting corpus is not a directory: ", &absolute.file_path()),
                    );
                }
                assert(canonical@ + names.skip(names.len() as int) =~= canonical@);
                return Ok(canonical.copied());
            }
            let above = absolute.ancestor(up);
            let suffix = absolute.names_below(&above);
            match suffix {
                Some(suffix) => {
                    Ok(canonical.descend(&suffix))
                },
                None => {
                    assert(names.subrange(0, above@.len() as int) =~= above@);
                    assert(false);
                    Ok(canonical.copied())
                },
            }
        },
    }
}

proof fn nothing_exists_beyond(facts: Seq<AncestorFacts>, depth: nat, up: nat)
    requires
        up >= facts.len() || up > depth,
    ensures
        nearest_existing(facts, depth, up) is None,
    decreases depth + 1 - up,
{
    if up <= depth {
        nothing_exists_beyond(facts, depth, up + 1);
    }
}

/// A path that exists and resolves to a directory is the corpus that it resolves to.
pub proof fn existing_corpus_is_itself_resolved(path: Seq<Seq<u8>>, facts: Seq<AncestorFacts>)
    requires
        exists_above(facts, 0),
        facts[0].canonical is Ok,
        facts[0].is_directory,
    ensures
        nearest_existing(facts, path.len(), 0) == Some(0nat),
        resolved_corpus(path, facts, 0) == Some(facts[0].canonical->Ok_0@),
{
    let canonical = facts[0].canonical->Ok_0@;
    assert(canonical + path.skip(path.len() as int) =~= canonical);
}

/// The directories and files of a machine at one moment: which paths lead to something, what each
/// resolves to once every link in it is followed, and which resolve to a directory.
pub struct FileTree {
    pub there: Set<Seq<Seq<u8>>>,
    pub resolved: Map<Seq<Seq<u8>>, Seq<Seq<u8>>>,
    pub directories: Set<Seq<Seq<u8>>>,
}

/// What holds of links: what a path resolves to is there and resolves to itself, it has the same
/// entries, and below what is not there nothing is.
pub open spec fn is_file_tree(tree: FileTree) -> bool {
    &&& forall|path: Seq<Seq<u8>>| #[trigger]
        tree.there.contains(path) && tree.resolved.contains_key(path) ==> {
            let target = tree.resolved[path];
            &&& tree.there.contains(target)
            &&& tree.resolved.contains_key(target) && tree.resolved[target] == target
            &&& tree.directories.contains(target) == tree.directories.contains(path)
        }
    &&& forall|path: Seq<Seq<u8>>, name: Seq<u8>|
        #![trigger tree.there.contains(path.push(name))]
        tree.there.contains(path) && tree.resolved.contains_key(path) ==> tree.there.contains(
            path.push(name),
        ) == tree.there.contains(tree.resolved[path].push(name))
    &&& forall|path: Seq<Seq<u8>>, name: Seq<u8>| #[trigger]
        tree.there.contains(path.push(name)) ==> tree.there.contains(path)
}

/// Whether `facts` says of a path, and of the directories above it in turn, what is so in `tree`:
/// of each, or as far as the nearest one that is there.
pub open spec fn tells_of(
    tree: FileTree,
    path: Seq<Seq<u8>>,
    facts: Seq<AncestorFacts>,
) -> bool {
    &&& facts.len() == path.len() + 1 || (0 < facts.len() <= path.len() && facts.last().exists)
    &&& forall|up: int|
        0 <= up < facts.len() ==> tells_of_one(
            tree,
            path.take(path.len() - up),
            #[trigger] facts[up],
        )
}

/// Whether `facts` says of one path what is so in `tree`.
pub open spec fn tells_of_one(tree: FileTree, path: Seq<Seq<u8>>, facts: AncestorFacts) -> bool {
    &&& facts.exists == tree.there.contains(path)
    &&& match facts.canonical {
        Ok(target) => tree.resolved.contains_key(path) && tree.resolved[path] == target@,
        Err(_) => !tree.resolved.contains_key(path),
    }
    &&& facts.is_directory == tree.directories.contains(path)
}

proof fn nearest_is_there(facts: Seq<AncestorFacts>, depth: nat, from: nat, up: nat)
    requires
        nearest_existing(facts, depth, from) == Some(up),
    ensures
        from <= up <= depth,
        exists_above(facts, up as int),
        forall|k: int| from <= k < up ==> !exists_above(facts, k),
    decreases depth + 1 - from,
{
    if !exists_above(facts, from as int) {
        nearest_is_there(facts, depth, from + 1, up);
    }
}

proof fn first_there_is_nearest(facts: Seq<AncestorFacts>, depth: nat, from: nat, up: nat)
    requires
        from <= up <= depth,
        exists_above(facts, up as int),
        forall|k: int| from <= k < up ==> !exists_above(facts, k),
    ensures
        nearest_existing(facts, depth, from) == Some(up),
    decreases up - from,
{
    if from < up {
        first_there_is_nearest(facts, depth, from + 1, up);
    }
}

proof fn nothing_is_below_what_is_not_there(tree: FileTree, path: Seq<Seq<u8>>, n: int, m: int)
    requires
        is_file_tree(tree),
        0 <= n <= m <= path.len(),
        !tree.there.contains(path.take(n)),
    ensures
        !tree.there.contains(path.take(m)),
    decreases m - n,
{
    if n < m {
        nothing_is_below_what_is_not_there(tree, path, n, m - 1);
        assert(path.take(m) =~= path.take(m - 1).push(path[m - 1]));
    }
}

/// The corpus that a path resolves to is its own corpus, as long as no file or directory changes:
/// resolving it once more gives it back. That holds of a path that is not there yet, too.
pub proof fn resolved_corpus_resolves_to_itself(
    tree: FileTree,
    path: Seq<Seq<u8>>,
    facts: Seq<AncestorFacts>,
    up: nat,
    root: Seq<Seq<u8>>,
    again: Seq<AncestorFacts>,
)
    requires
        is_file_tree(tree),
        tells_of(tree, path, facts),
        nearest_existing(facts, path.len(), 0) == Some(up),
        resolved_corpus(path, facts, up) == Some(root),
        tells_of(tree, root, again),
    ensures
        nearest_existing(again, root.len(), 0) == Some(up),
        resolved_corpus(root, again, up) == Some(root),
{
    nearest_is_there(facts, path.len(), 0, up);
    let n = path.len() - up;
    let above = path.take(n);
    let target = facts[up as int].canonical->Ok_0@;
    let depth = target.len() as int;
    assert(tells_of_one(tree, above, facts[up as int]));
    assert(root == target + path.skip(n));
    assert(root.take(depth) =~= target);
    if up > 0 {
        let name = path[n];
        let next = path.take(n + 1);
        assert(next =~= above.push(name));
        assert(!exists_above(facts, up - 1));
        assert(tells_of_one(tree, path.take(path.len() - (up - 1)), facts[up - 1]));
        assert(!tree.there.contains(above.push(name)));
        assert(!tree.there.contains(target.push(name)));
        assert(root.take(depth + 1) =~= target.push(name));
    }
    assert forall|k: int| 0 <= k < up implies !exists_above(again, k) by {
        nothing_is_below_what_is_not_there(tree, root, depth + 1, root.len() - k);
        if k < again.len() {
            assert(tells_of_one(tree, root.take(root.len() - k), again[k]));
        }
    }
    assert(up < again.len()) by {
        if again.len() <= up {
            assert(!exists_above(again, again.len() - 1));
        }
    }
    assert(tells_of_one(tree, root.take(root.len() - up), again[up as int]));
    first_there_is_nearest(again, root.len(), 0, up);
    assert(target + root.skip(depth) =~= root);
    assert(tree.there.contains(above));
}

/// The steps that lead to an absolute path.
pub open spec fn steps_to(path: Seq<Seq<u8>>) -> Seq<Part> {
    seq![Part::Root] + Seq::new(path.len(), |i: int| Part::Name(path[i]))
}

/// The steps of `path` below `root`; none where it does not start there.
pub open spec fn steps_below(root: Seq<Seq<u8>>, path: Seq<u8>) -> Option<Seq<Part>> {
    if steps_to(root).is_prefix_of(parts_of(path)) {
        Some(parts_of(path).skip(steps_to(root).len() as int))
    } else {
        None
    }
}

/// Whether steps go down by names alone, and at least one.
pub open spec fn descends(steps: Seq<Part>) -> bool {
    steps.len() > 0 && forall|i: int| 0 <= i < steps.len() ==> (#[trigger] steps[i]) is Name
}

/// Whether bytes hold a NUL, which no path that is handed to the operating system may.
pub open spec fn has_nul(bytes: Seq<u8>) -> bool {
    bytes.contains(0u8)
}

/// Whether bytes hold a NUL.
pub fn contains_nul(bytes: &Vec<u8>) -> (yes: bool)
    ensures
        yes == has_nul(bytes@),
{
    let mut i: usize = 0;
    while i < bytes.len()
        invariant
            i <= bytes@.len(),
            forall|k: int| 0 <= k < i ==> bytes@[k] != 0,
        decreases bytes@.len() - i,
    {
        if bytes[i] == 0 {
            return true;
        }
        i = i + 1;
    }
    false
}

/// An opening of a file beneath the corpus, one directory at a time and through no symbolic link.
pub struct OpenWalk {
    /// The corpus.
    pub root: AbsolutePath,
    /// The file, as the caller wrote it.
    pub path: FilePath,
    /// The names that lead from the corpus to the file.
    pub names: Vec<Vec<u8>>,
    /// How many of them are open.
    pub opened: usize,
}

/// What is opened next, relative to the directory that was opened last.
pub struct OpenStep {
    pub name: Vec<u8>,
    /// Whether it is opened as a directory. Only the file itself, which comes last, is not.
    pub as_directory: bool,
}

/// The names that steps go down by.
pub open spec fn step_names(steps: Seq<Part>) -> Seq<Seq<u8>> {
    Seq::new(steps.len(), |i: int| steps[i]->Name_0)
}

/// Why a file cannot be opened beneath the corpus, before anything is opened.
pub open spec fn open_refusal(root: Seq<Seq<u8>>, path: Seq<u8>) -> Option<Seq<char>> {
    match steps_below(root, path) {
        None => Some(path_message("meeting path is outside corpus: "@, path)),
        Some(steps) => if !descends(steps) {
            Some(path_message("meeting path is not a regular corpus path: "@, path))
        } else if has_nul(absolute_bytes(root)) {
            Some(path_message("meeting corpus contains a NUL byte: "@, absolute_bytes(root)))
        } else {
            None
        },
    }
}

/// Starts to open `path` beneath `root`.
pub fn begin_open_beneath(root: &AbsolutePath, path: &FilePath) -> (result: Result<
    OpenWalk,
    SearchIndexError,
>)
    ensures
        match open_refusal(root@, path@) {
            Some(reason) => result matches Err(SearchIndexError::Io(message)) && message@ == reason,
            None => result matches Ok(walk) && walk.root@ == root@ && walk.path@ == path@
                && names_view(walk.names@) == step_names(steps_below(root@, path@)->0)
                && walk.opened == 0,
        },
{
    let components = path.components();
    let depth: usize = root.depth();
    let ghost parts = parts_of(path@);
    let ghost to_root = steps_to(root@);
    if components.len() == 0 || components.len() - 1 < depth {
        proof {
            if to_root.is_prefix_of(parts) {
                assert(to_root.len() == depth + 1);
                assert(parts.len() == components@.len());
            }
        }
        return Err(path_error("meeting path is outside corpus: ", path));
    }
    let mut i: usize = 0;
    let mut inside = match &components[0] {
        PathComponent::RootDir => true,
        _ => false,
    };
    assert(inside == (parts[0] == to_root[0])) by {
        assert(parts[0] == components@[0]@);
    }
    while inside && i < depth
        invariant
            parts_view(components@) == parts,
            parts == parts_of(path@),
            to_root == steps_to(root@),
            depth == root@.len(),
            components@.len() >= depth + 1,
            i <= depth,
            inside ==> forall|k: int| 0 <= k <= i ==> parts[k] == to_root[k],
            !inside ==> exists|k: int| 0 <= k <= depth && parts[k] != to_root[k],
        decreases depth - i,
    {
        assert(parts[i + 1] == components@[i + 1]@);
        assert(to_root[i + 1] == Part::Name(root@[i as int]));
        inside = match &components[i + 1] {
            PathComponent::Normal(name) => same_bytes(name, root.name(i)),
            _ => false,
        };
        assert(inside == (parts[i + 1] == to_root[i + 1]));
        i = i + 1;
    }
    if !inside {
        proof {
            if to_root.is_prefix_of(parts) {
                assert(parts.subrange(0, to_root.len() as int) =~= to_root);
                let k = choose|k: int| 0 <= k <= depth && parts[k] != to_root[k];
                assert(parts.subrange(0, to_root.len() as int)[k] == parts[k]);
            }
        }
        return Err(path_error("meeting path is outside corpus: ", path));
    }
    assert(parts.subrange(0, to_root.len() as int) =~= to_root);
    let ghost steps = parts.skip(to_root.len() as int);
    assert(steps_below(root@, path@) == Some(steps));
    if components.len() == depth + 1 {
        assert(steps.len() == 0);
        return Err(path_error("meeting path is not a regular corpus path: ", path));
    }
    let mut names: Vec<Vec<u8>> = Vec::new();
    let mut at: usize = depth + 1;
    while at < components.len()
        invariant
            parts_view(components@) == parts,
            parts == parts_of(path@),
            to_root == steps_to(root@),
            to_root.len() == depth + 1,
            steps == parts.skip(to_root.len() as int),
            steps_below(root@, path@) == Some(steps),
            depth + 1 <= at <= components@.len(),
            names@.len() == at - (depth + 1),
            forall|k: int| 0 <= k < names@.len() ==> (#[trigger] steps[k]) is Name,
            forall|k: int| 0 <= k < names@.len() ==> (#[trigger] names@[k])@ == steps[k]->Name_0,
        decreases components@.len() - at,
    {
        assert(steps[at - (depth + 1)] == components@[at as int]@);
        match &components[at] {
            PathComponent::Normal(name) => {
                names.push(copied_bytes(name));
            },
            _ => {
                assert(!(steps[at - (depth + 1)] is Name));
                return Err(path_error("meeting path is not a regular corpus path: ", path));
            },
        }
        at = at + 1;
    }
    assert(names@.len() == steps.len());
    assert(names_view(names@) =~= step_names(steps));
    if contains_nul(&root.bytes()) {
        return Err(path_error("meeting corpus contains a NUL byte: ", &root.file_path()));
    }
    Ok(OpenWalk { root: root.copied(), path: path.copied(), names, opened: 0 })
}

impl OpenWalk {
    /// Whether the file itself is open.
    pub fn finished(&self) -> (yes: bool)
        ensures
            yes == (self.opened >= self.names@.len()),
    {
        self.opened >= self.names.len()
    }

    /// What is to be opened next.
    pub fn next(&self) -> (result: Result<OpenStep, SearchIndexError>)
        requires
            self.opened < self.names@.len(),
        ensures
            match result {
                Ok(step) => !has_nul(step.name@) && step.name@ == self.names@[self.opened as int]@
                    && step.as_directory == (self.opened + 1 < self.names@.len()),
                Err(error) => has_nul(self.names@[self.opened as int]@)
                    && (error matches SearchIndexError::Io(message) && message@ == path_message(
                    "meeting path contains a NUL byte: "@,
                    self.path@,
                )),
            },
    {
        let name = &self.names[self.opened];
        if contains_nul(name) {
            return Err(path_error("meeting path contains a NUL byte: ", &self.path));
        }
        Ok(
            OpenStep {
                name: copied_bytes(name),
                as_directory: self.opened < self.names.len() - 1,
            },
        )
    }

    /// What was to be opened is open.
    pub fn advance(&mut self)
        requires
            old(self).opened < old(self).names@.len(),
        ensures
            *final(self) == (OpenWalk { opened: (old(self).opened + 1) as usize, ..*old(self) }),
    {
        if self.opened < self.names.len() {
            self.opened = self.opened + 1;
        }
    }

    /// The error for a corpus that could not be opened.
    pub fn root_not_opened(&self, reason: &str) -> (error: SearchIndexError)
        ensures
            error matches SearchIndexError::Io(message) && message@ == path_message(
                "open meeting corpus "@,
                absolute_bytes(self.root@),
            ) + ": "@ + reason@,
    {
        reasoned("open meeting corpus ", self.root.display().as_str(), reason)
    }

    /// The error for a name that could not be opened.
    pub fn file_not_opened(&self, reason: &str) -> (error: SearchIndexError)
        ensures
            error matches SearchIndexError::Io(message) && message@ == path_message(
                "open meeting file "@,
                self.path@,
            ) + ": "@ + reason@,
    {
        reasoned("open meeting file ", self.path.display().as_str(), reason)
    }
}

fn reasoned(what: &str, shown: &str, reason: &str) -> (error: SearchIndexError)
    ensures
        error matches SearchIndexError::Io(message) && message@ == what@ + shown@ + ": "@
            + reason@,
{
    let mut message = joined(what, shown);
    message.append(": ");
    message.append(reason);
    SearchIndexError::Io(message)
}

/// A file that may be opened lies in the corpus: with the names of the walk below the root, its
/// path goes nowhere else.
pub proof fn opened_names_lead_to_the_path(root: Seq<Seq<u8>>, path: Seq<u8>)
    requires
        open_refusal(root, path) is None,
    ensures
        normalized(path) == Some(root + step_names(steps_below(root, path)->0)),
{
    let parts = parts_of(path);
    let steps = steps_below(root, path)->0;
    let whole = root + step_names(steps);
    assert(parts =~= steps_to(whole)) by {
        assert(parts.len() == steps_to(whole).len());
        assert forall|i: int| 0 <= i < parts.len() implies parts[i] == steps_to(whole)[i] by {
            if i <= root.len() {
                assert(parts.subrange(0, steps_to(root).len() as int)[i] == steps_to(root)[i]);
            } else {
                assert(steps[i - root.len() - 1] == parts[i]);
            }
        }
    }
    assert(is_absolute(path)) by {
        assert(parts[0] == steps_to(root)[0]);
        first_step_is_the_root(path);
    }
    steps_normalize_to_themselves(whole);
}

proof fn steps_normalize_to_themselves(names: Seq<Seq<u8>>)
    ensures
        normalized_names(steps_to(names)) == Some(names),
    decreases names.len(),
{
    reveal_with_fuel(normalized_names, 2);
    let steps = steps_to(names);
    if names.len() == 0 {
        assert(steps.drop_last() =~= Seq::<Part>::empty());
        assert(names =~= Seq::<Seq<u8>>::empty());
    } else {
        steps_normalize_to_themselves(names.drop_last());
        assert(steps.drop_last() =~= steps_to(names.drop_last()));
        assert(names.drop_last().push(names.last()) =~= names);
    }
}

} // verus!
