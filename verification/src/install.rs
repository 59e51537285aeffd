//! How the command-line tool was installed.

use vstd::prelude::*;
use crate::meeting::{lines, lines_of};
use crate::paths::{
    is_absolute, lossy_text, parts_of, parts_view, same_bytes, text_from_utf8_lossy, AbsolutePath,
    FilePath, PathComponent,
};
use crate::queries::texts_view;
use crate::text::{contains_text, occurs_in, trimmed, trimmed_of};
use vstd::string::StrSliceExecFns;
use vstd::utf8::encode_utf8;

verus! {

/// What the operating system says of a file.
#[derive(Debug, Clone, Copy, PartialEq, Eq, Structural)]
pub struct FileMode {
    pub is_file: bool,
    /// Its permission bits.
    pub mode: u32,
}

/// The permission bits that let anyone execute a file.
pub const EXECUTE_BITS: u32 = 0o111;

/// What is known of files by their paths.
pub struct FileModes {
    pub entries: Vec<(FilePath, FileMode)>,
}

impl View for FileModes {
    type V = Seq<(Seq<u8>, FileMode)>;

    open spec fn view(&self) -> Seq<(Seq<u8>, FileMode)> {
        Seq::new(self.entries@.len(), |i: int| (self.entries@[i].0@, self.entries@[i].1))
    }
}

/// What is known of the file at `path`.
pub open spec fn mode_of(modes: Seq<(Seq<u8>, FileMode)>, path: Seq<u8>) -> Option<FileMode>
    decreases modes.len(),
{
    if modes.len() == 0 {
        None
    } else if modes[0].0 == path {
        Some(modes[0].1)
    } else {
        mode_of(modes.drop_first(), path)
    }
}

impl FileModes {
    /// What is known of the file at `path`.
    pub fn find(&self, path: &FilePath) -> (mode: Option<FileMode>)
        ensures
            mode == mode_of(self@, path@),
    {
        let mut i: usize = 0;
        assert(self@.skip(0) =~= self@);
        while i < self.entries.len()
            invariant
                i <= self.entries@.len(),
                mode_of(self@, path@) == mode_of(self@.skip(i as int), path@),
            decreases self.entries@.len() - i,
        {
            assert(self@.skip(i as int)[0] == self@[i as int]);
            assert(self@.skip(i as int).drop_first() =~= self@.skip(i + 1));
            if same_bytes(&self.entries[i].0.bytes, &path.bytes) {
                return Some(self.entries[i].1);
            }
            i = i + 1;
        }
        None
    }
}

/// Whether a path is absolute and leads to a regular file that someone may execute.
pub open spec fn can_execute(modes: Seq<(Seq<u8>, FileMode)>, path: Seq<u8>) -> bool {
    is_absolute(path) && (mode_of(modes, path) matches Some(mode) && mode.is_file && mode.mode
        & EXECUTE_BITS != 0)
}

/// Whether a path is absolute and leads to a regular file that someone may execute.
pub fn is_executable(path: &FilePath, modes: &FileModes) -> (yes: bool)
    ensures
        yes == can_execute(modes@, path@),
{
    if !path.absolute() {
        return false;
    }
    match modes.find(path) {
        Some(mode) => mode.is_file && mode.mode & EXECUTE_BITS != 0,
        None => false,
    }
}

/// What a command printed, and whether it succeeded.
pub struct ShellOutput {
    pub success: bool,
    pub stdout: Vec<u8>,
}

/// The bytes of each path in a list.
pub open spec fn paths_bytes(paths: Seq<FilePath>) -> Seq<Seq<u8>> {
    Seq::new(paths.len(), |i: int| paths[i]@)
}

/// The path that a line holds.
pub open spec fn line_path(line: Seq<char>) -> Seq<u8> {
    encode_utf8(trimmed_of(line))
}

/// The paths that the lines of an output hold.
pub open spec fn printed_paths_of(stdout: Seq<u8>) -> Seq<Seq<u8>> {
    let pieces = lines_of(lossy_text(stdout));
    Seq::new(pieces.len(), |i: int| line_path(pieces[i]))
}

/// Reads each line of an output as a path.
pub fn printed_paths(stdout: &Vec<u8>) -> (paths: Vec<FilePath>)
    ensures
        paths_bytes(paths@) == printed_paths_of(stdout@),
{
    let text = text_from_utf8_lossy(stdout);
    let pieces = lines(text.as_str());
    let ghost all = lines_of(text@);
    let mut paths: Vec<FilePath> = Vec::new();
    let mut i: usize = 0;
    assert(pieces@.len() == all.len()) by {
        assert(texts_view(pieces@).len() == pieces@.len());
    }
    while i < pieces.len()
        invariant
            texts_view(pieces@) == all,
            pieces@.len() == all.len(),
            i <= pieces@.len(),
            paths@.len() == i,
            forall|k: int| 0 <= k < i ==> (#[trigger] paths@[k])@ == line_path(all[k]),
        decreases pieces@.len() - i,
    {
        assert(all[i as int] == pieces@[i as int]@);
        let line = trimmed(pieces[i].as_str());
        paths.push(FilePath { bytes: line.as_str().as_bytes_vec() });
        i = i + 1;
    }
    assert(paths_bytes(paths@) =~= printed_paths_of(stdout@));
    paths
}

/// Whether a list has a path with the same steps.
pub open spec fn is_known(paths: Seq<Seq<u8>>, path: Seq<u8>) -> bool {
    exists|i: int| 0 <= i < paths.len() && parts_of(#[trigger] paths[i]) == parts_of(path)
}

/// The paths that can be executed, in their order, each once.
pub open spec fn executables_of(
    modes: Seq<(Seq<u8>, FileMode)>,
    paths: Seq<Seq<u8>>,
) -> Seq<Seq<u8>>
    decreases paths.len(),
{
    if paths.len() == 0 {
        Seq::empty()
    } else {
        let before = executables_of(modes, paths.drop_last());
        if can_execute(modes, paths.last()) && !is_known(before, paths.last()) {
            before.push(paths.last())
        } else {
            before
        }
    }
}

fn same_steps(left: &FilePath, right: &FilePath) -> (same: bool)
    ensures
        same == (parts_of(left@) == parts_of(right@)),
{
    let a = left.components();
    let b = right.components();
    let ghost first = parts_of(left@);
    let ghost second = parts_of(right@);
    assert(parts_view(a@).len() == a@.len() && parts_view(b@).len() == b@.len());
    if a.len() != b.len() {
        return false;
    }
    let mut i: usize = 0;
    while i < a.len()
        invariant
            parts_view(a@) == first,
            parts_view(b@) == second,
            first.len() == a@.len() == b@.len() == second.len(),
            first == parts_of(left@),
            second == parts_of(right@),
            i <= a@.len(),
            forall|k: int| 0 <= k < i ==> first[k] == second[k],
        decreases a@.len() - i,
    {
        assert(first[i as int] == a@[i as int]@ && second[i as int] == b@[i as int]@);
        let same = match (&a[i], &b[i]) {
            (PathComponent::RootDir, PathComponent::RootDir) => true,
            (PathComponent::CurDir, PathComponent::CurDir) => true,
            (PathComponent::ParentDir, PathComponent::ParentDir) => true,
            (PathComponent::Normal(one), PathComponent::Normal(other)) => same_bytes(one, other),
            _ => false,
        };
        assert(same == (first[i as int] == second[i as int]));
        if !same {
            return false;
        }
        i = i + 1;
    }
    assert(first =~= second);
    true
}

fn known_path(paths: &Vec<FilePath>, path: &FilePath) -> (yes: bool)
    ensures
        yes == is_known(paths_bytes(paths@), path@),
{
    let mut i: usize = 0;
    while i < paths.len()
        invariant
            i <= paths@.len(),
            forall|k: int|
                0 <= k < i ==> parts_of(#[trigger] paths_bytes(paths@)[k]) != parts_of(path@),
        decreases paths@.len() - i,
    {
        assert(paths_bytes(paths@)[i as int] == paths@[i as int]@);
        if same_steps(&paths[i], path) {
            return true;
        }
        i = i + 1;
    }
    false
}

/// The executables that a lookup printed, in their order, each once. A lookup that failed found
/// none.
pub fn executable_candidates(output: &ShellOutput, modes: &FileModes) -> (candidates: Vec<FilePath>)
    ensures
        paths_bytes(candidates@) == if output.success {
            executables_of(modes@, printed_paths_of(output.stdout@))
        } else {
            Seq::empty()
        },
{
    let mut candidates: Vec<FilePath> = Vec::new();
    if !output.success {
        assert(paths_bytes(candidates@) =~= Seq::empty());
        return candidates;
    }
    let paths = printed_paths(&output.stdout);
    let ghost all = printed_paths_of(output.stdout@);
    let mut i: usize = 0;
    assert(paths_bytes(paths@).len() == paths@.len());
    assert(paths_bytes(candidates@) =~= executables_of(modes@, all.take(0)));
    while i < paths.len()
        invariant
            paths_bytes(paths@) == all,
            paths@.len() == all.len(),
            i <= paths@.len(),
            paths_bytes(candidates@) == executables_of(modes@, all.take(i as int)),
        decreases paths@.len() - i,
    {
        let ghost before = paths_bytes(candidates@);
        assert(all[i as int] == paths@[i as int]@);
        assert(all.take(i + 1).drop_last() =~= all.take(i as int));
        if is_executable(&paths[i], modes) && !known_path(&candidates, &paths[i]) {
            candidates.push(paths[i].copied());
            assert(paths_bytes(candidates@) =~= before.push(all[i as int]));
        }
        i = i + 1;
    }
    assert(all.take(i as int) =~= all);
    candidates
}

/// The names of the application bundles: `Minutes.app` and `Minutes Dev.app`.
pub open spec fn is_bundle_name(name: Seq<u8>) -> bool {
    ||| name == seq![77u8, 105, 110, 117, 116, 101, 115, 46, 97, 112, 112]
    ||| name == seq![77u8, 105, 110, 117, 116, 101, 115, 32, 68, 101, 118, 46, 97, 112, 112]
}

/// Whether a path leads into an application bundle.
pub open spec fn lies_in_bundle(names: Seq<Seq<u8>>) -> bool {
    exists|i: int| 0 <= i < names.len() && is_bundle_name(#[trigger] names[i])
}

/// How a binary was installed, where its path tells: inside an application bundle, or by cargo.
pub open spec fn install_method_of(path: Seq<u8>, resolved: Option<Seq<Seq<u8>>>) -> Option<
    Seq<char>,
> {
    match resolved {
        None => None,
        Some(names) => if lies_in_bundle(names) {
            Some("bundled"@)
        } else if occurs_in(lossy_text(path), ".cargo/bin/"@) {
            Some("cargo"@)
        } else {
            None
        },
    }
}

fn bundle_name(name: &Vec<u8>) -> (yes: bool)
    ensures
        yes == is_bundle_name(name@),
{
    let release: Vec<u8> = vec![77u8, 105, 110, 117, 116, 101, 115, 46, 97, 112, 112];
    let development: Vec<u8> =
        vec![77u8, 105, 110, 117, 116, 101, 115, 32, 68, 101, 118, 46, 97, 112, 112];
    assert(release@ =~= seq![77u8, 105, 110, 117, 116, 101, 115, 46, 97, 112, 112]);
    assert(development@ =~= seq![
        77u8,
        105,
        110,
        117,
        116,
        101,
        115,
        32,
        68,
        101,
        118,
        46,
        97,
        112,
        112,
    ]);
    same_bytes(name, &release) || same_bytes(name, &development)
}

/// How a binary was installed, where its path tells. `resolved` is what the path resolves to.
pub fn known_install_method(path: &FilePath, resolved: Option<&AbsolutePath>) -> (method: Option<
    &'static str,
>)
    ensures
        match install_method_of(
            path@,
            match resolved {
                Some(resolved) => Some(resolved@),
                None => None,
            },
        ) {
            Some(word) => method matches Some(text) && text@ == word,
            None => method is None,
        },
{
    let target = match resolved {
        Some(target) => target,
        None => {
            return None;
        },
    };
    let depth: usize = target.depth();
    let mut i: usize = 0;
    while i < depth
        invariant
            resolved == Some(target),
            depth == target@.len(),
            i <= depth,
            forall|k: int| 0 <= k < i ==> !is_bundle_name(#[trigger] target@[k]),
        decreases depth - i,
    {
        if bundle_name(target.name(i)) {
            assert(is_bundle_name(target@[i as int]));
            assert(lies_in_bundle(target@));
            return Some("bundled");
        }
        i = i + 1;
    }
    if contains_text(path.display().as_str(), ".cargo/bin/") {
        Some("cargo")
    } else {
        None
    }
}

/// Where Homebrew usually is.
pub open spec fn homebrew_paths() -> Seq<Seq<u8>> {
    seq![encode_utf8("/opt/homebrew/bin/brew"@), encode_utf8("/usr/local/bin/brew"@)]
}

/// Where Homebrew usually is.
pub fn homebrew_places() -> (places: Vec<FilePath>)
    ensures
        paths_bytes(places@) == homebrew_paths(),
{
    let places = vec![
        FilePath { bytes: "/opt/homebrew/bin/brew".as_bytes_vec() },
        FilePath { bytes: "/usr/local/bin/brew".as_bytes_vec() },
    ];
    assert(paths_bytes(places@) =~= homebrew_paths());
    places
}

/// The first of the candidate and the usual places that can be executed.
pub open spec fn homebrew_of(
    candidate: Option<Seq<u8>>,
    modes: Seq<(Seq<u8>, FileMode)>,
) -> Option<Seq<u8>> {
    match candidate {
        Some(path) if can_execute(modes, path) => Some(path),
        _ => if can_execute(modes, homebrew_paths()[0]) {
            Some(homebrew_paths()[0])
        } else if can_execute(modes, homebrew_paths()[1]) {
            Some(homebrew_paths()[1])
        } else {
            None
        },
    }
}

/// Finds Homebrew: the candidate, or else one of the usual places, if it can be executed.
pub fn find_homebrew(path_candidate: Option<FilePath>, modes: &FileModes) -> (found: Option<
    FilePath,
>)
    ensures
        match homebrew_of(
            match path_candidate {
                Some(path) => Some(path@),
                None => None,
            },
            modes@,
        ) {
            Some(path) => found matches Some(brew) && brew@ == path,
            None => found is None,
        },
{
    if let Some(path) = path_candidate {
        if is_executable(&path, modes) {
            return Some(path);
        }
    }
    let places = homebrew_places();
    assert(places@[0]@ == homebrew_paths()[0] && places@[1]@ == homebrew_paths()[1]) by {
        assert(paths_bytes(places@).len() == 2);
    }
    let mut i: usize = 0;
    while i < places.len()
        invariant
            places@.len() == 2,
            places@[0]@ == homebrew_paths()[0],
            places@[1]@ == homebrew_paths()[1],
            i <= 2,
            forall|k: int| 0 <= k < i ==> !can_execute(modes@, #[trigger] homebrew_paths()[k]),
            path_candidate matches Some(path) ==> !can_execute(modes@, path@),
        decreases 2 - i,
    {
        if is_executable(&places[i], modes) {
            return Some(places[i].copied());
        }
        i = i + 1;
    }
    None
}

/// What Homebrew is asked for: the files of the formula, and of no cask.
pub fn homebrew_query() -> (arguments: Vec<String>)
    ensures
        texts_view(arguments@) == seq![
            "list"@,
            "--formula"@,
            "--verbose"@,
            "silverstein/tap/minutes"@,
        ],
{
    let mut arguments: Vec<String> = Vec::new();
    arguments.push("list".to_owned());
    arguments.push("--formula".to_owned());
    arguments.push("--verbose".to_owned());
    arguments.push("silverstein/tap/minutes".to_owned());
    assert(texts_view(arguments@) =~= seq![
        "list"@,
        "--formula"@,
        "--verbose"@,
        "silverstein/tap/minutes"@,
    ]);
    arguments
}

/// What paths resolve to, by their bytes.
pub struct ResolvedPaths {
    pub entries: Vec<(FilePath, AbsolutePath)>,
}

impl View for ResolvedPaths {
    type V = Seq<(Seq<u8>, Seq<Seq<u8>>)>;

    open spec fn view(&self) -> Seq<(Seq<u8>, Seq<Seq<u8>>)> {
        Seq::new(self.entries@.len(), |i: int| (self.entries@[i].0@, self.entries@[i].1@))
    }
}

/// Whether `path` is known to resolve to `target`.
pub open spec fn resolves_to(
    resolved: Seq<(Seq<u8>, Seq<Seq<u8>>)>,
    path: Seq<u8>,
    target: Seq<Seq<u8>>,
) -> bool {
    exists|i: int| 0 <= i < resolved.len() && #[trigger] resolved[i] == (path, target)
}

impl ResolvedPaths {
    fn leads_to(&self, path: &FilePath, target: &AbsolutePath) -> (yes: bool)
        ensures
            yes == resolves_to(self@, path@, target@),
    {
        let mut i: usize = 0;
        while i < self.entries.len()
            invariant
                i <= self.entries@.len(),
                forall|k: int| 0 <= k < i ==> #[trigger] self@[k] != (path@, target@),
            decreases self.entries@.len() - i,
        {
            assert(self@[i as int] == (self.entries@[i as int].0@, self.entries@[i as int].1@));
            if same_bytes(&self.entries[i].0.bytes, &path.bytes) && self.entries[i].1.same(target) {
                return true;
            }
            i = i + 1;
        }
        false
    }
}

/// Whether one of the printed paths resolves to the binary.
pub open spec fn lists_binary(
    stdout: Seq<u8>,
    resolved: Seq<(Seq<u8>, Seq<Seq<u8>>)>,
    binary: Seq<Seq<u8>>,
) -> bool {
    exists|i: int|
        0 <= i < printed_paths_of(stdout).len() && resolves_to(
            resolved,
            #[trigger] printed_paths_of(stdout)[i],
            binary,
        )
}

/// Whether Homebrew's formula has the binary. `binary` is what the binary resolves to, `output`
/// what Homebrew answered, and `resolved` what the printed paths resolve to.
pub fn homebrew_owns_binary(
    binary: Option<&AbsolutePath>,
    output: Option<&ShellOutput>,
    resolved: &ResolvedPaths,
) -> (owns: bool)
    ensures
        owns == (binary is Some && output is Some && output->0.success && lists_binary(
            output->0.stdout@,
            resolved@,
            binary->0@,
        )),
{
    let target = match binary {
        Some(target) => target,
        None => {
            return false;
        },
    };
    let answer = match output {
        Some(answer) => answer,
        None => {
            return false;
        },
    };
    if !answer.success {
        return false;
    }
    let paths = printed_paths(&answer.stdout);
    let ghost all = printed_paths_of(answer.stdout@);
    let mut i: usize = 0;
    assert(paths_bytes(paths@).len() == paths@.len());
    while i < paths.len()
        invariant
            binary == Some(target),
            output == Some(answer),
            answer.success,
            paths_bytes(paths@) == all,
            paths@.len() == all.len(),
            all == printed_paths_of(answer.stdout@),
            i <= paths@.len(),
            forall|k: int| 0 <= k < i ==> !resolves_to(resolved@, #[trigger] all[k], target@),
        decreases paths@.len() - i,
    {
        assert(all[i as int] == paths@[i as int]@);
        if resolved.leads_to(&paths[i], target) {
            assert(resolves_to(
                resolved@,
                printed_paths_of(answer.stdout@)[i as int],
                target@,
            ));
            return true;
        }
        i = i + 1;
    }
    false
}

/// Every candidate can be executed, and none stands twice.
pub proof fn candidates_are_executable_and_distinct(
    modes: Seq<(Seq<u8>, FileMode)>,
    paths: Seq<Seq<u8>>,
)
    ensures
        forall|i: int|
            0 <= i < executables_of(modes, paths).len() ==> can_execute(
                modes,
                #[trigger] executables_of(modes, paths)[i],
            ),
        forall|i: int, j: int|
            0 <= i < j < executables_of(modes, paths).len() ==> parts_of(
                #[trigger] executables_of(modes, paths)[i],
            ) != parts_of(#[trigger] executables_of(modes, paths)[j]),
    decreases paths.len(),
{
    if paths.len() > 0 {
        candidates_are_executable_and_distinct(modes, paths.drop_last());
        let before = executables_of(modes, paths.drop_last());
        let all = executables_of(modes, paths);
        assert forall|i: int| 0 <= i < all.len() implies can_execute(modes, #[trigger] all[i]) by {
            if i < before.len() {
                assert(all[i] == before[i]);
            }
        }
        assert forall|i: int, j: int| 0 <= i < j < all.len() implies parts_of(#[trigger] all[i])
            != parts_of(#[trigger] all[j]) by {
            assert(all[i] == before[i]);
            if j < before.len() {
                assert(all[j] == before[j]);
            }
        }
    }
}

} // verus!
