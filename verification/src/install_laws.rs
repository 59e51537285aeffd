//! What holds of the diagnostics of an installation.

use vstd::prelude::*;
use crate::install::{
    can_execute, executables_of, homebrew_of, install_method_of, is_known, lies_in_bundle,
    line_path, lists_binary, mode_of, printed_paths_of, resolves_to, FileMode,
};
use crate::meeting::lines_of;
use crate::paths::{lossy_text, parts_of};
use crate::text::{occurs_in, trimmed_of};
use vstd::utf8::encode_utf8;

verus! {

/// What is known of a file is said by the first entry for its path.
pub proof fn the_first_entry_tells(
    modes: Seq<(Seq<u8>, FileMode)>,
    path: Seq<u8>,
    other: Seq<u8>,
    mode: FileMode,
)
    ensures
        mode_of(Seq::empty(), path) is None,
        mode_of(seq![(path, mode)] + modes, path) == Some(mode),
        path != other ==> mode_of(seq![(other, mode)] + modes, path) == mode_of(modes, path),
{
    assert((seq![(path, mode)] + modes).drop_first() =~= modes);
    assert((seq![(other, mode)] + modes).drop_first() =~= modes);
}

/// A path can be executed where it starts at the root and leads to a regular file that has any one
/// of the three execute bits: its owner's, its group's, or everyone's.
pub proof fn any_execute_bit_is_enough(modes: Seq<(Seq<u8>, FileMode)>, path: Seq<u8>)
    ensures
        can_execute(modes, path) ==> path.len() > 0 && path[0] == 0x2f && mode_of(modes, path) is Some
            && mode_of(modes, path)->0.is_file,
        mode_of(modes, path) matches Some(mode) ==> path.len() > 0 && path[0] == 0x2f
            && mode.is_file ==> can_execute(modes, path) == (mode.mode & 0o100 != 0 || mode.mode
            & 0o010 != 0 || mode.mode & 0o001 != 0),
{
    if let Some(mode) = mode_of(modes, path) {
        let bits = mode.mode;
        assert(bits & 0o111u32 != 0 <==> (bits & 0o100u32 != 0 || bits & 0o010u32 != 0 || bits
            & 0o001u32 != 0)) by (bit_vector);
    }
}

/// Each line of an output is a path, without the white space around it.
pub proof fn each_line_is_a_path(stdout: Seq<u8>, i: int)
    requires
        0 <= i < lines_of(lossy_text(stdout)).len(),
    ensures
        printed_paths_of(stdout).len() == lines_of(lossy_text(stdout)).len(),
        printed_paths_of(stdout)[i] == encode_utf8(trimmed_of(lines_of(lossy_text(stdout))[i])),
        line_path(lines_of(lossy_text(stdout))[i]) == printed_paths_of(stdout)[i],
{
}

/// Of a list of paths those that can be executed are kept, in their order; one whose steps are
/// those of an earlier one is left out.
pub proof fn executables_are_kept_once(
    modes: Seq<(Seq<u8>, FileMode)>,
    paths: Seq<Seq<u8>>,
    path: Seq<u8>,
)
    ensures
        executables_of(modes, Seq::empty()).len() == 0,
        !can_execute(modes, path) ==> executables_of(modes, paths.push(path)) == executables_of(
            modes,
            paths,
        ),
        (exists|i: int|
            0 <= i < executables_of(modes, paths).len() && parts_of(
                #[trigger] executables_of(modes, paths)[i],
            ) == parts_of(path)) ==> executables_of(modes, paths.push(path)) == executables_of(
            modes,
            paths,
        ),
        can_execute(modes, path) && !(exists|i: int|
            0 <= i < executables_of(modes, paths).len() && parts_of(
                #[trigger] executables_of(modes, paths)[i],
            ) == parts_of(path)) ==> executables_of(modes, paths.push(path)) == executables_of(
            modes,
            paths,
        ).push(path),
{
    assert(paths.push(path).drop_last() =~= paths);
    assert(is_known(executables_of(modes, paths), path) == exists|i: int|
        0 <= i < executables_of(modes, paths).len() && parts_of(
            #[trigger] executables_of(modes, paths)[i],
        ) == parts_of(path));
}

/// The name of the application bundle, `Minutes.app`.
pub open spec fn release_bundle() -> Seq<u8> {
    seq![0x4du8, 0x69, 0x6e, 0x75, 0x74, 0x65, 0x73, 0x2e, 0x61, 0x70, 0x70]
}

/// The name of the application bundle of a development build, `Minutes Dev.app`.
pub open spec fn development_bundle() -> Seq<u8> {
    seq![
        0x4du8,
        0x69,
        0x6e,
        0x75,
        0x74,
        0x65,
        0x73,
        0x20,
        0x44,
        0x65,
        0x76,
        0x2e,
        0x61,
        0x70,
        0x70,
    ]
}

/// A binary below a directory with the name of a bundle is bundled, however deep; else one whose
/// path has `.cargo/bin/` in it was installed by cargo; of any other, and of one that does not
/// resolve, the path tells nothing.
pub proof fn paths_tell_how_a_binary_was_installed(
    path: Seq<u8>,
    before: Seq<Seq<u8>>,
    after: Seq<Seq<u8>>,
    names: Seq<Seq<u8>>,
)
    ensures
        install_method_of(path, Some(before + seq![release_bundle()] + after)) == Some(
            "bundled"@,
        ),
        install_method_of(path, Some(before + seq![development_bundle()] + after)) == Some(
            "bundled"@,
        ),
        (forall|i: int|
            0 <= i < names.len() ==> (#[trigger] names[i]) != release_bundle() && names[i]
                != development_bundle()) ==> install_method_of(path, Some(names)) == if occurs_in(
            lossy_text(path),
            ".cargo/bin/"@,
        ) {
            Some("cargo"@)
        } else {
            None
        },
        install_method_of(path, None) is None,
{
    let at = before.len() as int;
    let release = before + seq![release_bundle()] + after;
    let development = before + seq![development_bundle()] + after;
    assert(release[at] == release_bundle());
    assert(lies_in_bundle(release));
    assert(development[at] == development_bundle());
    assert(lies_in_bundle(development));
}

/// Homebrew is the candidate where it can be executed, else the place for Apple silicon, else that
/// for Intel.
pub proof fn homebrew_is_the_first_that_can_be_executed(
    candidate: Seq<u8>,
    modes: Seq<(Seq<u8>, FileMode)>,
)
    ensures
        ({
            let apple = encode_utf8("/opt/homebrew/bin/brew"@);
            let intel = encode_utf8("/usr/local/bin/brew"@);
            &&& can_execute(modes, candidate) ==> homebrew_of(Some(candidate), modes) == Some(
                candidate,
            )
            &&& !can_execute(modes, candidate) ==> homebrew_of(Some(candidate), modes)
                == homebrew_of(None, modes)
            &&& can_execute(modes, apple) ==> homebrew_of(None, modes) == Some(apple)
            &&& !can_execute(modes, apple) && can_execute(modes, intel) ==> homebrew_of(None, modes)
                == Some(intel)
            &&& !can_execute(modes, apple) && !can_execute(modes, intel) ==> homebrew_of(None, modes)
                is None
        }),
{
}

/// A formula has a binary where one of the lines that are printed for it leads there.
pub proof fn one_line_is_enough(
    stdout: Seq<u8>,
    resolved: Seq<(Seq<u8>, Seq<Seq<u8>>)>,
    binary: Seq<Seq<u8>>,
)
    ensures
        lists_binary(stdout, resolved, binary) == exists|i: int, k: int|
            0 <= i < printed_paths_of(stdout).len() && 0 <= k < resolved.len()
                && #[trigger] resolved[k] == (#[trigger] printed_paths_of(stdout)[i], binary),
{
    let printed = printed_paths_of(stdout);
    if lists_binary(stdout, resolved, binary) {
        let i = choose|i: int|
            0 <= i < printed.len() && resolves_to(resolved, #[trigger] printed[i], binary);
        let k = choose|k: int|
            0 <= k < resolved.len() && #[trigger] resolved[k] == (printed[i], binary);
        assert(resolved[k] == (printed[i], binary));
    }
    if exists|i: int, k: int|
        0 <= i < printed.len() && 0 <= k < resolved.len() && #[trigger] resolved[k] == (
            #[trigger] printed[i],
            binary,
        ) {
        let (i, k) = choose|i: int, k: int|
            0 <= i < printed.len() && 0 <= k < resolved.len() && #[trigger] resolved[k] == (
                #[trigger] printed[i],
                binary,
            );
        assert(resolves_to(resolved, printed[i], binary));
    }
}

} // verus!
