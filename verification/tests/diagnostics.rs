use minutes_core::corpus::{
    absolute_corpus_path, begin_open_beneath, canonical_corpus_root, has_markdown_name,
    is_excluded_path, AncestorFacts,
};
use minutes_core::descriptors::{
    descriptor_limit_step, descriptor_occupancy, descriptor_scan_ceiling, DescriptorStatus,
    LimitStep,
};
use minutes_core::errors::{capture_error, CaptureError, SearchError, SearchIndexError};
use minutes_core::install::{
    executable_candidates, find_homebrew, homebrew_owns_binary, homebrew_places, homebrew_query,
    is_executable,
    known_install_method, printed_paths, FileMode, FileModes, ResolvedPaths, ShellOutput,
};
use minutes_core::journal::{
    add_ancestors, changed, correction_leaf, correction_paths, correction_target_state,
    plan_inventory, plan_roots, read_receipt, vnode_path, walks_into, watch_flags, CorpusEntry,
    CorrectionTarget, LeafFacts, Registration, VnodeEvent, WatchPlan, CONTENT_FLAGS,
    MAX_DESCRIPTOR_OCCUPANCY_SCAN, MAX_GRAPH_VNODE_WATCHES, STRUCTURAL_FLAGS,
};
use minutes_core::meeting::{extract_field, lines, split_frontmatter, MeetingDate};
use minutes_core::paths::{normalize_absolute_path, AbsolutePath, FilePath};
use minutes_core::sanitize::sanitize_fts_query;
use minutes_core::text::{
    contains_text, decimal_text, eq_ignore_ascii_case, text_less, trimmed,
};
use minutes_core::timing::{SidecarWorkerTimings, TimingAggregate};
use std::time::Duration;

fn file_path(text: &str) -> FilePath {
    FilePath { bytes: text.as_bytes().to_vec() }
}

fn absolute(text: &str) -> AbsolutePath {
    normalize_absolute_path(&file_path(text)).unwrap()
}

fn shown(path: &AbsolutePath) -> String {
    String::from_utf8(path.bytes()).unwrap()
}

fn plan_of(plan: &WatchPlan) -> Vec<(String, bool)> {
    (0..plan.len()).map(|i| (shown(plan.path(i)), plan.content(i))).collect()
}

fn io_message(error: SearchIndexError) -> String {
    match error {
        SearchIndexError::Io(message) => message,
        other => panic!("unexpected error {}", other.message()),
    }
}

fn regular(length: u64) -> LeafFacts {
    LeafFacts::Present {
        is_file: true,
        is_symlink: false,
        device: 1,
        inode: 2,
        links: 1,
        length,
        modified_seconds: 5,
        modified_nanoseconds: 6,
    }
}

fn symlink() -> LeafFacts {
    LeafFacts::Present {
        is_file: false,
        is_symlink: true,
        device: 1,
        inode: 2,
        links: 1,
        length: 3,
        modified_seconds: 5,
        modified_nanoseconds: 6,
    }
}

fn entry(path: &str) -> CorpusEntry {
    CorpusEntry { path: Ok(absolute(path)), is_symlink: false }
}

#[test]
fn high_soft_descriptor_limits_skip_the_linear_occupancy_scan() {
    assert_eq!(
        descriptor_scan_ceiling(MAX_DESCRIPTOR_OCCUPANCY_SCAN as u64).unwrap(),
        Some(MAX_DESCRIPTOR_OCCUPANCY_SCAN)
    );
    assert_eq!(
        descriptor_scan_ceiling((MAX_DESCRIPTOR_OCCUPANCY_SCAN + 1) as u64).unwrap(),
        None
    );
    assert_eq!(descriptor_scan_ceiling(libc::RLIM_INFINITY).unwrap(), None);
}

#[test]
fn descriptor_limits_are_raised_only_as_far_as_needed() {
    let statuses = vec![
        DescriptorStatus::Open,
        DescriptorStatus::Closed,
        DescriptorStatus::Open,
        DescriptorStatus::Closed,
    ];
    assert_eq!(descriptor_occupancy(&statuses).unwrap(), (2, 3));
    let failed = vec![DescriptorStatus::Open, DescriptorStatus::Failed("EIO".to_string())];
    assert_eq!(descriptor_occupancy(&failed).err().unwrap().message, "EIO");

    assert_eq!(descriptor_limit_step(1_000, 2_000, 10, 2, 3).unwrap(), LimitStep::Keep);
    assert_eq!(descriptor_limit_step(525, 2_000, 10, 2, 3).unwrap(), LimitStep::Raise(526));
    assert_eq!(descriptor_limit_step(526, 2_000, 10, 2, 3).unwrap(), LimitStep::Keep);
    assert_eq!(
        descriptor_limit_step(256, 500, 10, 2, 3).err().unwrap().message,
        "macOS graph journal exceeds the process descriptor ceiling"
    );
    assert_eq!(
        descriptor_limit_step(256, 500, usize::MAX, 2, 3).err().unwrap().message,
        "macOS graph descriptor budget overflowed"
    );
}

#[test]
fn vnode_budget_fails_closed_before_opening_an_unbounded_namespace() {
    let corpus = absolute("/tmp/x/meetings");
    let corrections = absolute("/tmp/x/state");
    let error = plan_roots(&corpus, &corrections, 1).err().unwrap();
    assert!(error.message.contains("vnode budget"));
    let roots = plan_roots(&corpus, &corrections, 5).unwrap();
    let error = plan_inventory(&roots, &vec![entry("/tmp/x/meetings/one.md")], &vec![], 5)
        .err()
        .unwrap();
    assert!(error.message.contains("vnode budget"));
    assert!(
        plan_inventory(&roots, &vec![entry("/tmp/x/meetings/one.md")], &vec![], 6).is_ok()
    );
}

#[test]
fn roots_are_watched_with_everything_above_them() {
    let roots =
        plan_roots(&absolute("/a/b/meetings"), &absolute("/a/state"), MAX_GRAPH_VNODE_WATCHES)
            .unwrap();
    assert_eq!(
        plan_of(&roots),
        vec![
            ("/".to_string(), false),
            ("/a".to_string(), false),
            ("/a/b".to_string(), false),
            ("/a/b/meetings".to_string(), true),
            ("/a/state".to_string(), true),
        ]
    );
    // A root above the other one is watched for its contents all the same.
    let nested = plan_roots(&absolute("/a/b/meetings"), &absolute("/a"), 10).unwrap();
    assert_eq!(plan_of(&nested)[1], ("/a".to_string(), true));
    assert_eq!(watch_flags(true), CONTENT_FLAGS);
    assert_eq!(watch_flags(false), STRUCTURAL_FLAGS);
}

#[test]
fn ancestors_do_not_change_what_is_watched() {
    let plan = WatchPlan::new().with(absolute("/a"), true);
    let plan = add_ancestors(plan, &absolute("/a/b/c"));
    assert_eq!(
        plan_of(&plan),
        vec![
            ("/".to_string(), false),
            ("/a".to_string(), true),
            ("/a/b".to_string(), false),
        ]
    );
    assert!(plan.contains(&absolute("/a/b")));
    assert!(!plan.contains(&absolute("/a/b/c")));
}

#[test]
fn plans_are_ordered_by_names() {
    let plan = WatchPlan::new()
        .with(absolute("/a/z"), true)
        .with(absolute("/a-b"), true)
        .with(absolute("/a"), true);
    let paths: Vec<String> = plan_of(&plan).into_iter().map(|(path, _)| path).collect();
    assert_eq!(paths, vec!["/a", "/a/z", "/a-b"]);
}

#[test]
fn inventories_watch_what_is_there_and_refuse_links() {
    let roots = plan_roots(&absolute("/m"), &absolute("/s"), 64).unwrap();
    let leaves = || {
        vec![
            (absolute("/s/vocabulary.toml"), regular(3)),
            (absolute("/s/overlays.db"), LeafFacts::Missing),
        ]
    };
    let plan =
        plan_inventory(&roots, &vec![entry("/m"), entry("/m/x.md")], &leaves(), 64).unwrap();
    assert_eq!(
        plan_of(&plan),
        vec![("/m/x.md".to_string(), true), ("/s/vocabulary.toml".to_string(), true)]
    );
    let linked = CorpusEntry { path: Ok(absolute("/m/link")), is_symlink: true };
    assert_eq!(
        plan_inventory(&roots, &vec![linked], &leaves(), 64).err().unwrap().message,
        "macOS graph journal refuses symlinked corpus entries"
    );
    let failed = CorpusEntry { path: Err("walk failed".to_string()), is_symlink: false };
    assert_eq!(
        plan_inventory(&roots, &vec![failed], &leaves(), 64).err().unwrap().message,
        "walk failed"
    );
    assert_eq!(
        plan_inventory(&roots, &vec![], &vec![(absolute("/s/v"), symlink())], 64)
            .err()
            .unwrap()
            .message,
        "macOS graph journal refuses symlinked correction inputs"
    );
    assert!(walks_into(true, true, true));
    assert!(!walks_into(false, true, true));
    assert!(walks_into(false, false, true));
}

#[test]
fn correction_inputs_are_the_files_and_their_sidecars() {
    let root = absolute("/s");
    let vocabulary = correction_leaf(&root, &file_path("/var/s/vocabulary.toml"), "no leaf").unwrap();
    let overlays = correction_leaf(&root, &file_path("overlays.db"), "no leaf").unwrap();
    let paths: Vec<String> = correction_paths(&vocabulary, &overlays).iter().map(shown).collect();
    assert_eq!(
        paths,
        vec![
            "/s/vocabulary.toml",
            "/s/overlays.db",
            "/s/overlays.db-wal",
            "/s/overlays.db-shm",
            "/s/overlays.db-journal",
        ]
    );
    assert_eq!(
        correction_leaf(&root, &file_path("/var/.."), "graph overlays path had no leaf")
            .err()
            .unwrap()
            .message,
        "graph overlays path had no leaf"
    );
    let unnamed = normalize_absolute_path(&FilePath { bytes: vec![47, 0xff] }).unwrap();
    assert_eq!(correction_paths(&vocabulary, &unnamed).len(), 2);
}

fn target(before: &LeafFacts, now: &LeafFacts) -> CorrectionTarget {
    CorrectionTarget {
        expected: correction_target_state(before).unwrap(),
        current: correction_target_state(now),
    }
}

const ROOT_FD: i32 = 9;

fn root_event(flags: u32) -> VnodeEvent {
    VnodeEvent { descriptor: ROOT_FD, flags }
}

#[test]
fn root_registration_precedes_inventory_and_catches_a_new_source() {
    let created = VnodeEvent { descriptor: 4, flags: 2 };
    assert!(
        changed(&vec![created], ROOT_FD, &vec![]).unwrap(),
        "the pre-inventory root watch must retain the create event"
    );
}

#[test]
fn unrelated_correction_root_activity_is_re_attested_and_ignored() {
    let stable = vec![target(&regular(3), &regular(3)), target(&regular(4), &regular(4))];
    assert!(!changed(&vec![root_event(2)], ROOT_FD, &stable).unwrap());
    let written = vec![target(&regular(3), &regular(8)), target(&regular(4), &regular(4))];
    assert!(changed(&vec![root_event(2)], ROOT_FD, &written).unwrap());
    assert!(changed(&vec![], ROOT_FD, &written).unwrap());
    let removed = vec![target(&regular(3), &LeafFacts::Missing)];
    assert!(changed(&vec![], ROOT_FD, &removed).unwrap());
}

#[test]
fn absent_correction_create_delete_aba_fails_closed() {
    let absent = vec![target(&LeafFacts::Missing, &LeafFacts::Missing)];
    assert!(
        changed(&vec![root_event(2)], ROOT_FD, &absent).unwrap(),
        "an initially absent correction leaf cannot erase create/delete ABA evidence"
    );
    assert!(!changed(&vec![], ROOT_FD, &absent).unwrap());
}

#[test]
fn correction_root_rename_restore_aba_fails_closed() {
    let stable = vec![target(&regular(3), &regular(3))];
    assert!(
        changed(&vec![root_event(0x20)], ROOT_FD, &stable).unwrap(),
        "restoring the correction-root pathname cannot erase its vnode rename"
    );
}

#[test]
fn inactive_corpus_subtrees_do_not_consume_or_poison_vnode_watches() {
    let corpus = absolute("/t/meetings");
    let roots = plan_roots(&corpus, &absolute("/t/state"), MAX_GRAPH_VNODE_WATCHES).unwrap();
    let archive = absolute("/t/meetings/archive");
    // The walk does not go into the archive, so that the link in it is never met.
    assert!(!walks_into(false, true, is_excluded_path(&archive, &corpus)));
    let plan = plan_inventory(&roots, &vec![entry("/t/meetings")], &vec![], roots.len()).unwrap();
    assert_eq!(plan.len(), 0);
    let absent = vec![target(&LeafFacts::Missing, &LeafFacts::Missing)];
    assert!(!changed(&vec![], ROOT_FD, &absent).unwrap());
}

#[test]
fn correction_inputs_must_be_regular_files() {
    assert_eq!(
        correction_target_state(&symlink()).err().unwrap().message,
        "macOS graph correction input was not a regular file"
    );
    assert_eq!(
        correction_target_state(&LeafFacts::Failed("EACCES".to_string())).err().unwrap().message,
        "EACCES"
    );
    let state = correction_target_state(&regular(3)).unwrap().unwrap();
    assert_eq!((state.length, state.modified_seconds, state.inode), (3, 5, 2));
    let unreadable = vec![CorrectionTarget {
        expected: Some(state),
        current: correction_target_state(&symlink()),
    }];
    assert!(changed(&vec![], ROOT_FD, &unreadable).is_err());
}

#[test]
fn registrations_are_read_from_their_receipts() {
    assert_eq!(read_receipt(1, false, 0), Registration::Registered);
    assert_eq!(read_receipt(1, true, 0), Registration::Registered);
    assert_eq!(read_receipt(1, true, 9), Registration::Refused(9));
    assert_eq!(read_receipt(0, false, 0), Registration::NoReceipt);
    assert_eq!(read_receipt(-1, false, 0), Registration::CallFailed);
    assert_eq!(vnode_path(&absolute("/a/b")).unwrap(), b"/a/b".to_vec());
    let nul = normalize_absolute_path(&FilePath { bytes: vec![47, 97, 0] }).unwrap();
    assert_eq!(vnode_path(&nul).err().unwrap().message, "macOS graph journal path contains NUL");
}

#[test]
fn aggregate_retains_counts_totals_and_maximum_without_samples() {
    let mut timing = TimingAggregate::default();
    for micros in [200, 900, 100] {
        timing.observe(Duration::from_micros(micros));
    }
    assert_eq!(timing.count, 3);
    assert_eq!(timing.total_us, 1200);
    assert_eq!(timing.max_us, 900);
    timing.observe(Duration::MAX);
    timing.observe(Duration::from_micros(1));
    assert_eq!(timing.count, 5);
    assert_eq!(timing.total_us, u64::MAX);
    assert_eq!(timing.max_us, u64::MAX);
}

#[test]
fn failed_operations_are_measured_without_logging_their_result() {
    let mut timings = SidecarWorkerTimings::default();
    let result: Result<(), &str> = timings
        .whisper_model_load
        .measure(|| Err("private model path and meeting content"));
    assert_eq!(result, Err("private model path and meeting content"));
    assert_eq!(timings.whisper_model_load.count, 1);
    assert_eq!(timings.final_inference.count, 0);
    assert!(!format!("{timings:?}").contains("private"));
}

#[test]
fn queue_model_inference_and_writer_delays_remain_separate() {
    let mut timings = SidecarWorkerTimings::default();
    timings.final_queue_wait.observe(Duration::from_millis(80));
    timings
        .whisper_model_load
        .observe(Duration::from_millis(40));
    timings.final_inference.observe(Duration::from_millis(20));
    timings.draft_inference.observe(Duration::from_millis(10));
    timings.writer_lock_wait.observe(Duration::from_millis(5));
    timings.writer_write.observe(Duration::from_millis(2));
    for (stage, total) in [
        (timings.final_queue_wait, 80_000),
        (timings.whisper_model_load, 40_000),
        (timings.final_inference, 20_000),
        (timings.draft_inference, 10_000),
        (timings.writer_lock_wait, 5_000),
        (timings.writer_write, 2_000),
    ] {
        assert_eq!(stage.count, 1);
        assert_eq!(stage.total_us, total);
    }
    assert_eq!(timings.finals_skipped_at_stop, 0);
    assert_eq!(timings.drafts_taken, 0);
}

fn modes(entries: &[(&str, bool, u32)]) -> FileModes {
    FileModes {
        entries: entries
            .iter()
            .map(|(path, is_file, mode)| {
                (file_path(path), FileMode { is_file: *is_file, mode: *mode })
            })
            .collect(),
    }
}

fn output(success: bool, stdout: &str) -> ShellOutput {
    ShellOutput { success, stdout: stdout.as_bytes().to_vec() }
}

#[test]
fn failed_shell_lookup_never_becomes_a_binary_candidate() {
    let known = modes(&[("/x/minutes", true, 0o755)]);
    assert!(executable_candidates(&output(false, "minutes not found\n"), &known).is_empty());
    // Even a valid executable printed by shell startup code cannot turn
    // the failed lookup into a successful detection.
    assert!(executable_candidates(&output(false, "/x/minutes\n"), &known).is_empty());
}

#[test]
fn shell_candidates_require_executable_absolute_files_and_preserve_path_order() {
    let known = modes(&[
        ("/r/first/minutes", true, 0o755),
        ("/r/second/minutes", true, 0o100),
        ("/r//second/minutes", true, 0o100),
        ("/r/text", true, 0o644),
        ("/r", false, 0o755),
        ("minutes", true, 0o755),
    ]);
    let printed = "minutes not found\n/r/first/minutes\n/r/text\n/r\n /r/first/minutes \r\n\
                   minutes\n/r/second/minutes\n/r//second/minutes\n/missing-minutes\n";
    let found: Vec<Vec<u8>> = executable_candidates(&output(true, printed), &known)
        .into_iter()
        .map(|path| path.bytes)
        .collect();
    assert_eq!(
        found,
        vec![b"/r/first/minutes".to_vec(), b"/r/second/minutes".to_vec()]
    );
    assert!(!is_executable(&file_path("minutes"), &known));
    let all = printed_paths(&b"a\n b\xff \n".to_vec());
    assert_eq!(all[1].bytes, "b\u{fffd}".as_bytes().to_vec());
}

#[test]
fn setup_symlink_is_classified_as_bundled() {
    for name in ["Minutes.app", "Minutes Dev.app"] {
        let resolved = absolute(&format!("/r/{name}/Contents/MacOS/minutes"));
        assert_eq!(
            known_install_method(&file_path("/r/minutes"), Some(&resolved)),
            Some("bundled")
        );
    }
    let cargo = absolute("/home/a/.cargo/bin/minutes");
    assert_eq!(
        known_install_method(&file_path("/home/a/.cargo/bin/minutes"), Some(&cargo)),
        Some("cargo")
    );
    assert_eq!(known_install_method(&file_path("/usr/bin/minutes"), Some(&cargo)), None);
    assert_eq!(known_install_method(&file_path("/home/a/.cargo/bin/minutes"), None), None);
}

#[test]
fn brew_detection_requires_formula_membership_of_the_selected_binary() {
    let brew = "/r/brew";
    let known = modes(&[(brew, true, 0o755), ("/usr/local/bin/brew", true, 0o755)]);
    assert_eq!(
        find_homebrew(Some(file_path(brew)), &known).unwrap().bytes,
        brew.as_bytes().to_vec()
    );
    assert_eq!(
        find_homebrew(None, &known).unwrap().bytes,
        b"/usr/local/bin/brew".to_vec()
    );
    assert!(find_homebrew(Some(file_path("/r/none")), &modes(&[])).is_none());
    let both = modes(&[
        ("/opt/homebrew/bin/brew", true, 0o755),
        ("/usr/local/bin/brew", true, 0o755),
    ]);
    assert_eq!(
        find_homebrew(None, &both).unwrap().bytes,
        b"/opt/homebrew/bin/brew".to_vec()
    );
    let places: Vec<Vec<u8>> = homebrew_places().into_iter().map(|path| path.bytes).collect();
    assert_eq!(
        places,
        vec![b"/opt/homebrew/bin/brew".to_vec(), b"/usr/local/bin/brew".to_vec()]
    );
    assert_eq!(
        homebrew_query(),
        vec!["list", "--formula", "--verbose", "silverstein/tap/minutes"]
    );

    let binary = absolute("/r/formula/minutes");
    let custom = absolute("/r/custom/minutes");
    let resolved = ResolvedPaths {
        entries: vec![(file_path("/r/formula/minutes"), absolute("/r/formula/minutes"))],
    };
    let listed = output(true, "/r/formula/minutes\n");
    assert!(homebrew_owns_binary(Some(&binary), Some(&listed), &resolved));
    assert!(!homebrew_owns_binary(Some(&custom), Some(&listed), &resolved));
    assert!(!homebrew_owns_binary(None, Some(&listed), &resolved));
    assert!(!homebrew_owns_binary(Some(&binary), None, &resolved));
    let failed = output(false, "/r/formula/minutes\n");
    assert!(!homebrew_owns_binary(Some(&binary), Some(&failed), &resolved));
}

#[test]
fn queries_are_rewritten_into_words() {
    assert_eq!(sanitize_fts_query("x1: wealth"), "x1 wealth*");
    assert_eq!(sanitize_fts_query("Pricing/Roadm"), "pricing roadm*");
    assert_eq!(sanitize_fts_query("café \"résu\""), "café résu*");
    assert_eq!(sanitize_fts_query("---"), "");
    assert_eq!(sanitize_fts_query("  a  "), "a*");
}

#[test]
fn absolute_paths_are_normalized() {
    assert_eq!(shown(&absolute("//a/./b/../c/")), "/a/c");
    assert_eq!(shown(&absolute("/")), "/");
    let escaped = normalize_absolute_path(&file_path("/a/../../b")).err().unwrap();
    assert_eq!(io_message(escaped), "meeting path escapes filesystem root: /a/../../b");
    let relative = normalize_absolute_path(&file_path("a")).err().unwrap();
    assert_eq!(io_message(relative), "expected absolute meeting path: a");
    let again = normalize_absolute_path(&absolute("/a/../b//c").file_path()).unwrap();
    assert_eq!(shown(&again), "/b/c");
    assert_eq!(FilePath { bytes: vec![47, 0xff] }.display(), "/\u{fffd}");
}

fn facts(exists: bool, canonical: Result<&str, &str>, is_directory: bool) -> AncestorFacts {
    AncestorFacts {
        exists,
        canonical: match canonical {
            Ok(path) => Ok(absolute(path)),
            Err(reason) => Err(reason.to_string()),
        },
        is_directory,
    }
}

#[test]
fn corpora_resolve_through_their_nearest_existing_ancestor() {
    let corpus = absolute("/var/m/new/deep");
    let missing = || facts(false, Err("missing"), false);
    let resolved = canonical_corpus_root(
        &corpus,
        &vec![missing(), missing(), facts(true, Ok("/private/var/m"), true)],
    )
    .unwrap();
    assert_eq!(shown(&resolved), "/private/var/m/new/deep");
    let present = canonical_corpus_root(&corpus, &vec![facts(true, Ok("/real"), true)]).unwrap();
    assert_eq!(shown(&present), "/real");
    let file = canonical_corpus_root(&corpus, &vec![facts(true, Ok("/real"), false)]);
    assert_eq!(
        io_message(file.err().unwrap()),
        "meeting corpus is not a directory: /var/m/new/deep"
    );
    let denied = canonical_corpus_root(&corpus, &vec![facts(true, Err("denied"), false)]);
    assert_eq!(
        io_message(denied.err().unwrap()),
        "resolve meeting corpus /var/m/new/deep: denied"
    );
    let above = canonical_corpus_root(&corpus, &vec![missing(), facts(true, Err("denied"), false)]);
    assert_eq!(
        io_message(above.err().unwrap()),
        "resolve meeting corpus ancestor /var/m/new: denied"
    );
    assert_eq!(
        io_message(canonical_corpus_root(&corpus, &vec![]).err().unwrap()),
        "meeting corpus has no existing ancestor: /var/m/new/deep"
    );
    let relative = absolute_corpus_path(&file_path("m"), Ok(file_path("/home"))).unwrap();
    assert_eq!(shown(&relative), "/home/m");
    let lost = absolute_corpus_path(&file_path("m"), Err("gone".to_string()));
    assert_eq!(io_message(lost.err().unwrap()), "resolve current directory: gone");
}

#[test]
fn meeting_files_are_told_by_their_names() {
    assert!(has_markdown_name(&absolute("/m/a.md")));
    assert!(has_markdown_name(&absolute("/m/..md")));
    assert!(!has_markdown_name(&absolute("/m/.md")));
    assert!(!has_markdown_name(&absolute("/m/a.mdx")));
    assert!(!has_markdown_name(&absolute("/")));
    let root = absolute("/failed/m");
    assert!(is_excluded_path(&absolute("/failed/m/x/processed/a.md"), &root));
    assert!(is_excluded_path(&absolute("/failed/m/failed"), &root));
    assert!(!is_excluded_path(&absolute("/failed/m/archived/a.md"), &root));
    assert!(!is_excluded_path(&absolute("/elsewhere/archive/a.md"), &root));
}

#[test]
fn files_are_opened_name_by_name_beneath_the_corpus() {
    let root = absolute("/m");
    let mut walk = begin_open_beneath(&root, &file_path("/m//x/./a.md")).unwrap();
    let first = walk.next().unwrap();
    assert_eq!((first.name, first.as_directory), (b"x".to_vec(), true));
    walk.advance();
    let second = walk.next().unwrap();
    assert_eq!((second.name, second.as_directory), (b"a.md".to_vec(), false));
    walk.advance();
    assert!(walk.finished());
    assert_eq!(io_message(walk.root_not_opened("EACCES")), "open meeting corpus /m: EACCES");
    assert_eq!(
        io_message(walk.file_not_opened("ELOOP")),
        "open meeting file /m//x/./a.md: ELOOP"
    );
    let refused = |path: &str| io_message(begin_open_beneath(&root, &file_path(path)).err().unwrap());
    assert_eq!(refused("/n/a.md"), "meeting path is outside corpus: /n/a.md");
    assert_eq!(refused("/m"), "meeting path is not a regular corpus path: /m");
    assert_eq!(
        refused("/m/x/../a.md"),
        "meeting path is not a regular corpus path: /m/x/../a.md"
    );
    let nul = begin_open_beneath(&root, &file_path("/m/a\0b")).unwrap();
    assert_eq!(
        io_message(nul.next().err().unwrap()),
        "meeting path contains a NUL byte: /m/a\0b"
    );
    let nul_root = normalize_absolute_path(&FilePath { bytes: vec![47, 109, 0] }).unwrap();
    assert_eq!(
        io_message(begin_open_beneath(&nul_root, &file_path("/m\0/a")).err().unwrap()),
        "meeting corpus contains a NUL byte: /m\0"
    );
}

#[test]
fn frontmatter_is_split_and_read() {
    let (header, body) = split_frontmatter("---\ntitle: \"A\"\ndate: 2026-01-02\n---\n\nbody");
    assert_eq!(header, "title: \"A\"\ndate: 2026-01-02\n");
    assert_eq!(body, "\nbody");
    assert_eq!(extract_field(&header, "title"), Some("A".to_string()));
    assert_eq!(extract_field(&header, "date"), Some("2026-01-02".to_string()));
    assert_eq!(extract_field(&header, "type"), None);
    let (header, body) = split_frontmatter("no fence");
    assert_eq!((header.as_str(), body.as_str()), ("", "no fence"));
    assert_eq!(lines("a\n\nb"), vec!["a", "", "b"]);
}

#[test]
fn dates_are_known_by_their_rfc3339_text() {
    let date = MeetingDate::at(1_777_420_800, 0, 7_200).unwrap();
    assert_eq!(date.to_rfc3339(), "2026-04-29T02:00:00+02:00");
    assert!(MeetingDate::at(0, 0, 100_000).is_none());
}

#[test]
fn texts_are_compared_as_they_are_documented() {
    assert_eq!(decimal_text(0), "0");
    assert_eq!(decimal_text(u64::MAX), u64::MAX.to_string());
    assert!(text_less("2026-01-01", "2026-01-01T00"));
    assert!(!text_less("b", "abc"));
    assert!(eq_ignore_ascii_case("DeFault", "default"));
    assert!(!eq_ignore_ascii_case("É", "é"));
    assert_eq!(trimmed("\u{2003} a b \t"), "a b");
    assert!(contains_text("abc", ""));
    assert!(contains_text("abcabd", "abd"));
    assert!(!contains_text("ab", "abc"));
    let SearchError::Index(text) = SearchIndexError::Io("gone".to_string()).into_search_error();
    assert_eq!(text, "I/O error: gone");
    let CaptureError::Io(text) = capture_error("open", "denied");
    assert_eq!(text, "open: denied");
}

#[test]
fn the_first_problem_of_an_inventory_is_reported() {
    let roots = plan_roots(&absolute("/m"), &absolute("/s"), 64).unwrap();
    let linked = || CorpusEntry { path: Ok(absolute("/m/link")), is_symlink: true };
    let failed = || CorpusEntry { path: Err("walk failed".to_string()), is_symlink: false };
    let leaves = || vec![(absolute("/s/overlays.db"), LeafFacts::Failed("denied".to_string()))];
    let told = |entries: Vec<CorpusEntry>, most: usize| {
        plan_inventory(&roots, &entries, &leaves(), most).err().unwrap().message
    };
    assert_eq!(told(vec![failed(), linked()], 64), "walk failed");
    assert_eq!(
        told(vec![linked(), failed()], 64),
        "macOS graph journal refuses symlinked corpus entries"
    );
    assert_eq!(
        told(vec![entry("/m/x.md"), failed()], roots.len()),
        "macOS graph journal vnode budget exceeded"
    );
    assert_eq!(told(vec![entry("/m/x.md")], 64), "denied");
}

#[test]
fn a_resolved_corpus_resolves_to_itself() {
    // `/link` leads to `/real`, below which nothing is there yet.
    let first = canonical_corpus_root(
        &absolute("/link/new/meetings"),
        &vec![
            facts(false, Err("missing"), false),
            facts(false, Err("missing"), false),
            facts(true, Ok("/real"), true),
        ],
    )
    .unwrap();
    assert_eq!(shown(&first), "/real/new/meetings");
    let again = canonical_corpus_root(
        &first,
        &vec![
            facts(false, Err("missing"), false),
            facts(false, Err("missing"), false),
            facts(true, Ok("/real"), true),
        ],
    )
    .unwrap();
    assert!(again.same(&first));
}

#[test]
fn the_longest_observation_is_the_maximum() {
    let mut timing = TimingAggregate::default();
    assert_eq!(timing.max_us, 0);
    for micros in [4, 9, 2] {
        timing.observe_micros(micros);
    }
    assert_eq!((timing.count, timing.total_us, timing.max_us), (3, 15, 9));
}
