use harness::digest::Digest;
use harness::review::catalog::{branch_line, branch_lines, candidates, check_reference, find_branch, head_branch, current_branch, log_commits, take_branch};
use harness::review::freeze::{check_working, freeze_objects, same_tree, WorkingScan};
use harness::review::git::{
    commit_expression, commit_parent, finish_command, oid_valid, quote, read_object,
    revision_parts, take_output, trim, CommandEnd, CommandFailure,
};
use harness::review::index::index_info;
use harness::review::inspect::{
    answer_line, capture, check_found, check_opened, check_policies, check_read, check_time,
    check_unmoved, object_format, plan, read_link, AfterSource, FileStamp, IndexScan,
    InspectionPlan, PathKind, SourceState,
};
use harness::review::model;
use harness::review::model::{
    assemble, check_manifest, check_tree, page, safe, source_identity, tree_text,
    validate_limits, FileKind, FrozenFile, FrozenTree, ReviewError, ReviewLimits, ReviewRange,
    ReviewSide,
};
use harness::review::objects::{batch_input, check_sizes, list_objects, list_paths, verify_object, Listing, Object};
use harness::review::snapshots::{
    check_bounds, check_entry, file_mode, metadata_changes, SnapshotBounds, SnapshotEntry,
    SnapshotScan,
};
use harness::text_map::TextMap;

const HELLO: &str = "b6fc4c620b67d95f953a5c1c1230aaab5db5a1b0";

fn frozen(text: &str, permissions: u32) -> FrozenFile {
    FrozenFile {
        kind: FileKind::File,
        mode: file_mode(permissions),
        permissions: Some(permissions),
        content: Digest::of(text.as_bytes()),
        bytes: text.len(),
        git_object: None,
    }
}

fn tree(files: &[(&str, &str, u32)]) -> FrozenTree {
    let mut map: TextMap<FrozenFile> = TextMap::new();
    for (path, text, permissions) in files {
        map.insert(path.to_string(), frozen(text, *permissions));
    }
    FrozenTree { version: 1, files: map }
}

#[test]
fn object_names_are_lower_case_hexadecimal() {
    assert!(oid_valid(HELLO, "sha1"));
    assert!(!oid_valid(HELLO, "sha256"));
    assert!(!oid_valid(&HELLO.to_uppercase(), "sha1"));
    assert_eq!(read_object(format!("{HELLO}\n").as_bytes(), "sha1"), Ok(HELLO.to_string()));
    assert_eq!(read_object(b"HEAD\n", "sha1"), Err(ReviewError::Protocol));
    assert_eq!(read_object(b"\xff", "sha1"), Err(ReviewError::Protocol));
}

#[test]
fn paths_are_quoted_byte_by_byte() {
    assert_eq!(quote(b"a\"b\\c"), b"\"a\\\"b\\\\c\"".to_vec());
    assert_eq!(quote("\u{e9}\n".as_bytes()), b"\"\\303\\251\\012\"".to_vec());
    assert_eq!(trim("  x \n"), "x");
}

#[test]
fn revisions_split_into_a_name_and_steps() {
    assert_eq!(
        revision_parts("main~2^"),
        Ok(("main".to_string(), "~2^".to_string()))
    );
    assert_eq!(revision_parts("-x"), Err(ReviewError::Range));
    assert_eq!(revision_parts(""), Err(ReviewError::Range));
    assert_eq!(revision_parts("a..b"), Err(ReviewError::Range));
    assert_eq!(commit_expression(HELLO, "~1"), format!("{HELLO}~1^{{commit}}"));
    assert_eq!(commit_parent(b"aa bb\n", "aa"), Ok(Some("bb".to_string())));
    assert_eq!(commit_parent(b"aa\n", "aa"), Ok(None));
    assert_eq!(commit_parent(b"cc\n", "aa"), Err(ReviewError::Protocol));
}

#[test]
fn commands_end_with_their_output_or_their_error() {
    let end = |success: bool, stopped: Option<CommandFailure<u8>>| CommandEnd {
        quiet: true,
        stopped,
        output: Ok(b"out".to_vec()),
        report: Ok("why".to_string()),
        success,
    };
    assert_eq!(finish_command(end(true, None)), Ok(b"out".to_vec()));
    assert_eq!(
        finish_command(end(false, None)),
        Err(CommandFailure::Review(ReviewError::Git("why".to_string())))
    );
    let late = CommandFailure::Review(ReviewError::TimedOut);
    assert_eq!(
        finish_command(end(true, Some(late))),
        Err(CommandFailure::Review(ReviewError::TimedOut))
    );
    assert_eq!(
        finish_command(end(true, Some(CommandFailure::System(7)))),
        Err(CommandFailure::System(7))
    );
    let mut unread = end(false, None);
    unread.output = Err(CommandFailure::System(8));
    assert_eq!(finish_command(unread), Err(CommandFailure::System(8)));
    let mut loud = end(true, None);
    loud.quiet = false;
    assert_eq!(finish_command(loud), Err(CommandFailure::Review(ReviewError::Unknown)));
    let mut output = b"ab".to_vec();
    assert_eq!(take_output(&mut output, b"cd".to_vec(), 4), Ok(()));
    assert_eq!(output, b"abcd".to_vec());
    assert_eq!(take_output(&mut output, b"e".to_vec(), 4), Err(ReviewError::Limit("Git output")));
}

#[test]
fn paths_are_listed_between_zero_bytes() {
    assert_eq!(list_paths(b"a\0\0b/c\0"), vec![b"a".to_vec(), b"b/c".to_vec()]);
    assert_eq!(list_paths(b"a\0b"), vec![b"a".to_vec(), b"b".to_vec()]);
    assert_eq!(list_paths(b"\0\0"), Vec::<Vec<u8>>::new());
    assert_eq!(list_paths(b""), Vec::<Vec<u8>>::new());
}

#[test]
fn objects_are_listed_and_frozen() {
    let limits = ReviewLimits::default();
    validate_limits(&limits).unwrap();
    let listing = format!("100644 blob {HELLO}\ta.txt\0");
    let objects = list_objects(listing.as_bytes(), Listing::Tree, &limits).unwrap();
    assert_eq!(
        objects,
        vec![Object {
            path: "a.txt".to_string(),
            mode: 0o100644,
            oid: HELLO.to_string(),
        }]
    );
    let staged = format!("100755 {HELLO} 0\tb\0");
    assert_eq!(
        list_objects(staged.as_bytes(), Listing::Index, &limits).unwrap()[0].mode,
        0o100755
    );
    assert_eq!(batch_input(&objects, "sha1").unwrap(), format!("{HELLO}\n"));
    assert_eq!(check_sizes(format!("{HELLO} blob 5\n").as_bytes(), &limits), Ok(()));
    assert_eq!(
        check_sizes(format!("{HELLO} tree 5\n").as_bytes(), &limits),
        Err(ReviewError::Protocol)
    );
    let large = format!("{HELLO} blob {}\n", limits.max_file_bytes + 1);
    assert_eq!(check_sizes(large.as_bytes(), &limits), Err(ReviewError::Limit("file bytes")));
    let answer = format!("{HELLO} blob 5\nhello\n");
    let (tree, contents) = freeze_objects(&objects, answer.as_bytes(), "sha1", &limits).unwrap();
    assert_eq!(contents, vec![b"hello".to_vec()]);
    assert_eq!(tree.files.len(), 1);
    assert_eq!(tree.files.value(0).content, Digest::of(b"hello"));
    assert_eq!(check_working(&tree), Ok(()));
    let altered = format!("{HELLO} blob 5\nhellO\n");
    assert!(freeze_objects(&objects, altered.as_bytes(), "sha1", &limits).is_err());
}

#[test]
fn contents_are_held_to_their_names() {
    assert_eq!(verify_object(b"hello", HELLO, "sha1"), Ok(()));
    assert_eq!(
        verify_object(
            b"hello",
            "8aec4e4876f854f688d0ebfc8f37598f38e5fd6903cccc850ca36591175aeb60",
            "sha256"
        ),
        Ok(())
    );
    assert_eq!(verify_object(b"hallo", HELLO, "sha1"), Err(ReviewError::Corrupt));
}

#[test]
fn an_index_names_the_hashed_contents() {
    let tree = tree(&[("a.txt", "hello", 0o644)]);
    let text = index_info(&tree, &vec![HELLO.to_string()], &vec![b"hello".to_vec()], "sha1").unwrap();
    assert_eq!(text, format!("100644 {HELLO}\ta.txt\0"));
}

#[test]
fn paths_stay_within_their_root() {
    assert!(safe("a/b.txt"));
    for path in ["", "/a", "a/../b", "a//b", "./a", "x/.GIT/config", "a\0"] {
        assert!(!safe(path), "{path}");
    }
}

#[test]
fn trees_are_paged() {
    let tree = tree(&[("b", "2", 0o644), ("a", "1", 0o644), ("c", "3", 0o644)]);
    check_tree(&tree).unwrap();
    let first = page(&tree, 0, 2).unwrap();
    assert_eq!(first.total, 3);
    assert_eq!(first.next_offset, Some(2));
    assert_eq!(first.files[0].path, "a");
    let last = page(&tree, 2, 2).unwrap();
    assert_eq!(last.next_offset, None);
    assert_eq!(last.files[0].path, "c");
    assert_eq!(model::file(&tree, "b").unwrap().unwrap().content, Digest::of(b"2"));
    assert!(model::file(&tree, "d").unwrap().is_none());
    assert_eq!(model::file(&tree, "../d").err(), Some(ReviewError::Path));
}

#[test]
fn reviews_are_bound_to_their_source() {
    let before = tree(&[("a", "1", 0o644)]);
    let after = tree(&[("a", "2", 0o644)]);
    let patch = Digest::of(b"patch");
    let range = || ReviewRange::WorkingTree { base: None };
    let (inspection, manifest, texts) = assemble(
        range(),
        "/repo".to_string(),
        Some(HELLO.to_string()),
        None,
        &before,
        &after,
        patch,
        Digest::of(b"git"),
        metadata_changes(&before, &after),
        &ReviewLimits::default(),
    )
    .unwrap();
    assert_eq!(texts.before, tree_text(&before));
    assert_eq!(inspection.before, Digest::of(texts.before.as_bytes()));
    assert_eq!(inspection.manifest, Digest::of(texts.manifest.as_bytes()));
    assert_eq!(manifest.tree(ReviewSide::After), inspection.after);
    assert_eq!(
        inspection.source_identity,
        source_identity(
            &range(),
            &Some(HELLO.to_string()),
            &None,
            inspection.before,
            inspection.after,
            patch
        )
    );
    check_manifest(&manifest).unwrap();
    let mut altered = manifest;
    altered.patch = Digest::of(b"other");
    assert_eq!(check_manifest(&altered), Err(ReviewError::Corrupt));
}

#[test]
fn snapshots_are_frozen_as_they_are() {
    let limits = ReviewLimits::default();
    let bounds = SnapshotBounds { version: 1, max_files: 10, max_bytes: 100 };
    check_bounds(&bounds, 2, &limits).unwrap();
    assert!(check_bounds(&bounds, 11, &limits).is_err());
    let entry = SnapshotEntry::File { content: Digest::of(b"x"), mode: 0o755 };
    check_entry("bin/run", &entry).unwrap();
    assert_eq!(check_entry("../run", &entry), Err(ReviewError::Path));
    let mut scan = SnapshotScan::new();
    scan.take("bin/run", &entry, &b"x".to_vec(), &bounds, &limits).unwrap();
    assert_eq!(
        scan.take("other", &entry, &b"y".to_vec(), &bounds, &limits),
        Err(ReviewError::Corrupt)
    );
    let link = SnapshotEntry::Symlink { target: "t".repeat(200) };
    assert_eq!(
        scan.take("link", &link, &vec![], &bounds, &limits),
        Err(ReviewError::Limit("snapshot bytes"))
    );
    assert_eq!(scan.files.value(0).mode, 0o100755);
    assert_eq!(file_mode(0o644), 0o100644);
}

#[test]
fn only_changed_metadata_is_listed() {
    let before = tree(&[("a", "1", 0o644), ("b", "1", 0o644)]);
    let after = tree(&[("a", "1", 0o600), ("b", "1", 0o644)]);
    assert_eq!(metadata_changes(&before, &after), vec!["a".to_string()]);
    assert_eq!(metadata_changes(&before, &before), Vec::<String>::new());
    assert!(same_tree(&before, &before));
    assert!(!same_tree(&before, &after));
}

#[test]
fn working_scans_are_bounded() {
    let mut limits = ReviewLimits::default();
    limits.max_snapshot_bytes = 3;
    let mut scan = WorkingScan::new();
    scan.take("a".to_string(), frozen("12", 0o644), &limits).unwrap();
    assert!(scan.has("a"));
    assert_eq!(
        scan.take("b".to_string(), frozen("12", 0o644), &limits),
        Err(ReviewError::Limit("snapshot bytes"))
    );
}

#[test]
fn branches_and_commits_are_read() {
    let line = format!("refs/heads/main\0{HELLO}\n");
    let (lines, truncated) = branch_lines(line.as_bytes()).unwrap();
    assert_eq!(lines.len(), 1);
    assert!(!truncated);
    let branch = branch_line(&lines[0], "sha1").unwrap();
    assert_eq!(branch.name, "refs/heads/main");
    assert_eq!(branch.revision, HELLO);
    assert_eq!(branch_line("refs/heads/main", "sha1"), Err(ReviewError::Protocol));
    assert_eq!(branch_line(&lines[0], "sha256"), Err(ReviewError::Protocol));
    assert_eq!(branch_lines(b"\xff"), Err(ReviewError::Protocol));
    let (lines, truncated) = branch_lines(line.repeat(33).as_bytes()).unwrap();
    assert_eq!(lines.len(), 32);
    assert!(truncated);
    assert_eq!(
        find_branch(line.as_bytes(), "refs/heads/main", "sha1"),
        Ok(Some(HELLO.to_string()))
    );
    assert_eq!(find_branch(line.as_bytes(), "refs/heads/x", "sha1"), Ok(None));
    let log = format!("{HELLO}\0{HELLO} {HELLO}\0title\0\n");
    let (commits, more) = log_commits(log.as_bytes(), "sha1").unwrap();
    assert_eq!(commits.len(), 1);
    assert_eq!(commits[0].parents.len(), 2);
    assert_eq!(commits[0].title, "title");
    assert!(!more);
    assert_eq!(check_reference("heads/main"), Err(ReviewError::Protocol));
    assert_eq!(check_reference("refs/heads/main"), Ok(()));
    assert_eq!(head_branch(HELLO).name, "HEAD");
    let unrelated = ReviewError::Git(String::new());
    assert_eq!(current_branch(Err(unrelated)), Ok(None));
    assert_eq!(
        current_branch(Ok(b"refs/heads/topic\n".to_vec())),
        Ok(Some("refs/heads/topic".to_string()))
    );
    let failure = ReviewError::Git("fatal".to_string());
    assert_eq!(current_branch(Err(failure)), Err(ReviewError::Git("fatal".to_string())));
    let mut taken = Vec::new();
    for answer in [
        Ok(format!("{HELLO}\n").into_bytes()),
        Err(ReviewError::Git(String::new())),
    ] {
        let named = branch_line(line.trim_end(), "sha1").unwrap();
        assert_eq!(take_branch(&mut taken, named, answer, "sha1"), Ok(()));
    }
    assert_eq!(taken.len(), 1);
    assert_eq!(taken[0].merge_base, HELLO);
    let named = branch_line(line.trim_end(), "sha1").unwrap();
    assert_eq!(
        take_branch(&mut taken, named, Ok(b"?".to_vec()), "sha1"),
        Err(ReviewError::Protocol)
    );
    assert_eq!(
        candidates(
            &vec![String::new(), "refs/remotes/origin/main".to_string()],
            Some("refs/heads/topic".to_string()),
            "refs/remotes/origin/topic"
        )
        .unwrap(),
        vec![
            "refs/remotes/origin/main".to_string(),
            "refs/heads/main".to_string(),
            "refs/heads/master".to_string(),
            "refs/heads/trunk".to_string(),
            "refs/heads/develop".to_string(),
            "refs/heads/topic".to_string(),
        ]
    );
}

#[test]
fn ranges_name_what_is_read() {
    assert_eq!(
        plan(&ReviewRange::WorkingTree { base: None }),
        Ok(InspectionPlan {
            base: Some("HEAD".to_string()),
            head: None,
            after: AfterSource::WorkingTree,
        })
    );
    assert_eq!(
        plan(&ReviewRange::Staged { base: Some("main".to_string()) }),
        Ok(InspectionPlan {
            base: Some("main".to_string()),
            head: None,
            after: AfterSource::Index,
        })
    );
    assert_eq!(
        plan(&ReviewRange::Commit { revision: "topic".to_string() }),
        Ok(InspectionPlan {
            base: None,
            head: Some("topic".to_string()),
            after: AfterSource::Commit,
        })
    );
    assert_eq!(
        plan(&ReviewRange::Between { base: "a".to_string(), head: "b".to_string() }),
        Ok(InspectionPlan {
            base: Some("a".to_string()),
            head: Some("b".to_string()),
            after: AfterSource::Commit,
        })
    );
    assert_eq!(
        plan(&ReviewRange::Snapshots { before: Digest::of(b"a"), after: Digest::of(b"b") }),
        Err(ReviewError::Range)
    );
}

#[test]
fn sources_that_move_are_refused() {
    let a = tree(&[("a", "one", 0o644)]);
    let b = tree(&[("a", "two", 0o644)]);
    let first = SourceState { head: HELLO, index: Some(Digest::of(b"i")), tree: Some(&a) };
    let again = SourceState { head: HELLO, index: Some(Digest::of(b"i")), tree: Some(&a) };
    assert_eq!(check_unmoved(&first, &again), Ok(()));
    for moved in [
        SourceState { head: "other", index: Some(Digest::of(b"i")), tree: Some(&a) },
        SourceState { head: HELLO, index: Some(Digest::of(b"j")), tree: Some(&a) },
        SourceState { head: HELLO, index: Some(Digest::of(b"i")), tree: Some(&b) },
        SourceState { head: HELLO, index: None, tree: Some(&a) },
    ] {
        assert_eq!(check_unmoved(&first, &moved), Err(ReviewError::Changed));
    }
    assert_eq!(check_time(true, true), Err(ReviewError::Cancelled));
    assert_eq!(check_time(false, true), Err(ReviewError::TimedOut));
    assert_eq!(check_time(false, false), Ok(()));
}

#[test]
fn worktrees_are_found_through_their_marker() {
    assert_eq!(read_link(b"gitdir: /repo/.git/worktrees/a\n"), Ok("/repo/.git/worktrees/a".to_string()));
    assert_eq!(read_link(b"worktree: x"), Err(ReviewError::Protocol));
    assert_eq!(answer_line(b" /repo \n"), Ok(" /repo".to_string()));
    assert_eq!(object_format(b"sha256\n"), Ok("sha256".to_string()));
    assert_eq!(object_format(b"md5\n"), Err(ReviewError::Unsupported("Git object format")));
    assert_eq!(object_format(b"\xff"), Err(ReviewError::Protocol));
}

fn stamp(size: u64) -> FileStamp {
    FileStamp {
        device: 1,
        inode: 2,
        size,
        modified: 3,
        modified_nanos: 4,
        changed: 5,
        changed_nanos: 6,
        mode: 0o100755,
    }
}

#[test]
fn files_are_frozen_as_they_were_found() {
    assert_eq!(check_opened(true, 4, 4), Ok(()));
    assert_eq!(check_opened(true, 5, 4), Err(ReviewError::Limit("file bytes or type")));
    assert_eq!(check_opened(false, 1, 4), Err(ReviewError::Limit("file bytes or type")));
    assert_eq!(check_read(&stamp(4), &stamp(4), 4, 4), Ok(()));
    assert_eq!(check_read(&stamp(4), &stamp(4), 5, 4), Err(ReviewError::Limit("file bytes")));
    assert_eq!(check_read(&stamp(4), &stamp(3), 3, 4), Err(ReviewError::Changed));
    assert_eq!(check_read(&stamp(4), &stamp(4), 3, 4), Err(ReviewError::Changed));
    let mut other = stamp(4);
    other.inode = 9;
    assert_eq!(check_found(&stamp(4), &other, 1), Err(ReviewError::Changed));
    assert_eq!(
        check_found(&stamp(4), &stamp(4), 7),
        Err(ReviewError::Unsupported("cross-filesystem source file"))
    );
    assert_eq!(check_found(&stamp(4), &stamp(4), 1), Ok(()));
    let file = capture(PathKind::File, 0o100755, &b"data".to_vec()).unwrap().unwrap();
    assert_eq!(file, frozen("data", 0o755));
    let link = capture(PathKind::Link, 0o120777, &b"to".to_vec()).unwrap().unwrap();
    assert_eq!((link.kind, link.mode, link.permissions), (FileKind::Symlink, 0o120000, Some(0o777)));
    assert_eq!(capture(PathKind::Directory, 0o40755, &vec![]), Ok(None));
    assert_eq!(
        capture(PathKind::Link, 0o120777, &vec![b'x'; 4097]),
        Err(ReviewError::Limit("link target"))
    );
    assert_eq!(
        capture(PathKind::Other, 0, &vec![]),
        Err(ReviewError::Unsupported("special working-tree file"))
    );
    let bounds = SnapshotBounds { version: 1, max_files: 2, max_bytes: 3 };
    let others = SnapshotBounds { version: 1, max_files: 2, max_bytes: 4 };
    assert_eq!(check_policies(&bounds, &bounds), Ok(()));
    assert_eq!(
        check_policies(&bounds, &others),
        Err(ReviewError::Unsupported("snapshot policies differ"))
    );
}

#[test]
fn indexes_are_bounded_and_identified() {
    let limits = ReviewLimits { max_metadata_bytes: 4, ..ReviewLimits::default() };
    let mut scan = IndexScan::new(vec![1, 255]);
    let name = format!("sharedindex.{HELLO}");
    assert_eq!(scan.entry(Some("HEAD"), "sha1"), Ok(false));
    assert_eq!(scan.entry(None, "sha1"), Ok(false));
    assert_eq!(scan.entry(Some("sharedindex.x"), "sha1"), Err(ReviewError::Protocol));
    assert_eq!(scan.entry(Some(&name), "sha1"), Ok(true));
    assert_eq!(scan.take(name.clone(), vec![0, 7], &limits), Ok(()));
    assert_eq!(
        scan.identity(),
        Digest::of(format!("[[1,255],{{\"{name}\":[0,7]}}]").as_bytes())
    );
    assert_eq!(
        scan.take("sharedindex.b".to_string(), vec![1], &limits),
        Err(ReviewError::Limit("index bytes"))
    );
    let mut scan = IndexScan::new(Vec::new());
    for _ in 0..4096 {
        assert_eq!(scan.entry(Some("a"), "sha1"), Ok(false));
    }
    assert_eq!(
        scan.entry(Some("a"), "sha1"),
        Err(ReviewError::Limit("Git directory entries"))
    );
    let mut scan = IndexScan::new(Vec::new());
    for i in 0..16 {
        assert_eq!(scan.take(format!("{i}"), Vec::new(), &limits), Ok(()));
    }
    assert_eq!(scan.entry(Some(&name), "sha1"), Err(ReviewError::Limit("shared indexes")));
}

#[test]
fn pages_cover_the_tree() {
    let names: Vec<String> = (0..7).map(|i| format!("f{i}")).collect();
    let files: Vec<(&str, &str, u32)> = names.iter().map(|name| (name.as_str(), "x", 0o644)).collect();
    let whole = tree(&files);
    let mut seen: Vec<String> = Vec::new();
    let mut offset = Some(0);
    while let Some(from) = offset {
        let shown = page(&whole, from, 3).unwrap();
        assert_eq!(shown.total, 7);
        seen.extend(shown.files.into_iter().map(|file| file.path));
        offset = shown.next_offset;
    }
    assert_eq!(seen, names);
}
