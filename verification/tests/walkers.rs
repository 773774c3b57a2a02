use cargo_wipe::fs_model::{FsEntry, WalkError};
use cargo_wipe::locate::{get_paths_to_delete, is_valid_target};
use cargo_wipe::measure::dir_size;
use cargo_wipe::params::FolderNameEnum;
use cargo_wipe::stats::DirInfo;

fn file(name: &str, size: usize) -> FsEntry {
    FsEntry::File { name: name.to_string(), size }
}

fn dir(name: &str, entries: Vec<FsEntry>) -> FsEntry {
    FsEntry::Dir { name: name.to_string(), entries, complete: true }
}

fn partial_dir(name: &str, entries: Vec<FsEntry>) -> FsEntry {
    FsEntry::Dir { name: name.to_string(), entries, complete: false }
}

fn unreadable(name: &str) -> FsEntry {
    FsEntry::UnreadableDir { name: name.to_string() }
}

#[test]
fn measure_counts_files_and_itself() {
    // A directory holding two files measures as one directory, two
    // files, and the sum of the file sizes.
    let d = dir("node_modules", vec![file("file1", 10), file("file2", 20)]);
    let r = dir_size("./a/node_modules", &d).unwrap();
    assert_eq!(r, DirInfo::new(1, 2, 30));
}

#[test]
fn measure_recurses_into_subdirectories() {
    let d = dir(
        "root",
        vec![
            file("a", 1),
            file("b", 2),
            dir("sub1", vec![file("c", 4)]),
            dir("sub2", vec![dir("sub3", vec![]), file("d", 8)]),
        ],
    );
    let r = dir_size(".", &d).unwrap();
    assert_eq!(r, DirInfo::new(4, 4, 15));
}

#[test]
fn measure_unreadable_path_is_zero_not_error() {
    let r = dir_size("./gone", &unreadable("gone")).unwrap();
    assert_eq!(r, DirInfo::new(0, 0, 0));
}

#[test]
fn measure_unreadable_child_contributes_zero() {
    let d = dir("root", vec![file("a", 5), unreadable("locked")]);
    let r = dir_size(".", &d).unwrap();
    assert_eq!(r, DirInfo::new(1, 1, 5));
}

#[test]
fn measure_unknown_metadata_contributes_zero() {
    let d = dir("root", vec![FsEntry::UnknownEntry { name: "ghost".to_string() }, file("a", 5)]);
    let r = dir_size(".", &d).unwrap();
    assert_eq!(r, DirInfo::new(1, 1, 5));
}

#[test]
fn measure_partial_listing_is_an_error() {
    let d = partial_dir("root", vec![file("a", 5)]);
    let e = dir_size("./root", &d).unwrap_err();
    assert!(matches!(e, WalkError::Enumeration { .. }));
}

#[test]
fn measure_nested_partial_listing_is_an_error() {
    let d = dir("root", vec![file("a", 5), dir("sub", vec![partial_dir("deep", vec![])])]);
    let e = dir_size("./root", &d).unwrap_err();
    assert_eq!(e, WalkError::Enumeration { path: "./root/sub/deep".to_string() });
}

#[test]
fn locate_finds_each_match_once() {
    // Root holds ./a/node_modules (two files), ./b/node_modules (empty)
    // and ./c (no match): exactly the two caches are located.
    let root = dir(
        "",
        vec![
            dir("a", vec![dir("node_modules", vec![file("file1", 10), file("file2", 20)])]),
            dir("b", vec![dir("node_modules", vec![])]),
            dir("c", vec![]),
        ],
    );
    let r = get_paths_to_delete(".", &root, &FolderNameEnum::NodeModules);
    let paths: Vec<String> = r.into_iter().map(|x| x.unwrap()).collect();
    assert_eq!(paths, vec!["./a/node_modules".to_string(), "./b/node_modules".to_string()]);
}

#[test]
fn locate_does_not_descend_into_matches() {
    // A cache nested inside another cache is not reported separately.
    let root = dir(
        "",
        vec![dir(
            "a",
            vec![dir("node_modules", vec![dir("inner", vec![dir("node_modules", vec![])])])],
        )],
    );
    let r = get_paths_to_delete(".", &root, &FolderNameEnum::NodeModules);
    let paths: Vec<String> = r.into_iter().map(|x| x.unwrap()).collect();
    assert_eq!(paths, vec!["./a/node_modules".to_string()]);
}

#[test]
fn locate_alias_kinds_behave_alike() {
    let root = dir("", vec![dir("a", vec![dir("node_modules", vec![])])]);
    let r = get_paths_to_delete(".", &root, &FolderNameEnum::Node);
    let paths: Vec<String> = r.into_iter().map(|x| x.unwrap()).collect();
    assert_eq!(paths, vec!["./a/node_modules".to_string()]);
}

#[test]
fn locate_build_cache_without_marker_is_skipped() {
    // A directory named like the build cache but lacking the marker file
    // is not a match, and the locator does not enter it either.
    let root = dir("", vec![dir("proj", vec![dir("target", vec![file("something.o", 9)])])]);
    let r = get_paths_to_delete(".", &root, &FolderNameEnum::Target);
    assert!(r.is_empty());
}

#[test]
fn locate_build_cache_with_marker_is_found() {
    let root = dir(
        "",
        vec![dir(
            "proj",
            vec![dir("target", vec![file(".rustc_info.json", 2), file("something.o", 9)])],
        )],
    );
    let r = get_paths_to_delete(".", &root, &FolderNameEnum::Rust);
    let paths: Vec<String> = r.into_iter().map(|x| x.unwrap()).collect();
    assert_eq!(paths, vec!["./proj/target".to_string()]);
}

#[test]
fn locate_unreadable_branch_is_one_error_among_results() {
    let root = dir(
        "",
        vec![
            unreadable("locked"),
            dir("a", vec![dir("node_modules", vec![])]),
        ],
    );
    let r = get_paths_to_delete(".", &root, &FolderNameEnum::NodeModules);
    assert_eq!(r.len(), 2);
    assert_eq!(
        r[0],
        Err(WalkError::Access { path: "./locked".to_string() })
    );
    assert_eq!(r[1], Ok("./a/node_modules".to_string()));
}

#[test]
fn locate_unreadable_dependency_cache_still_matches() {
    // The dependency-cache kind needs no look inside, so an unreadable
    // directory with the right name is still a match; the build-cache
    // kind cannot confirm its marker there and skips it.
    let root = dir("", vec![unreadable("node_modules"), unreadable("target")]);
    let r = get_paths_to_delete(".", &root, &FolderNameEnum::NodeModules);
    assert_eq!(
        r,
        vec![
            Ok("./node_modules".to_string()),
            Err(WalkError::Access { path: "./target".to_string() }),
        ]
    );
    let r = get_paths_to_delete(".", &root, &FolderNameEnum::Target);
    assert_eq!(r, vec![Err(WalkError::Access { path: "./node_modules".to_string() })]);
}

#[test]
fn locate_partial_listing_keeps_earlier_results() {
    let root = FsEntry::Dir {
        name: String::new(),
        entries: vec![dir("a", vec![dir("node_modules", vec![])])],
        complete: false,
    };
    let r = get_paths_to_delete(".", &root, &FolderNameEnum::NodeModules);
    assert_eq!(r.len(), 2);
    assert_eq!(r[0], Ok("./a/node_modules".to_string()));
    assert_eq!(r[1], Err(WalkError::Enumeration { path: ".".to_string() }));
}

#[test]
fn locate_nested_partial_listing_error_follows_its_entries() {
    let root = dir(
        "",
        vec![FsEntry::Dir {
            name: "a".to_string(),
            entries: vec![dir("node_modules", vec![])],
            complete: false,
        }],
    );
    let r = get_paths_to_delete(".", &root, &FolderNameEnum::NodeModules);
    assert_eq!(r.len(), 2);
    assert_eq!(r[0], Ok("./a/node_modules".to_string()));
    assert_eq!(r[1], Err(WalkError::Enumeration { path: "./a".to_string() }));
}

#[test]
fn locate_match_with_partial_listing_is_still_a_match() {
    // The walk stops at a name match, so it never notices that the
    // matched directory's own listing was cut short.
    let root = dir(
        "",
        vec![FsEntry::Dir {
            name: "node_modules".to_string(),
            entries: vec![],
            complete: false,
        }],
    );
    let r = get_paths_to_delete(".", &root, &FolderNameEnum::NodeModules);
    assert_eq!(r, vec![Ok("./node_modules".to_string())]);
}

#[test]
fn locate_unreadable_root_is_one_error() {
    let r = get_paths_to_delete("/root/gone", &unreadable("gone"), &FolderNameEnum::NodeModules);
    assert_eq!(r, vec![Err(WalkError::Access { path: "/root/gone".to_string() })]);
}

#[test]
fn valid_target_checks_marker_only_for_build_cache() {
    let bare = dir("target", vec![file("other", 1)]);
    let marked = dir("target", vec![file(".rustc_info.json", 1)]);
    assert!(!is_valid_target(&bare, &FolderNameEnum::Target));
    assert!(is_valid_target(&marked, &FolderNameEnum::Target));
    assert!(is_valid_target(&bare, &FolderNameEnum::NodeModules));
    assert!(!is_valid_target(&unreadable("target"), &FolderNameEnum::Rust));
}
