use std::collections::HashSet;
use vcs::errors::VcsError;
use vcs::file_manager::{
    get_all_files, get_entries, is_empty_dir, is_vcs_directory, read_file, write_file, WorkEntry,
    WorkTree,
};
use vcs::public_info::{get_relative, into_pathspec, FileStatus};
use vcs::text::{is_path_under, join_path, split_path, text_lt};

fn dir(name: &str, children: Vec<WorkEntry>) -> WorkEntry {
    WorkEntry::Dir { name: String::from(name), children }
}

fn file(name: &str) -> WorkEntry {
    WorkEntry::File { name: String::from(name), data: Vec::new() }
}

fn assert_paths_eq(result: &[String], expected: &[&str]) {
    let res_set: HashSet<&str> = HashSet::from_iter(result.iter().map(|p| p.as_str()));
    let exp_set: HashSet<&str> = HashSet::from_iter(expected.iter().copied());
    assert_eq!(res_set, exp_set);
}

#[test]
fn test_relative_path() {
    let parent = "/home/username/path/to/repo";
    let child = "/home/username/path/to/repo/path/to/file";
    assert_eq!(get_relative(parent, child), String::from("path/to/file"));
}

#[test]
fn test_get_entries() {
    let entries = vec![
        dir(".vcs", vec![]),
        file("file"),
        dir("subdir", vec![file("file"), file(".vcs")]),
    ];

    let found = get_entries("/tmp/t", &entries, true);
    assert_paths_eq(
        &found,
        &["/tmp/t/file", "/tmp/t/subdir", "/tmp/t/subdir/.vcs", "/tmp/t/subdir/file"],
    );

    let found = get_entries("/tmp/t", &entries, false);
    assert_paths_eq(&found, &["/tmp/t/file", "/tmp/t/subdir"]);
}

#[test]
fn test_get_files() {
    let entries = vec![
        file(".vcs"),
        file("file"),
        dir("subdir", vec![file("file"), dir(".vcs", vec![file("hidden")])]),
    ];

    let found = get_all_files("/tmp/t", &entries, true);
    assert_paths_eq(&found, &["/tmp/t/.vcs", "/tmp/t/file", "/tmp/t/subdir/file"]);

    let found = get_all_files("/tmp/t", &entries, false);
    assert_paths_eq(&found, &["/tmp/t/.vcs", "/tmp/t/file"]);
}

#[test]
fn the_walk_keeps_the_order_of_the_directory() {
    let entries = vec![file("b"), dir("d", vec![file("z"), file("a")]), file("a")];
    assert_eq!(
        get_entries("/r", &entries, true),
        ["/r/b", "/r/d", "/r/d/z", "/r/d/a", "/r/a"]
    );
    assert_eq!(get_all_files("/r", &entries, true), ["/r/b", "/r/d/z", "/r/d/a", "/r/a"]);
}

#[test]
fn control_directories_and_empty_directories_are_told_apart() {
    assert!(is_vcs_directory(&dir(".vcs", vec![file("x")])));
    assert!(!is_vcs_directory(&file(".vcs")));
    assert!(!is_vcs_directory(&dir("vcs", vec![])));
    assert_eq!(is_empty_dir(&dir("d", vec![])), Ok(true));
    assert_eq!(is_empty_dir(&dir("d", vec![file("x")])), Ok(false));
    assert_eq!(is_empty_dir(&file("d")), Err(VcsError::Io));
}

#[test]
fn writing_makes_the_directories_above_a_file() {
    let mut work = WorkTree::new(String::from("/r"));
    write_file(&mut work, "/r/a/b/c", &vec![1, 2]).unwrap();
    assert_eq!(work.entries(), &vec![WorkEntry::Dir {
        name: String::from("a"),
        children: vec![WorkEntry::Dir {
            name: String::from("b"),
            children: vec![WorkEntry::File { name: String::from("c"), data: vec![1, 2] }],
        }],
    }]);
    write_file(&mut work, "/r/a/b/c", &vec![3]).unwrap();
    write_file(&mut work, "/r/a/d", &vec![4]).unwrap();
    assert_eq!(read_file(&work, "/r/a/b/c"), Ok(vec![3]));
    assert_eq!(read_file(&work, "/r/a/d"), Ok(vec![4]));
    assert_eq!(read_file(&work, "/r/a//b/c"), Ok(vec![3]));
}

#[test]
fn writing_fails_without_a_change_where_the_path_cannot_hold_a_file() {
    let mut work = WorkTree::new(String::from("/r"));
    write_file(&mut work, "/r/a/b", &vec![1]).unwrap();
    let before = vcs::objects_manager::copy_entries(work.entries());
    assert_eq!(write_file(&mut work, "/r/a", &vec![2]), Err(VcsError::Io));
    assert_eq!(write_file(&mut work, "/r/a/b/c", &vec![2]), Err(VcsError::Io));
    assert_eq!(write_file(&mut work, "/elsewhere/x", &vec![2]), Err(VcsError::Io));
    assert_eq!(write_file(&mut work, "/r", &vec![2]), Err(VcsError::Io));
    assert_eq!(write_file(&mut work, "/rx", &vec![2]), Err(VcsError::Io));
    assert_eq!(work.entries(), &before);
    assert_eq!(read_file(&work, "/r/a"), Err(VcsError::Io));
    assert_eq!(read_file(&work, "/r/missing"), Err(VcsError::Io));
}

#[test]
fn a_working_tree_needs_an_absolute_root() {
    assert!(WorkTree::from_entries(String::from("relative"), Vec::new()).is_none());
    assert!(WorkTree::from_entries(String::from(""), Vec::new()).is_none());
    let work = WorkTree::from_entries(String::from("/r"), vec![file("a")]).unwrap();
    assert_eq!(work.root(), "/r");
    assert_eq!(work.entries().len(), 1);
}

#[test]
fn paths_are_joined_split_and_made_relative() {
    assert_eq!(join_path("/a", "b"), "/a/b");
    assert_eq!(split_path("a/b/c"), ["a", "b", "c"]);
    assert_eq!(split_path("/a//b/"), ["a", "b"]);
    assert!(split_path("").is_empty());
    assert!(is_path_under("/a", "/a/b"));
    assert!(is_path_under("/a", "/a"));
    assert!(!is_path_under("/a", "/ab"));
    assert!(!is_path_under("/a/b", "/a"));
    assert_eq!(get_relative("/a", "/a"), "");
    assert_eq!(
        into_pathspec(
            "/repo",
            vec![
                (FileStatus::Added, String::from("/repo/x")),
                (FileStatus::Modified, String::from("/repo/d/y")),
            ]
        ),
        [(FileStatus::Added, String::from("x")), (FileStatus::Modified, String::from("d/y"))]
    );
}

#[test]
fn keys_are_ordered_by_their_bytes() {
    assert!(text_lt("a", "b"));
    assert!(text_lt("a", "ab"));
    assert!(!text_lt("ab", "a"));
    assert!(!text_lt("a", "a"));
    assert!(text_lt("a.b", "a/b"));
    assert!(text_lt("z", "\u{e9}"));
    assert!(text_lt("", "a"));
}
