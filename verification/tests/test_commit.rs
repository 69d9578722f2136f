use vcs::commands;
use vcs::errors::VcsError;
use vcs::file_manager::{write_file, WorkEntry, WorkTree};
use vcs::identity::get_human_id;
use vcs::objects::Timestamp;
use vcs::repository::Repository;
use vcs::vcs_manager::{make_commit, make_commit_at};

const ROOT: &str = "/tmp/r";

fn create_test_repo(files: &[&str], dirs: &[&str]) -> WorkTree {
    let mut work = WorkTree::new(String::from(ROOT));
    for file in files {
        write_file(&mut work, &format!("{}/{}", ROOT, file), &Vec::new()).unwrap();
    }
    for dir in dirs {
        work.add_entry(WorkEntry::Dir { name: dir.to_string(), children: Vec::new() });
    }
    work
}

fn init_repo(work: &mut WorkTree) -> Repository {
    commands::init::run(work).expect("It seems that init cmd doesn't work").0
}

fn is_commit_id(text: &str) -> bool {
    text.len() == 40 && text.chars().all(|c| c.is_ascii_digit() || ('a'..='f').contains(&c))
}

#[test]
fn test_empty_commit() {
    let mut work = create_test_repo(&[], &[]);
    let mut repo = init_repo(&mut work);
    let error = commands::commit::run(&mut repo, &work, "empty commit").unwrap_err();
    assert!(error.message().contains("No changes to be committed"));
    work.add_entry(WorkEntry::Dir { name: String::from("empty_dir"), children: Vec::new() });
    let error = commands::commit::run(&mut repo, &work, "empty commit").unwrap_err();
    assert!(error.message().contains("No changes to be committed"));
    assert_eq!(error, VcsError::NoChanges);
}

#[test]
fn test_successful_commit() {
    let mut work = create_test_repo(&[], &[]);
    let mut repo = init_repo(&mut work);

    write_file(&mut work, "/tmp/r/file1", &b"hello world".to_vec()).unwrap();
    let report = commands::commit::run(&mut repo, &work, "add file1").unwrap();
    let rest = report.strip_prefix("[master ").unwrap();
    assert!(is_commit_id(&rest[..40]));
    assert_eq!(&rest[40..], "] add file1\n  added: file1\n");
}

#[test]
fn empty_initial_commit_succeeds_and_the_next_has_no_changes() {
    let mut work = create_test_repo(&[], &[]);
    let mut repo = vcs::vcs_manager::init_vcs_directory(&mut work).unwrap();
    let first = make_commit(&mut repo, &work, "Initial commit").unwrap();
    assert!(first.changes.is_empty());
    assert_eq!(first.branch, "master");
    assert_eq!(make_commit(&mut repo, &work, "again").unwrap_err(), VcsError::NoChanges);
}

#[test]
fn commit_moves_head_and_the_branch_head() {
    let mut work = create_test_repo(&["a"], &[]);
    let mut repo = init_repo(&mut work);
    let first = repo.state.current_commit.unwrap();
    write_file(&mut work, "/tmp/r/a", &b"1".to_vec()).unwrap();
    let info =
        make_commit_at(&mut repo, &work, "change a", Timestamp { secs: 5, nanos: 7 }).unwrap();
    let second = repo.state.current_commit.unwrap();
    assert_ne!(first, second);
    assert_eq!(info.human_id, get_human_id(&second));
    assert_eq!(*repo.heads.get_id("master"), second);
    assert_eq!(info.changes, [(vcs::public_info::FileStatus::Modified, String::from("a"))]);
    let commit = vcs::repository::load_commit(&repo.objects, &second).unwrap();
    assert_eq!(commit.parent, Some(first));
    assert_eq!(commit.time, Timestamp { secs: 5, nanos: 7 });
    assert_eq!(commit.message, "change a");
    assert!(repo.objects.contains(&commit.tree));
}

#[test]
fn commit_is_the_same_at_the_same_time() {
    let mut work = create_test_repo(&["a", "d/b"], &[]);
    let mut first = vcs::vcs_manager::init_vcs_directory(&mut work).unwrap();
    let mut second = vcs::vcs_manager::init_vcs_directory(&mut create_test_repo(&[], &[])).unwrap();
    let time = Timestamp { secs: 1, nanos: 2 };
    let a = make_commit_at(&mut first, &work, "m", time).unwrap();
    let b = make_commit_at(&mut second, &work, "m", time).unwrap();
    assert_eq!(a.human_id, b.human_id);
    assert_eq!(first, second);
}

#[test]
fn commit_from_a_commit_that_is_not_the_head_fails() {
    let mut work = create_test_repo(&[], &[]);
    let mut repo = init_repo(&mut work);
    let first = get_human_id(&repo.state.current_commit.unwrap());
    write_file(&mut work, "/tmp/r/a", &b"1".to_vec()).unwrap();
    make_commit(&mut repo, &work, "a").unwrap();
    vcs::vcs_manager::jump_to_commit(&mut repo, &mut work, &first).unwrap();
    write_file(&mut work, "/tmp/r/b", &b"2".to_vec()).unwrap();
    let error = make_commit(&mut repo, &work, "b").unwrap_err();
    assert_eq!(error, VcsError::CommitFromNonHead);
    assert_eq!(
        error.message(),
        "You can create a new commit only from last one.\nAborting..."
    );
}

#[test]
fn empty_directories_are_in_no_tree() {
    let mut work = create_test_repo(&["d/f"], &["empty_dir"]);
    let repo = init_repo(&mut work);
    let commit =
        vcs::repository::load_commit(&repo.objects, &repo.state.current_commit.unwrap()).unwrap();
    let tree = vcs::repository::load_tree(&repo.objects, &commit.tree).unwrap();
    let paths: Vec<&str> = tree.iter().iter().map(|node| node.path.as_str()).collect();
    assert_eq!(paths, ["/tmp/r/d"]);
    assert!(tree.iter()[0].is_tree());
    let below = vcs::repository::load_tree(&repo.objects, &tree.iter()[0].id).unwrap();
    assert_eq!(below.len(), 1);
    assert_eq!(below.node(0).path, "/tmp/r/d/f");
    assert!(below.node(0).is_blob());
}
