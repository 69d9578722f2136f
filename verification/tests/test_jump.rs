use vcs::commands;
use vcs::errors::VcsError;
use vcs::file_manager::{read_file, write_file, WorkTree};
use vcs::identity::get_human_id;
use vcs::public_info::FileStatus;
use vcs::repository::Repository;
use vcs::vcs_manager::{jump_to_branch, jump_to_commit};

const ROOT: &str = "/tmp/r";

fn init_repo(work: &mut WorkTree) -> (Repository, String) {
    let (repo, _) = commands::init::run(work).expect("It seems that init cmd doesn't work");
    let id = get_human_id(&repo.state.current_commit.unwrap());
    (repo, id)
}

fn touch(work: &mut WorkTree, name: &str) {
    write_file(work, &format!("{}/{}", ROOT, name), &Vec::new()).unwrap();
}

#[test]
fn test_jump_to_commit() {
    let mut work = WorkTree::new(String::from(ROOT));
    let (mut repo, initial_commit_id) = init_repo(&mut work);
    touch(&mut work, "new_file");
    commands::commit::run(&mut repo, &work, "add new_file").unwrap();

    assert!(commands::jump::to_commit(&mut repo, &mut work, &initial_commit_id).is_ok());
    assert!(read_file(&work, "/tmp/r/new_file").is_err());
}

#[test]
fn test_jump_to_branch() {
    let mut work = WorkTree::new(String::from(ROOT));
    let (mut repo, _) = init_repo(&mut work);
    commands::new_branch::run(&mut repo, "new_branch").unwrap();

    let report = commands::status::run(&repo, &work).unwrap();
    assert!(report.contains("On branch new_branch"));

    assert!(commands::jump::to_branch(&mut repo, &mut work, "master").is_ok());

    let report = commands::status::run(&repo, &work).unwrap();
    assert!(report.contains("On branch master"));
}

#[test]
fn test_jump_test_no_branch() {
    let mut work = WorkTree::new(String::from(ROOT));
    let (mut repo, _) = init_repo(&mut work);
    let error =
        commands::jump::to_branch(&mut repo, &mut work, "not_existing_branch").unwrap_err();
    assert!(error.message().contains("No branch"));
    assert_eq!(error, VcsError::NoBranch(String::from("not_existing_branch")));
}

#[test]
fn test_no_commit() {
    let mut work = WorkTree::new(String::from(ROOT));
    let (mut repo, _) = init_repo(&mut work);
    let error = commands::jump::to_commit(&mut repo, &mut work, "random_id").unwrap_err();
    assert!(error.message().contains("No commit"));
    assert_eq!(error, VcsError::NoCommit(String::from("random_id")));
}

#[test]
fn test_uncommitted_changes() {
    let mut work = WorkTree::new(String::from(ROOT));
    let (mut repo, initial_commit_id) = init_repo(&mut work);
    touch(&mut work, "new_file");

    let error = commands::jump::to_commit(&mut repo, &mut work, &initial_commit_id).unwrap_err();
    assert!(error
        .message()
        .contains("local changes to the following files should be commited or dropped"));
}

#[test]
fn uncommitted_changes_are_listed_with_relative_paths() {
    let mut work = WorkTree::new(String::from(ROOT));
    let (mut repo, initial_commit_id) = init_repo(&mut work);
    touch(&mut work, "new_file");
    commands::commit::run(&mut repo, &work, "add new_file").unwrap();
    write_file(&mut work, "/tmp/r/new_file", &b"x".to_vec()).unwrap();
    let before = get_human_id(&repo.state.current_commit.unwrap());

    let error = jump_to_commit(&mut repo, &mut work, &initial_commit_id).unwrap_err();
    assert_eq!(
        error,
        VcsError::UncomittedChanges {
            changes: vec![(FileStatus::Modified, String::from("new_file"))]
        }
    );
    assert_eq!(
        error.message(),
        "Your local changes to the following files should be commited or dropped:\n  modified: new_file\nPlease commit your changes or drop them before you jump.\nAborting..."
    );
    assert_eq!(get_human_id(&repo.state.current_commit.unwrap()), before);
    assert_eq!(read_file(&work, "/tmp/r/new_file").unwrap(), b"x");
}

#[test]
fn jump_to_an_id_that_is_no_commit_fails() {
    let mut work = WorkTree::new(String::from(ROOT));
    let (mut repo, _) = init_repo(&mut work);
    let unknown = "0123456789abcdef0123456789abcdef01234567";
    assert_eq!(
        jump_to_commit(&mut repo, &mut work, unknown).unwrap_err(),
        VcsError::NoCommit(String::from(unknown))
    );
    let commit =
        vcs::repository::load_commit(&repo.objects, &repo.state.current_commit.unwrap()).unwrap();
    let tree_id = get_human_id(&commit.tree);
    let error = jump_to_commit(&mut repo, &mut work, &tree_id).unwrap_err();
    assert_eq!(error, VcsError::NoCommit(tree_id.clone()));
    assert_eq!(
        error.message(),
        format!("No commit with hash {} exists.\nAborting...", tree_id)
    );
}

#[test]
fn a_bad_id_is_told_before_uncommitted_changes() {
    let mut work = WorkTree::new(String::from(ROOT));
    let (mut repo, _) = init_repo(&mut work);
    touch(&mut work, "new_file");
    assert_eq!(
        jump_to_commit(&mut repo, &mut work, "zz").unwrap_err(),
        VcsError::NoCommit(String::from("zz"))
    );
}

#[test]
fn jump_restores_contents_and_reports_the_state() {
    let mut work = WorkTree::new(String::from(ROOT));
    let (mut repo, _) = init_repo(&mut work);
    write_file(&mut work, "/tmp/r/a", &b"one".to_vec()).unwrap();
    commands::commit::run(&mut repo, &work, "one").unwrap();
    let first = get_human_id(&repo.state.current_commit.unwrap());
    write_file(&mut work, "/tmp/r/a", &b"two".to_vec()).unwrap();
    touch(&mut work, "b");
    commands::commit::run(&mut repo, &work, "two").unwrap();

    let info = jump_to_commit(&mut repo, &mut work, &first).unwrap();
    assert_eq!(info.commit, Some(first.clone()));
    assert_eq!(info.branch, "master");
    assert_eq!(read_file(&work, "/tmp/r/a").unwrap(), b"one");
    assert!(read_file(&work, "/tmp/r/b").is_err());
    assert!(repo.index.contains("/tmp/r/a"));
    assert!(!repo.index.contains("/tmp/r/b"));
    assert_eq!(
        commands::jump::to_commit(&mut repo, &mut work, &first).unwrap(),
        format!("Successfully jumped to commit {}. Current branch: master\n", first)
    );

    let info = jump_to_branch(&mut repo, &mut work, "master").unwrap();
    assert_eq!(info.branch, "master");
    assert_eq!(read_file(&work, "/tmp/r/a").unwrap(), b"two");
    assert_eq!(read_file(&work, "/tmp/r/b").unwrap(), b"");
    let head = get_human_id(repo.heads.get_id("master"));
    assert_eq!(
        commands::jump::to_branch(&mut repo, &mut work, "master").unwrap(),
        format!("Successfully jumped to branch master. Current commit: {}.\n", head)
    );
}

#[test]
fn the_control_directory_is_never_touched() {
    let mut work = WorkTree::new(String::from(ROOT));
    let (mut repo, first) = init_repo(&mut work);
    touch(&mut work, "new_file");
    commands::commit::run(&mut repo, &work, "add new_file").unwrap();
    jump_to_commit(&mut repo, &mut work, &first).unwrap();
    assert_eq!(work.entries().len(), 1);
    assert_eq!(work.entries()[0].name(), ".vcs");
}
