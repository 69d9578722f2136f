use vcs::commands;
use vcs::errors::VcsError;
use vcs::file_manager::{read_file, write_file, WorkTree};
use vcs::identity::get_human_id;
use vcs::objects::Timestamp;
use vcs::public_info::FileStatus;
use vcs::repository::Repository;
use vcs::vcs_manager::{merge_branch, merge_branch_at};

const ROOT: &str = "/tmp/r";

fn init_repo(work: &mut WorkTree) -> Repository {
    commands::init::run(work).expect("It seems that init cmd doesn't work").0
}

fn make_commit(repo: &mut Repository, work: &WorkTree, message: &str) {
    commands::commit::run(repo, work, message).expect("It seems that commit cmd doesn't work");
}

fn create_branch(repo: &mut Repository, name: &str) {
    commands::new_branch::run(repo, name).expect("It seems that new_branch cmd doesn't work");
}

fn jump_to_branch(repo: &mut Repository, work: &mut WorkTree, name: &str) {
    commands::jump::to_branch(repo, work, name).expect("It seems that jump cmd doesn't work");
}

fn write(work: &mut WorkTree, name: &str, text: &str) {
    write_file(work, &format!("{}/{}", ROOT, name), &text.as_bytes().to_vec()).unwrap();
}

#[test]
fn test_merge_test_simple() {
    let mut work = WorkTree::new(String::from(ROOT));
    let mut repo = init_repo(&mut work);

    write(&mut work, "new_file", "");
    make_commit(&mut repo, &work, "add new_file");

    create_branch(&mut repo, "feature branch");

    write(&mut work, "new_file", "hello");
    make_commit(&mut repo, &work, "add hello to new_file");

    jump_to_branch(&mut repo, &mut work, "master");

    let report = commands::merge::run(&mut repo, &mut work, "feature branch").unwrap();
    assert!(report.contains("Successfully created merge commit"));

    assert_eq!(read_file(&work, "/tmp/r/new_file").unwrap(), b"hello");
}

#[test]
fn test_merge_conflict() {
    let mut work = WorkTree::new(String::from(ROOT));
    let mut repo = init_repo(&mut work);

    write(&mut work, "new_file", "");
    make_commit(&mut repo, &work, "add new_file");

    create_branch(&mut repo, "feature_branch");

    write(&mut work, "new_file", "hello");
    make_commit(&mut repo, &work, "add hello to new_file");

    jump_to_branch(&mut repo, &mut work, "master");

    write(&mut work, "new_file", "goodbye");
    make_commit(&mut repo, &work, "add goodbye to new_file");

    let error = commands::merge::run(&mut repo, &mut work, "feature_branch").unwrap_err();
    assert!(error.message().contains("Merge conflict"));

    assert_eq!(read_file(&work, "/tmp/r/new_file").unwrap(), b"goodbye");
}

#[test]
fn test_merge_from_side_branch() {
    let mut work = WorkTree::new(String::from(ROOT));
    let mut repo = init_repo(&mut work);

    write(&mut work, "new_file", "");
    make_commit(&mut repo, &work, "add new_file");

    create_branch(&mut repo, "feature_branch");
    jump_to_branch(&mut repo, &mut work, "master");

    write(&mut work, "new_file", "hello");
    make_commit(&mut repo, &work, "add hello to new_file");
    jump_to_branch(&mut repo, &mut work, "feature_branch");

    let error = commands::merge::run(&mut repo, &mut work, "master").unwrap_err();
    assert!(error
        .message()
        .contains("merge is possible only when you are in the last commit in master"));
}

#[test]
fn test_merge_test_no_branch() {
    let mut work = WorkTree::new(String::from(ROOT));
    let mut repo = init_repo(&mut work);
    let error = commands::merge::run(&mut repo, &mut work, "non_existing_branch").unwrap_err();
    assert!(error.message().contains("No branch"));
    assert_eq!(error.message(), "No branch <branch_name> exists.\nAborting...");
}

#[test]
fn merge_conflict_lists_what_both_changed() {
    let mut work = WorkTree::new(String::from(ROOT));
    let mut repo = init_repo(&mut work);
    write(&mut work, "new_file", "");
    write(&mut work, "other", "");
    make_commit(&mut repo, &work, "add files");
    create_branch(&mut repo, "feature");
    write(&mut work, "new_file", "hello");
    write(&mut work, "other", "branch");
    make_commit(&mut repo, &work, "branch side");
    jump_to_branch(&mut repo, &mut work, "master");
    write(&mut work, "new_file", "goodbye");
    make_commit(&mut repo, &work, "master side");
    let head = repo.state.current_commit;

    let error = merge_branch(&mut repo, &mut work, "feature").unwrap_err();
    assert_eq!(
        error,
        VcsError::MergeConflict {
            both_changed: vec![(FileStatus::Modified, String::from("/tmp/r/new_file"))]
        }
    );
    assert_eq!(
        error.message(),
        "Merge conflict: file(s) has been changed both in master and branch\n  modified: /tmp/r/new_file\nAborting..."
    );
    assert_eq!(repo.state.current_commit, head);
}

#[test]
fn merge_makes_a_commit_on_master_with_the_branch_changes() {
    let mut work = WorkTree::new(String::from(ROOT));
    let mut repo = init_repo(&mut work);
    write(&mut work, "new_file", "");
    make_commit(&mut repo, &work, "add new_file");
    create_branch(&mut repo, "feature");
    write(&mut work, "new_file", "hello");
    write(&mut work, "added", "x");
    make_commit(&mut repo, &work, "branch side");
    let branch_head = *repo.heads.get_id("feature");
    jump_to_branch(&mut repo, &mut work, "master");
    let master_head = *repo.heads.get_id("master");
    assert!(read_file(&work, "/tmp/r/added").is_err());

    let info =
        merge_branch_at(&mut repo, &mut work, "feature", Timestamp { secs: 9, nanos: 1 }).unwrap();
    assert_eq!(info.branch, "master");
    assert_eq!(info.message, "Merged branch feature");
    assert_eq!(
        info.changes,
        [(FileStatus::Modified, String::from("new_file")), (FileStatus::Added, String::from("added"))]
    );
    let merged = repo.state.current_commit.unwrap();
    assert_eq!(info.human_id, get_human_id(&merged));
    assert_eq!(*repo.heads.get_id("master"), merged);
    assert_eq!(*repo.heads.get_id("feature"), branch_head);
    let commit = vcs::repository::load_commit(&repo.objects, &merged).unwrap();
    assert_eq!(commit.parent, Some(master_head));
    assert_eq!(commit.branch, "master");
    assert_eq!(commit.time, Timestamp { secs: 9, nanos: 1 });
    assert_eq!(read_file(&work, "/tmp/r/new_file").unwrap(), b"hello");
    assert_eq!(read_file(&work, "/tmp/r/added").unwrap(), b"x");
    assert_eq!(repo.state.current_branch, "master");
    assert!(vcs::vcs_manager::get_changes(&repo, &work).unwrap().is_empty());
}

#[test]
fn merge_needs_a_clean_working_tree() {
    let mut work = WorkTree::new(String::from(ROOT));
    let mut repo = init_repo(&mut work);
    create_branch(&mut repo, "feature");
    jump_to_branch(&mut repo, &mut work, "master");
    write(&mut work, "dirty", "");
    assert_eq!(
        merge_branch(&mut repo, &mut work, "feature").unwrap_err(),
        VcsError::UncomittedChanges { changes: vec![(FileStatus::Added, String::from("dirty"))] }
    );
}

#[test]
fn merge_report_is_exact() {
    let mut work = WorkTree::new(String::from(ROOT));
    let mut repo = init_repo(&mut work);
    create_branch(&mut repo, "feature");
    write(&mut work, "f", "1");
    make_commit(&mut repo, &work, "f");
    jump_to_branch(&mut repo, &mut work, "master");
    let report = commands::merge::run(&mut repo, &mut work, "feature").unwrap();
    let id = get_human_id(&repo.state.current_commit.unwrap());
    assert_eq!(
        report,
        format!(
            "Successfully created merge commit:\n[master {}] Merged branch feature\n  added: f\n",
            id
        )
    );
}

#[test]
fn merge_away_from_the_head_of_master_fails() {
    let mut work = WorkTree::new(String::from(ROOT));
    let mut repo = init_repo(&mut work);
    let first = get_human_id(&repo.state.current_commit.unwrap());
    create_branch(&mut repo, "feature");
    jump_to_branch(&mut repo, &mut work, "master");
    write(&mut work, "f", "1");
    make_commit(&mut repo, &work, "f");
    vcs::vcs_manager::jump_to_commit(&mut repo, &mut work, &first).unwrap();
    assert_eq!(repo.state.current_branch, "master");
    assert_eq!(
        merge_branch(&mut repo, &mut work, "feature").unwrap_err(),
        VcsError::MergeFromNotMasterHead
    );
    jump_to_branch(&mut repo, &mut work, "feature");
    assert_eq!(
        merge_branch(&mut repo, &mut work, "master").unwrap_err(),
        VcsError::MergeFromNotMasterHead
    );
}

#[test]
fn merge_needs_a_head_of_master() {
    let mut work = WorkTree::new(String::from(ROOT));
    let mut repo = vcs::vcs_manager::init_vcs_directory(&mut work).unwrap();
    repo.heads.update(String::from("feature"), [1; 20]);
    assert_eq!(
        merge_branch(&mut repo, &mut work, "feature").unwrap_err(),
        VcsError::NoBranch(String::from("master"))
    );
}
