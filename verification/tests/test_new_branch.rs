use vcs::commands;
use vcs::errors::VcsError;
use vcs::file_manager::{read_file, write_file, WorkTree};
use vcs::identity::get_human_id;
use vcs::public_info::FileStatus;
use vcs::repository::Repository;
use vcs::vcs_manager::{create_branch, get_changes};

const ROOT: &str = "/tmp/r";

fn init_repo(work: &mut WorkTree) -> Repository {
    commands::init::run(work).expect("It seems that init cmd doesn't work").0
}

#[test]
fn test_successful_branching() {
    let mut work = WorkTree::new(String::from(ROOT));
    let mut repo = init_repo(&mut work);
    assert!(commands::new_branch::run(&mut repo, "new_feature").is_ok());

    let report = commands::status::run(&repo, &work).unwrap();
    assert!(report.contains("On branch new_feature"));
}

#[test]
fn test_from_side_branch() {
    let mut work = WorkTree::new(String::from(ROOT));
    let mut repo = init_repo(&mut work);
    assert!(commands::new_branch::run(&mut repo, "new_feature").is_ok());

    let error = commands::new_branch::run(&mut repo, "one_more_feature").unwrap_err();
    assert!(error.message().contains("possible only when you are in the master branch"));
    assert_eq!(error, VcsError::BranchOffNonMaster);
}

#[test]
fn branch_already_exists() {
    let mut work = WorkTree::new(String::from(ROOT));
    let mut repo = init_repo(&mut work);
    assert!(commands::new_branch::run(&mut repo, "new_feature").is_ok());

    commands::jump::to_branch(&mut repo, &mut work, "master")
        .expect("It seems that jump cmd doesn't work");

    let error = commands::new_branch::run(&mut repo, "new_feature").unwrap_err();
    assert!(error.message().contains("already exists"));
    assert_eq!(error.message(), "Branch new_feature already exists.\nAborting...");
}

#[test]
fn new_branch_keeps_the_modifications_of_the_working_tree() {
    let mut work = WorkTree::new(String::from(ROOT));
    let mut repo = init_repo(&mut work);
    write_file(&mut work, "/tmp/r/draft", &b"wip".to_vec()).unwrap();
    let before = get_changes(&repo, &work).unwrap();
    assert_eq!(before, [(FileStatus::Added, String::from("draft"))]);

    let info = create_branch(&mut repo, "feature").unwrap();
    assert_eq!(info.branch, "feature");
    assert_eq!(info.commit, Some(get_human_id(repo.heads.get_id("master"))));
    assert_eq!(repo.heads.get_id("feature"), repo.heads.get_id("master"));
    assert_eq!(get_changes(&repo, &work).unwrap(), before);
    assert_eq!(read_file(&work, "/tmp/r/draft").unwrap(), b"wip");
}

#[test]
fn new_branch_report_names_the_commit() {
    let mut work = WorkTree::new(String::from(ROOT));
    let mut repo = init_repo(&mut work);
    let id = get_human_id(&repo.state.current_commit.unwrap());
    assert_eq!(
        commands::new_branch::run(&mut repo, "with space").unwrap(),
        format!("Created a new branch with space from master's commit {}\n", id)
    );
}

#[test]
fn new_branch_without_a_commit_has_no_head() {
    let mut work = WorkTree::new(String::from(ROOT));
    let mut repo = vcs::vcs_manager::init_vcs_directory(&mut work).unwrap();
    assert_eq!(
        commands::new_branch::run(&mut repo, "early").unwrap(),
        "Created a new branch early\n"
    );
    assert!(!repo.heads.contains("early"));
    assert_eq!(repo.state.current_branch, "early");
}
