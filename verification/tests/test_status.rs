use vcs::commands;
use vcs::file_manager::{write_file, WorkEntry, WorkTree};
use vcs::repository::Repository;

const ROOT: &str = "/tmp/r";

fn init_repo(work: &mut WorkTree) -> Repository {
    commands::init::run(work).expect("It seems that init cmd doesn't work").0
}

#[test]
fn test_show_branch() {
    let mut work = WorkTree::new(String::from(ROOT));
    let repo = init_repo(&mut work);
    assert!(commands::status::run(&repo, &work).unwrap().contains("On branch master"));
}

#[test]
fn test_no_changes() {
    let mut work = WorkTree::new(String::from(ROOT));
    let repo = init_repo(&mut work);
    assert!(commands::status::run(&repo, &work).unwrap().contains("No changes"));
}

#[test]
fn test_status_test_changes() {
    let mut work = WorkTree::new(String::from(ROOT));
    write_file(&mut work, "/tmp/r/file1", &Vec::new()).unwrap();
    let repo = init_repo(&mut work);

    write_file(&mut work, "/tmp/r/file1", &b"hello world".to_vec()).unwrap();
    work.add_entry(WorkEntry::Dir { name: String::from("empty_dir"), children: Vec::new() });

    let report = commands::status::run(&repo, &work).unwrap();
    assert!(report.contains("Changes to be committed"));
    assert!(report.contains("modified: file1"));
    assert!(!report.contains("empty_dir"));
}

#[test]
fn status_report_is_exact() {
    let mut work = WorkTree::new(String::from(ROOT));
    let repo = init_repo(&mut work);
    assert_eq!(
        commands::status::run(&repo, &work).unwrap(),
        "On branch master\nNo changes to be committed\n"
    );
    write_file(&mut work, "/tmp/r/sub/new", &Vec::new()).unwrap();
    assert_eq!(
        commands::status::run(&repo, &work).unwrap(),
        "On branch master\nChanges to be committed:\n  added: sub/new\n"
    );
}

#[test]
fn files_of_a_control_directory_are_no_changes() {
    let mut work = WorkTree::new(String::from(ROOT));
    let repo = init_repo(&mut work);
    work.add_entry(WorkEntry::Dir {
        name: String::from("sub"),
        children: vec![WorkEntry::Dir {
            name: String::from(".vcs"),
            children: vec![WorkEntry::File { name: String::from("index"), data: vec![1] }],
        }],
    });
    assert_eq!(
        commands::status::run(&repo, &work).unwrap(),
        "On branch master\nNo changes to be committed\n"
    );
}
