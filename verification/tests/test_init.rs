use vcs::commands;
use vcs::errors::VcsError;
use vcs::file_manager::{write_file, WorkEntry, WorkTree};
use vcs::objects::Index;
use vcs::public_info::FileStatus;
use vcs::repository::Repository;
use vcs::traits::VcsSerialize;
use vcs::vcs_manager::{find_repository, get_changes, init_vcs_directory};

const ROOT: &str = "/tmp/r";

fn create_test_repo(files: &[&str], dirs: &[&str]) -> WorkTree {
    let mut work = WorkTree::new(String::from(ROOT));
    for file in files {
        write_file(&mut work, &format!("{}/{}", ROOT, file), &Vec::new()).unwrap();
    }
    for dir in dirs {
        work.add_entry(WorkEntry::Dir { name: dir.to_string(), children: Vec::new() });
    }
    work
}

#[test]
fn test_init() {
    let mut work = create_test_repo(&[], &[]);
    assert!(init_vcs_directory(&mut work).is_ok());
}

#[test]
fn vcs_manager_test_double_init() {
    let mut work = create_test_repo(&[], &[]);
    assert!(init_vcs_directory(&mut work).is_ok());
    assert!(init_vcs_directory(&mut work).is_err());
}

#[test]
fn test_find_repo() {
    let probes = vec![
        (String::from("/tmp/r/subdir/subsubdir"), false),
        (String::from("/tmp/r/subdir"), false),
        (String::from("/tmp/r"), false),
        (String::from("/tmp"), false),
        (String::from("/"), false),
    ];
    let repo = find_repository(&probes);
    assert!(repo.is_err());
    assert_eq!(repo.unwrap_err().message(), "Not a vcs repository");

    let probes = vec![
        (String::from("/tmp/r/subdir/subsubdir"), false),
        (String::from("/tmp/r/subdir"), false),
        (String::from("/tmp/r"), true),
        (String::from("/tmp"), false),
        (String::from("/"), false),
    ];
    let repo = find_repository(&probes);
    assert!(repo.is_ok());
    assert_eq!(repo.unwrap(), "/tmp/r")
}

#[test]
fn vcs_manager_test_changes() {
    let index = Index::new();
    let content = index.get_content();
    let index = Index::read_from(&content).unwrap();

    let mut work = create_test_repo(&["file1", "subdir/file2"], &[]);
    let mut repo: Repository = init_vcs_directory(&mut work).unwrap();
    repo.index = index;

    let changes = get_changes(&repo, &work).unwrap();
    assert_eq!(
        changes,
        [
            (FileStatus::Added, String::from("file1")),
            (FileStatus::Added, String::from("subdir/file2"))
        ]
    )
}

#[test]
fn test_empty() {
    let mut work = create_test_repo(&[], &[]);
    let (_repo, report) = commands::init::run(&mut work).unwrap();
    assert!(report.contains(&format!("Initialized VCS repository in {}", ROOT)));
    assert!(report.contains("Created commit:"));
    assert!(report.contains("Initial commit"));
}

#[test]
fn test_changes_add() {
    let mut work = create_test_repo(&["file1", "subdir/file2"], &["empty_dir"]);
    let (_repo, report) = commands::init::run(&mut work).unwrap();
    assert!(report.contains("added: file1"));
    assert!(report.contains("added: subdir/file2"));
}

#[test]
fn test_init_test_double_init() {
    let mut work = create_test_repo(&[], &[]);
    assert!(commands::init::run(&mut work).is_ok());
    let error = commands::init::run(&mut work).unwrap_err();
    assert!(error.message().contains("Already a vcs repository"));
    assert_eq!(error, VcsError::AlreadyVcsRepository);
}

#[test]
fn init_fails_where_the_control_name_is_a_file() {
    let mut work = create_test_repo(&[".vcs"], &[]);
    let before = work.entries().len();
    assert_eq!(init_vcs_directory(&mut work).unwrap_err(), VcsError::Io);
    assert_eq!(work.entries().len(), before);
}

#[test]
fn init_report_is_exact_for_an_empty_directory() {
    let mut work = create_test_repo(&[], &[]);
    let (repo, report) = commands::init::run(&mut work).unwrap();
    let id = vcs::identity::get_human_id(&repo.state.current_commit.unwrap());
    assert_eq!(
        report,
        format!(
            "Initialized VCS repository in /tmp/r\nCreated commit:\n[master {}] Initial commit\n",
            id
        )
    );
}
