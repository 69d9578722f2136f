use vcs::commands;
use vcs::file_manager::{write_file, WorkTree};
use vcs::identity::get_human_id;
use vcs::objects::Timestamp;
use vcs::public_info::FileStatus;
use vcs::report_printer::display_logs;
use vcs::repository::Repository;
use vcs::vcs_manager::{get_commit_logs, make_commit_at};

const ROOT: &str = "/tmp/r";

fn init_repo(work: &mut WorkTree) -> Repository {
    commands::init::run(work).expect("It seems that init cmd doesn't work").0
}

fn log_report(repo: &Repository, work: &WorkTree) -> String {
    let logs = get_commit_logs(repo, work).unwrap();
    let dates: Vec<String> = logs.iter().map(|log| format!("{}", log.time.secs)).collect();
    display_logs(&logs, &dates)
}

fn count_commit_lines(report: &str) -> usize {
    report
        .lines()
        .filter(|line| {
            line.strip_prefix("commit ").map_or(false, |id| {
                id.len() == 40 && id.chars().all(|c| c.is_ascii_hexdigit() && !c.is_ascii_uppercase())
            })
        })
        .count()
}

#[test]
fn test_log_test_simple() {
    let mut work = WorkTree::new(String::from(ROOT));
    let mut repo = init_repo(&mut work);

    write_file(&mut work, "/tmp/r/new_file", &Vec::new()).unwrap();
    commands::commit::run(&mut repo, &work, "add new_file").unwrap();

    write_file(&mut work, "/tmp/r/new_file", &b"hello".to_vec()).unwrap();
    commands::commit::run(&mut repo, &work, "add hello to new_file").unwrap();

    assert_eq!(count_commit_lines(&log_report(&repo, &work)), 3);
}

#[test]
fn test_branch_logs_root() {
    let mut work = WorkTree::new(String::from(ROOT));
    let mut repo = init_repo(&mut work);

    write_file(&mut work, "/tmp/r/new_file", &Vec::new()).unwrap();
    commands::commit::run(&mut repo, &work, "add new_file").unwrap();

    commands::new_branch::run(&mut repo, "feature branch").unwrap();

    write_file(&mut work, "/tmp/r/new_file", &b"hello".to_vec()).unwrap();
    commands::commit::run(&mut repo, &work, "add hello to new_file").unwrap();

    assert_eq!(count_commit_lines(&log_report(&repo, &work)), 3);
}

#[test]
fn log_lists_the_changes_of_each_commit_newest_first() {
    let mut work = WorkTree::new(String::from(ROOT));
    let mut repo = vcs::vcs_manager::init_vcs_directory(&mut work).unwrap();
    write_file(&mut work, "/tmp/r/a", &b"1".to_vec()).unwrap();
    write_file(&mut work, "/tmp/r/d/b", &b"2".to_vec()).unwrap();
    make_commit_at(&mut repo, &work, "first", Timestamp { secs: 10, nanos: 0 }).unwrap();
    let first = get_human_id(&repo.state.current_commit.unwrap());
    write_file(&mut work, "/tmp/r/a", &b"3".to_vec()).unwrap();
    write_file(&mut work, "/tmp/r/d/c", &b"4".to_vec()).unwrap();
    make_commit_at(&mut repo, &work, "second", Timestamp { secs: 20, nanos: 0 }).unwrap();
    let second = get_human_id(&repo.state.current_commit.unwrap());

    let logs = get_commit_logs(&repo, &work).unwrap();
    assert_eq!(logs.len(), 2);
    assert_eq!(logs[0].human_id, second);
    assert_eq!(logs[0].message, "second");
    assert_eq!(logs[0].time, Timestamp { secs: 20, nanos: 0 });
    assert_eq!(
        logs[0].changes,
        [
            (FileStatus::Modified, String::from("a")),
            (FileStatus::Added, String::from("d/c")),
        ]
    );
    assert_eq!(logs[1].human_id, first);
    assert_eq!(
        logs[1].changes,
        [(FileStatus::Added, String::from("a")), (FileStatus::Added, String::from("d/b"))]
    );

    let dates = vec![String::from("later"), String::from("sooner")];
    assert_eq!(
        display_logs(&logs, &dates),
        format!(
            "commit {}\nDate: later\nMessage: second\nChanges:\n  modified: a\n  added: d/c\n\ncommit {}\nDate: sooner\nMessage: first\nChanges:\n  added: a\n  added: d/b\n",
            second, first
        )
    );
}

#[test]
fn log_of_a_commit_without_changes() {
    let mut work = WorkTree::new(String::from(ROOT));
    let repo = init_repo(&mut work);
    let logs = get_commit_logs(&repo, &work).unwrap();
    assert_eq!(logs.len(), 1);
    let id = get_human_id(&repo.state.current_commit.unwrap());
    assert_eq!(
        display_logs(&logs, &vec![String::from("now")]),
        format!("commit {}\nDate: now\nMessage: Initial commit\nNo changes\n", id)
    );
}

#[test]
fn log_of_a_repository_without_commits_is_empty() {
    let mut work = WorkTree::new(String::from(ROOT));
    let repo = vcs::vcs_manager::init_vcs_directory(&mut work).unwrap();
    let logs = get_commit_logs(&repo, &work).unwrap();
    assert!(logs.is_empty());
    assert_eq!(display_logs(&logs, &Vec::new()), "");
}

#[test]
fn log_fails_where_the_trees_belong_to_another_root() {
    let mut work = WorkTree::new(String::from(ROOT));
    write_file(&mut work, "/tmp/r/a", &Vec::new()).unwrap();
    let repo = init_repo(&mut work);
    let moved = WorkTree::new(String::from("/tmp/moved"));
    assert_eq!(
        get_commit_logs(&repo, &moved),
        Err(vcs::errors::VcsError::Serialization)
    );
    let above = WorkTree::new(String::from("/tmp"));
    let logs = get_commit_logs(&repo, &above).unwrap();
    assert_eq!(logs[0].changes, [(FileStatus::Added, String::from("r/a"))]);
}
