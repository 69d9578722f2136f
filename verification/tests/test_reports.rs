use vcs::public_info::{FileStatus, NewCommitInfo, StateInfo};
use vcs::report_printer::{
    report_changes, report_creating_new_branch, report_current_branch, report_successful_commit,
    report_successful_init, report_successful_jump_to_branch, report_successful_jump_to_commit,
};

#[test]
fn reports_are_worded_as_they_should() {
    assert_eq!(report_current_branch("side"), "On branch side\n");
    assert_eq!(report_successful_init("/tmp/r"), "Initialized VCS repository in /tmp/r\n");
    let changes = vec![
        (FileStatus::Added, String::from("a")),
        (FileStatus::Modified, String::from("d/b")),
    ];
    assert_eq!(report_changes(&changes), "  added: a\n  modified: d/b\n");
    assert_eq!(report_changes(&Vec::new()), "");
    let info = NewCommitInfo {
        human_id: String::from("0123"),
        branch: String::from("master"),
        changes,
        message: String::from("a message"),
    };
    assert_eq!(
        report_successful_commit(&info),
        "[master 0123] a message\n  added: a\n  modified: d/b\n"
    );
    let with_commit = StateInfo { commit: Some(String::from("abcd")), branch: String::from("b") };
    let without = StateInfo { commit: None, branch: String::from("b") };
    assert_eq!(
        report_creating_new_branch(&with_commit),
        "Created a new branch b from master's commit abcd\n"
    );
    assert_eq!(report_creating_new_branch(&without), "Created a new branch b\n");
    assert_eq!(
        report_successful_jump_to_commit(&with_commit),
        "Successfully jumped to commit abcd. Current branch: b\n"
    );
    assert_eq!(
        report_successful_jump_to_branch(&with_commit),
        "Successfully jumped to branch b. Current commit: abcd.\n"
    );
    assert_eq!(report_successful_jump_to_branch(&without), "Successfully jumped to branch b.\n");
}
