use vcs::commands;
use vcs::errors::VcsError;
use vcs::file_manager::{read_file, write_file, WorkTree};
use vcs::identity::get_human_id;
use vcs::objects::{Timestamp, VcsObjects};
use vcs::objects_manager::{init_heads, init_index, init_state, load_from_tree};
use vcs::repository::{load_tree, Repository};
use vcs::traits::VcsSerialize;
use vcs::vcs_manager::{
    create_branch, jump_to_branch, jump_to_commit, make_commit, make_commit_at, merge_branch,
};

const ROOT: &str = "/tmp/r";

fn write(work: &mut WorkTree, name: &str, text: &str) {
    write_file(work, &format!("{}/{}", ROOT, name), &text.as_bytes().to_vec()).unwrap();
}

/// Every id that the control data refer to is the id of an object of the
/// store.
fn assert_consistent(repo: &Repository) {
    let store = &repo.objects;
    for position in 0..store.len() {
        let id = store.id_at(position);
        assert_eq!(vcs::identity::get_vcs_object_id(store.content_at(position)), id);
        match VcsObjects::read_from(store.content_at(position)) {
            Ok(VcsObjects::Commit(commit)) => {
                assert!(store.contains(&commit.tree));
                if let Some(parent) = commit.parent {
                    assert!(store.contains(&parent));
                }
            }
            Ok(VcsObjects::Tree(tree)) => {
                for node in tree.iter() {
                    assert!(store.contains(&node.id));
                }
            }
            Ok(VcsObjects::Blob(_)) => {}
            Err(error) => panic!("an object cannot be read: {:?}", error),
        }
    }
    for map in [repo.index.entries(), repo.heads.entries()] {
        for position in 0..map.len() {
            assert!(store.contains(&map.id(position)));
        }
    }
    if let Some(commit) = repo.state.current_commit {
        assert!(store.contains(&commit));
    }
}

#[test]
fn every_id_resolves_after_every_operation() {
    let mut work = WorkTree::new(String::from(ROOT));
    write(&mut work, "a", "1");
    write(&mut work, "d/b", "2");
    write(&mut work, "d/e/c", "3");
    let (mut repo, _) = commands::init::run(&mut work).unwrap();
    assert_consistent(&repo);
    let first = get_human_id(&repo.state.current_commit.unwrap());

    write(&mut work, "a", "changed");
    write(&mut work, "top", "new");
    make_commit(&mut repo, &work, "second").unwrap();
    assert_consistent(&repo);

    create_branch(&mut repo, "side").unwrap();
    assert_consistent(&repo);
    write(&mut work, "side_file", "s");
    make_commit(&mut repo, &work, "on side").unwrap();
    assert_consistent(&repo);

    jump_to_branch(&mut repo, &mut work, "master").unwrap();
    assert_consistent(&repo);
    assert_eq!(read_file(&work, "/tmp/r/side_file"), Err(VcsError::Io));
    merge_branch(&mut repo, &mut work, "side").unwrap();
    assert_consistent(&repo);
    assert_eq!(read_file(&work, "/tmp/r/side_file").unwrap(), b"s");

    jump_to_commit(&mut repo, &mut work, &first).unwrap();
    assert_consistent(&repo);
    assert_eq!(make_commit(&mut repo, &work, "x").unwrap_err(), VcsError::CommitFromNonHead);
    assert_consistent(&repo);
}

#[test]
fn a_repository_is_opened_from_what_it_was_saved_as() {
    let mut work = WorkTree::new(String::from(ROOT));
    write(&mut work, "a", "1");
    write(&mut work, "d/b", "2");
    let mut repo = vcs::vcs_manager::init_vcs_directory(&mut work).unwrap();
    make_commit_at(&mut repo, &work, "first", Timestamp { secs: 3, nanos: 4 }).unwrap();

    let objects: Vec<Vec<u8>> =
        (0..repo.objects.len()).map(|position| repo.objects.content_at(position).clone()).collect();
    let opened = Repository::open(
        &repo.state.get_content(),
        &repo.index.get_content(),
        &repo.heads.get_content(),
        objects,
    )
    .unwrap();
    assert_eq!(opened, repo);
    assert_eq!(
        Repository::open(&vec![7], &repo.index.get_content(), &repo.heads.get_content(), vec![])
            .unwrap_err(),
        VcsError::Serialization
    );
    assert_eq!(
        Repository::open(&repo.state.get_content(), &vec![1], &repo.heads.get_content(), vec![])
            .unwrap_err(),
        VcsError::Serialization
    );
}

#[test]
fn a_new_repository_starts_on_master_with_nothing() {
    let state = init_state();
    assert_eq!(state.current_branch, "master");
    assert_eq!(state.current_commit, None);
    assert_eq!(init_index().entries().len(), 0);
    assert_eq!(init_heads().entries().len(), 0);
    let mut work = WorkTree::new(String::from(ROOT));
    let repo = vcs::vcs_manager::init_vcs_directory(&mut work).unwrap();
    assert_eq!(repo.state, state);
    assert_eq!(repo.objects.len(), 0);
    let info = vcs::vcs_manager::get_state(&repo).unwrap();
    assert_eq!(info.branch, "master");
    assert_eq!(info.commit, None);
}

#[test]
fn loading_a_tree_enters_every_blob_in_the_index() {
    let mut work = WorkTree::new(String::from(ROOT));
    write(&mut work, "a", "1");
    write(&mut work, "d/b", "2");
    write(&mut work, "z", "3");
    let (mut repo, _) = commands::init::run(&mut work).unwrap();
    let commit =
        vcs::repository::load_commit(&repo.objects, &repo.state.current_commit.unwrap()).unwrap();
    let tree = load_tree(&repo.objects, &commit.tree).unwrap();

    let mut elsewhere = WorkTree::new(String::from(ROOT));
    assert_eq!(load_from_tree(&repo.objects, &tree, &mut repo.index, &mut elsewhere), Ok(()));
    assert_eq!(read_file(&elsewhere, "/tmp/r/a").unwrap(), b"1");
    assert_eq!(read_file(&elsewhere, "/tmp/r/d/b").unwrap(), b"2");
    assert_eq!(read_file(&elsewhere, "/tmp/r/z").unwrap(), b"3");
    assert!(repo.index.contains("/tmp/r/a"));
    assert!(repo.index.contains("/tmp/r/d/b"));
    assert!(repo.index.contains("/tmp/r/z"));
    assert_eq!(repo.index.entries().len(), 3);
    assert!(vcs::objects_manager::get_changed_files(&elsewhere, &repo.index).is_empty());
}

#[test]
fn loading_stops_at_the_first_failure() {
    let mut work = WorkTree::new(String::from(ROOT));
    write(&mut work, "a", "1");
    write(&mut work, "b", "2");
    let (mut repo, _) = commands::init::run(&mut work).unwrap();
    let commit =
        vcs::repository::load_commit(&repo.objects, &repo.state.current_commit.unwrap()).unwrap();
    let tree = load_tree(&repo.objects, &commit.tree).unwrap();

    let mut blocked = WorkTree::new(String::from(ROOT));
    write(&mut blocked, "b/inside", "x");
    assert_eq!(
        load_from_tree(&repo.objects, &tree, &mut repo.index, &mut blocked),
        Err(VcsError::Io)
    );
    assert_eq!(read_file(&blocked, "/tmp/r/a").unwrap(), b"1");
    assert_eq!(read_file(&blocked, "/tmp/r/b/inside").unwrap(), b"x");
    assert!(repo.index.contains("/tmp/r/a"));
    assert!(!repo.index.contains("/tmp/r/b"));
}
