use vcs::errors::VcsError;
use vcs::identity::{get_human_id, get_vcs_object_id, ids_equal};
use vcs::object_store::ObjectStore;
use vcs::objects::{
    trees_equal, Blob, Commit, Index, RefStorage, Timestamp, Tree, TreeNode, VcsObjects,
    VcsRepositoryState,
};
use vcs::objects_manager::{
    compare_trees, get_branch_root, get_tree_files, get_vcs_heads_path, get_vcs_index_path,
    get_vcs_root, get_vcs_state_path, get_vsc_object_path, record_commit,
};
use vcs::public_info::{get_inner_id, FileStatus, StateInfo};
use vcs::repository::{load_blob, load_commit, load_object, load_tree};
use vcs::traits::VcsSerialize;

#[test]
fn get_inner_id_works() {
    let human_id = "4c6f72656d20697073756d20677261766964612e";
    let inner_id = get_inner_id(human_id);
    assert!(inner_id.is_ok());
    assert_eq!(&inner_id.unwrap(), b"Lorem ipsum gravida.");
}

#[test]
fn incorrect_id() {
    let human_id = "41656e65616e2e0a0a";
    let inner_id = get_inner_id(human_id);
    assert!(inner_id.is_err());
}

#[test]
fn ids_go_to_text_and_back() {
    let id: [u8; 20] = [
        0x00, 0x01, 0x0f, 0x10, 0x7f, 0x80, 0x9a, 0xab, 0xcd, 0xef, 0xff, 0x12, 0x34, 0x56, 0x78,
        0x9a, 0xbc, 0xde, 0xf0, 0x42,
    ];
    let text = get_human_id(&id);
    assert_eq!(text, "00010f107f809aabcdefff123456789abcdef042");
    assert_eq!(get_inner_id(&text), Ok(id));
    assert_eq!(get_human_id(&get_inner_id(&text).unwrap()), text);
    assert_eq!(get_inner_id("00010F107F809AABCDEFFF123456789ABCDEF042"), Ok(id));
}

#[test]
fn texts_that_are_no_ids_are_refused() {
    for text in [
        "",
        "00010f107f809aabcdefff123456789abcdef04",
        "00010f107f809aabcdefff123456789abcdef0420",
        "g0010f107f809aabcdefff123456789abcdef042",
        "00010f107f809aabcdefff123456789abcdef04\u{e9}",
        "\u{e9}\u{e9}\u{e9}\u{e9}\u{e9}\u{e9}\u{e9}\u{e9}\u{e9}\u{e9}\u{e9}\u{e9}\u{e9}\u{e9}\u{e9}\u{e9}\u{e9}\u{e9}\u{e9}\u{e9}",
    ] {
        assert_eq!(get_inner_id(text), Err(VcsError::NoCommit(String::from(text))));
    }
}

#[test]
fn the_id_of_an_object_is_the_sha1_of_its_bytes() {
    assert_eq!(
        get_human_id(&get_vcs_object_id(&Vec::new())),
        "da39a3ee5e6b4b0d3255bfef95601890afd80709"
    );
    assert_eq!(
        get_human_id(&get_vcs_object_id(&b"abc".to_vec())),
        "a9993e364706816aba3e25717850c26c9cd0d89d"
    );
    assert!(ids_equal(&[7; 20], &[7; 20]));
    let mut other = [7; 20];
    other[19] = 8;
    assert!(!ids_equal(&[7; 20], &other));
}

fn sample_tree() -> Tree {
    let mut tree = Tree::new();
    tree.add_node(TreeNode::new([1; 20], String::from("/r/a"), true));
    tree.add_node(TreeNode::new([2; 20], String::from("/r/d\u{e9}"), false));
    tree
}

fn sample_commit() -> Commit {
    Commit {
        tree: [3; 20],
        parent: Some([4; 20]),
        branch: String::from("feature branch"),
        time: Timestamp { secs: 1_700_000_000, nanos: 999_999_999 },
        message: String::from("a message\nof two lines"),
    }
}

#[test]
fn objects_are_read_back_as_they_were_written() {
    let objects = vec![
        VcsObjects::Blob(Blob { file_name: String::from("d/f"), data: vec![0, 255, 10] }),
        VcsObjects::Blob(Blob { file_name: String::new(), data: Vec::new() }),
        VcsObjects::Tree(sample_tree()),
        VcsObjects::Tree(Tree::new()),
        VcsObjects::Commit(sample_commit()),
        VcsObjects::Commit(Commit { parent: None, ..sample_commit() }),
    ];
    for object in objects {
        let content = object.get_content();
        assert_eq!(VcsObjects::read_from(&content), Ok(object.clone()));
        assert_eq!(object.get_content(), content);
        let mut longer = content.clone();
        longer.push(0);
        assert_eq!(VcsObjects::read_from(&longer), Err(VcsError::Serialization));
        let shorter = content[..content.len() - 1].to_vec();
        assert_eq!(VcsObjects::read_from(&shorter), Err(VcsError::Serialization));
    }
    assert_eq!(VcsObjects::read_from(&Vec::new()), Err(VcsError::Serialization));
    assert_eq!(VcsObjects::read_from(&vec![3]), Err(VcsError::Serialization));
}

#[test]
fn the_bytes_of_a_blob_are_what_the_format_says() {
    let blob = VcsObjects::Blob(Blob { file_name: String::from("ab"), data: vec![9, 8, 7] });
    assert_eq!(
        blob.get_content(),
        [1, 2, 0, 0, 0, 0, 0, 0, 0, b'a', b'b', 3, 0, 0, 0, 0, 0, 0, 0, 9, 8, 7]
    );
    let mut tree = Tree::new();
    tree.add_node(TreeNode::new([5; 20], String::from("x"), true));
    let mut expected = vec![2, 1, 0, 0, 0, 0, 0, 0, 0, 1];
    expected.extend([5; 20]);
    expected.extend([1, 0, 0, 0, 0, 0, 0, 0, b'x']);
    assert_eq!(VcsObjects::Tree(tree).get_content(), expected);
}

#[test]
fn text_that_is_not_utf8_is_refused() {
    let mut content = vec![1, 1, 0, 0, 0, 0, 0, 0, 0, 0xff];
    content.extend([0, 0, 0, 0, 0, 0, 0, 0]);
    assert_eq!(VcsObjects::read_from(&content), Err(VcsError::Serialization));
    content[9] = b'a';
    assert!(VcsObjects::read_from(&content).is_ok());
}

#[test]
fn the_state_is_read_back_as_it_was_written() {
    for state in [
        VcsRepositoryState { current_commit: None, current_branch: String::from("master") },
        VcsRepositoryState { current_commit: Some([9; 20]), current_branch: String::from("b c") },
    ] {
        let content = state.get_content();
        assert_eq!(VcsRepositoryState::read_from(&content), Ok(state.clone()));
    }
    assert_eq!(VcsRepositoryState::read_from(&vec![2]), Err(VcsError::Serialization));
    let info = StateInfo::from(&VcsRepositoryState {
        current_commit: Some([0xab; 20]),
        current_branch: String::from("master"),
    });
    assert_eq!(info.commit, Some("ab".repeat(20)));
    assert_eq!(info.branch, "master");
}

#[test]
fn the_index_is_kept_and_read_back_in_the_order_of_its_keys() {
    let mut index = Index::new();
    for (path, id) in [("/r/b", 1u8), ("/r/a/z", 2), ("/r/a", 3), ("/r/a.b", 4), ("/r/b", 5)] {
        index.update(String::from(path), [id; 20]);
    }
    let keys = |index: &Index| -> Vec<String> {
        let entries = index.entries();
        (0..entries.len()).map(|i| entries.key(i).clone()).collect()
    };
    assert_eq!(keys(&index), ["/r/a", "/r/a.b", "/r/a/z", "/r/b"]);
    assert_eq!(*index.get_id("/r/b"), [5; 20]);
    assert!(index.contains("/r/a"));
    assert!(!index.contains("/r/c"));

    let content = index.get_content();
    let loaded = Index::read_from(&content).unwrap();
    assert_eq!(loaded, index);
    assert_eq!(keys(&loaded), ["/r/a", "/r/a.b", "/r/a/z", "/r/b"]);
    assert_eq!(loaded.get_content(), content);

    index.clear();
    assert_eq!(index.entries().len(), 0);
    assert_eq!(Index::read_from(&index.get_content()), Ok(Index::new()));
}

#[test]
fn a_mapping_whose_keys_are_not_sorted_is_refused() {
    let entry = |key: &str, id: u8| -> Vec<u8> {
        let mut bytes = (key.len() as u64).to_le_bytes().to_vec();
        bytes.extend(key.as_bytes());
        bytes.extend([id; 20]);
        bytes
    };
    let mut sorted = 2u64.to_le_bytes().to_vec();
    sorted.extend(entry("a", 1));
    sorted.extend(entry("b", 2));
    assert!(RefStorage::read_from(&sorted).is_ok());
    let mut unsorted = 2u64.to_le_bytes().to_vec();
    unsorted.extend(entry("b", 2));
    unsorted.extend(entry("a", 1));
    assert_eq!(RefStorage::read_from(&unsorted), Err(VcsError::Serialization));
    let mut twice = 2u64.to_le_bytes().to_vec();
    twice.extend(entry("a", 1));
    twice.extend(entry("a", 2));
    assert_eq!(Index::read_from(&twice), Err(VcsError::Serialization));
    let mut short = 3u64.to_le_bytes().to_vec();
    short.extend(entry("a", 1));
    assert_eq!(Index::read_from(&short), Err(VcsError::Serialization));
}

#[test]
fn heads_hold_names_with_spaces() {
    let mut heads = RefStorage::new();
    assert!(!heads.contains("master"));
    heads.update(String::from("master"), [1; 20]);
    heads.update(String::from("feature branch"), [2; 20]);
    heads.update(String::from("master"), [3; 20]);
    assert_eq!(*heads.get_id("master"), [3; 20]);
    assert_eq!(*heads.get_id("feature branch"), [2; 20]);
    assert_eq!(heads.entries().len(), 2);
    assert_eq!(RefStorage::read_from(&heads.get_content()), Ok(heads));
}

#[test]
fn the_store_keeps_objects_under_their_ids() {
    let mut store = ObjectStore::new();
    assert_eq!(store.len(), 0);
    let id = store.put(b"abc".to_vec());
    assert_eq!(get_human_id(&id), "a9993e364706816aba3e25717850c26c9cd0d89d");
    assert!(store.contains(&id));
    assert_eq!(store.get(&id), Some(&b"abc".to_vec()));
    assert_eq!(store.put(b"abc".to_vec()), id);
    assert_eq!(store.len(), 1);
    let other = store.put(Vec::new());
    assert_ne!(other, id);
    assert_eq!(store.len(), 2);
    assert_eq!(store.id_at(0), id);
    assert_eq!(store.content_at(1), &Vec::<u8>::new());
    assert!(!store.contains(&[0; 20]));
    assert_eq!(store.get(&[0; 20]), None);
}

#[test]
fn objects_are_loaded_by_kind() {
    let mut store = ObjectStore::new();
    let commit_id = record_commit(&mut store, &sample_commit());
    let tree_id = store.put(VcsObjects::Tree(sample_tree()).get_content());
    let junk_id = store.put(vec![9, 9]);
    assert_eq!(load_commit(&store, &commit_id), Ok(sample_commit()));
    assert_eq!(load_tree(&store, &tree_id), Ok(sample_tree()));
    assert_eq!(load_tree(&store, &commit_id), Err(VcsError::Serialization));
    assert_eq!(load_blob(&store, &tree_id), Err(VcsError::Serialization));
    assert_eq!(load_commit(&store, &[0; 20]), Err(VcsError::Io));
    assert_eq!(load_object(&store, &junk_id), Err(VcsError::Serialization));
    assert_eq!(VcsObjects::Commit(sample_commit()).commit(), sample_commit());
    assert_eq!(VcsObjects::Tree(sample_tree()).tree(), sample_tree());
}

fn put_tree(store: &mut ObjectStore, nodes: Vec<TreeNode>) -> ([u8; 20], Tree) {
    let mut tree = Tree::new();
    for node in nodes {
        tree.add_node(node);
    }
    let id = store.put(VcsObjects::Tree(tree.clone()).get_content());
    (id, tree)
}

#[test]
fn trees_are_compared_node_by_node() {
    let mut store = ObjectStore::new();
    let blob = |id: u8, path: &str| TreeNode::new([id; 20], String::from(path), true);
    let (old_sub, _) = put_tree(&mut store, vec![blob(1, "/r/d/x"), blob(2, "/r/d/y")]);
    let (new_sub, _) =
        put_tree(&mut store, vec![blob(1, "/r/d/x"), blob(3, "/r/d/y"), blob(4, "/r/d/z")]);
    let (fresh, _) = put_tree(&mut store, vec![blob(5, "/r/n/p"), blob(6, "/r/n/q")]);
    let (_, first) = put_tree(
        &mut store,
        vec![
            blob(7, "/r/a"),
            TreeNode::new(old_sub, String::from("/r/d"), false),
            blob(8, "/r/gone"),
            blob(9, "/r/n"),
        ],
    );
    let (_, second) = put_tree(
        &mut store,
        vec![
            blob(10, "/r/a"),
            TreeNode::new(new_sub, String::from("/r/d"), false),
            TreeNode::new(fresh, String::from("/r/n"), false),
            blob(11, "/r/b"),
        ],
    );
    let change = |status, path: &str| (status, String::from(path));
    assert_eq!(
        compare_trees(&store, &first, &second),
        Ok(vec![
            change(FileStatus::Modified, "/r/a"),
            change(FileStatus::Modified, "/r/d/y"),
            change(FileStatus::Added, "/r/d/z"),
            change(FileStatus::Added, "/r/n/p"),
            change(FileStatus::Added, "/r/n/q"),
            change(FileStatus::Added, "/r/b"),
        ])
    );
    assert_eq!(compare_trees(&store, &second, &second), Ok(Vec::new()));
    assert_eq!(
        get_tree_files(&store, &second),
        Ok(vec![
            change(FileStatus::Added, "/r/a"),
            change(FileStatus::Added, "/r/d/x"),
            change(FileStatus::Added, "/r/d/y"),
            change(FileStatus::Added, "/r/d/z"),
            change(FileStatus::Added, "/r/n/p"),
            change(FileStatus::Added, "/r/n/q"),
            change(FileStatus::Added, "/r/b"),
        ])
    );
    let mut broken = Tree::new();
    broken.add_node(TreeNode::new([0; 20], String::from("/r/lost"), false));
    assert_eq!(get_tree_files(&store, &broken), Err(VcsError::Io));
    assert_eq!(compare_trees(&store, &first, &broken), Err(VcsError::Io));
    assert!(trees_equal(&first, &first.clone()));
    assert!(!trees_equal(&first, &second));
}

#[test]
fn the_branch_root_is_where_the_branch_left() {
    let mut store = ObjectStore::new();
    let commit = |parent: Option<[u8; 20]>, branch: &str, message: &str| Commit {
        tree: [0; 20],
        parent,
        branch: String::from(branch),
        time: Timestamp { secs: 0, nanos: 0 },
        message: String::from(message),
    };
    let first = commit(None, "master", "first");
    let first_id = record_commit(&mut store, &first);
    let second = commit(Some(first_id), "master", "second");
    let second_id = record_commit(&mut store, &second);
    let third = commit(Some(second_id), "side", "third");
    let third_id = record_commit(&mut store, &third);
    let fourth = commit(Some(third_id), "side", "fourth");
    assert_eq!(get_branch_root(&store, "side", fourth.clone()), Ok(second.clone()));
    assert_eq!(get_branch_root(&store, "master", second.clone()), Ok(first.clone()));
    assert_eq!(get_branch_root(&store, "other", fourth.clone()), Ok(fourth));
    let dangling = commit(Some([1; 20]), "side", "dangling");
    assert_eq!(get_branch_root(&store, "side", dangling), Err(VcsError::Io));
}

#[test]
fn the_control_files_have_their_places() {
    assert_eq!(get_vcs_root("/r"), "/r/.vcs");
    assert_eq!(get_vcs_state_path("/r"), "/r/.vcs/STATE");
    assert_eq!(get_vcs_index_path("/r"), "/r/.vcs/index");
    assert_eq!(get_vcs_heads_path("/r"), "/r/.vcs/refs/heads");
    let mut id = [0xcd; 20];
    id[0] = 0xab;
    assert_eq!(
        get_vsc_object_path("/r", &id),
        format!("/r/.vcs/objects/ab/{}", "cd".repeat(19))
    );
}

#[test]
fn every_failure_has_its_message() {
    let changes = vec![(FileStatus::Added, String::from("a"))];
    let cases = vec![
        (VcsError::Io, "An object of the repository cannot be read"),
        (VcsError::Serialization, "An object of the repository cannot be deserialized"),
        (VcsError::NotVcsRepository, "Not a vcs repository"),
        (VcsError::AlreadyVcsRepository, "Already a vcs repository"),
        (VcsError::NoChanges, "No changes to be committed"),
        (
            VcsError::BranchOffNonMaster,
            "Creating a new branch is possible only when you are in the master branch.\nAborting...",
        ),
        (
            VcsError::MergeFromNotMasterHead,
            "The merge is possible only when you are in the last commit in master.\nAborting...",
        ),
        (
            VcsError::MergeConflict { both_changed: changes },
            "Merge conflict: file(s) has been changed both in master and branch\n  added: a\nAborting...",
        ),
    ];
    for (error, message) in cases {
        assert_eq!(error.message(), message);
    }
}
