//! The stored form of objects, of the HEAD state and of the two mappings,
//! built from the pieces of `codec`, with the proof that what is written
//! is read back unchanged, and the trait through which they offer it.

use crate::codec::{
    enc_bytes, enc_id, enc_option_id, enc_text, enc_u32, enc_u64, fits, lemma_parse_bytes,
    lemma_parse_id, lemma_parse_option_id, lemma_parse_text, lemma_parse_u32, lemma_parse_u64,
    lemma_skip_skip, parse_bytes, parse_id, parse_option_id, parse_text, parse_u32, parse_u64,
    read_agrees, read_bytes, read_id, read_option_id, read_text, read_u32, read_u64, write_bytes,
    write_id, write_option_id, write_text, write_u32, write_u64, Parsed,
};
use crate::errors::{ErrorView, VcsError, VcsResult};
use crate::id_map::{keys_sorted, Entries, IdMap};
use crate::identity::{Bytes, VcsObjectId};
use crate::objects::{
    Blob, BlobView, Commit, CommitView, Index, NodeView, ObjectView, RefStorage, StateView,
    Timestamp, Tree, TreeNode, VcsObjects, VcsRepositoryState,
};
use crate::text::{key_lt, lemma_key_order, text_lt};
use vstd::prelude::*;
use vstd::utf8::*;

verus! {

/// A structure that has a stored form: bytes that it is written as and
/// read back from.
pub trait VcsSerialize: View + Sized {
    /// The stored form of a value.
    spec fn spec_content(value: Self::V) -> Seq<u8>;

    /// The value that some bytes are the stored form of, if they are the
    /// stored form of any.
    spec fn spec_read(content: Seq<u8>) -> Option<Self::V>;

    /// Serializes the object and returns its data in the form of bytes
    /// vector. Reading the bytes gives the object back.
    fn get_content(&self) -> (content: Bytes)
        ensures
            content@ == Self::spec_content(self@),
            Self::spec_read(content@) == Some(self@),
    ;

    /// Constructs an object from its stored form; fails with
    /// `Serialization` where the bytes are the stored form of none.
    fn read_from(content: &Bytes) -> (read: VcsResult<Self>)
        ensures
            match read {
                Ok(value) => Self::spec_read(content@) == Some(value@),
                Err(error) => error@ == ErrorView::Serialization && Self::spec_read(content@)
                    is None,
            },
    ;
}

// ---------------------------------------------------------------- nodes

/// The stored form of a tree node: its kind, its id, its path.
pub open spec fn enc_node(node: NodeView) -> Seq<u8> {
    seq![if node.is_blob { 1u8 } else { 0u8 }] + enc_id(node.id) + enc_text(node.path)
}

/// Reads a tree node off the front of the input.
pub open spec fn parse_node(input: Seq<u8>) -> Parsed<NodeView> {
    if input.len() == 0 || input[0] > 1 {
        None
    } else {
        match parse_id(input.skip(1)) {
            Some((id, rest)) => match parse_text(rest) {
                Some((path, rest)) => Some((NodeView { is_blob: input[0] == 1, id, path }, rest)),
                None => None,
            },
            None => None,
        }
    }
}

/// The stored form of a list of nodes, one after the other.
pub open spec fn enc_nodes(nodes: Seq<NodeView>) -> Seq<u8>
    decreases nodes.len(),
{
    if nodes.len() == 0 {
        Seq::empty()
    } else {
        enc_node(nodes.first()) + enc_nodes(nodes.drop_first())
    }
}

/// Puts a list in front of what was parsed after it.
pub open spec fn prepend<T>(front: Seq<T>, parsed: Parsed<Seq<T>>) -> Parsed<Seq<T>> {
    match parsed {
        Some((items, rest)) => Some((front + items, rest)),
        None => None,
    }
}

/// Reads `count` nodes off the front of the input.
pub open spec fn parse_nodes(input: Seq<u8>, count: nat) -> Parsed<Seq<NodeView>>
    decreases count,
{
    if count == 0 {
        Some((Seq::empty(), input))
    } else {
        match parse_node(input) {
            Some((node, rest)) => prepend(seq![node], parse_nodes(rest, (count - 1) as nat)),
            None => None,
        }
    }
}

/// The stored form of a tree: the number of its nodes, then the nodes.
pub open spec fn enc_tree(nodes: Seq<NodeView>) -> Seq<u8> {
    enc_u64(nodes.len() as u64) + enc_nodes(nodes)
}

/// Reads a tree off the front of the input.
pub open spec fn parse_tree(input: Seq<u8>) -> Parsed<Seq<NodeView>> {
    match parse_u64(input) {
        Some((count, rest)) => parse_nodes(rest, count as nat),
        None => None,
    }
}

/// Whether a tree can be written down: its length and the length of each
/// path fit.
pub open spec fn tree_fits(nodes: Seq<NodeView>) -> bool {
    &&& fits(nodes.len())
    &&& forall|i: int| 0 <= i < nodes.len() ==> fits(encode_utf8((#[trigger] nodes[i]).path).len())
}

/// A tree node is read back from its stored form, whatever follows it.
pub proof fn lemma_parse_node(node: NodeView, rest: Seq<u8>)
    requires
        fits(encode_utf8(node.path).len()),
    ensures
        parse_node(enc_node(node) + rest) == Some((node, rest)),
{
    let input = enc_node(node) + rest;
    assert(input.skip(1) =~= enc_id(node.id) + (enc_text(node.path) + rest));
    lemma_parse_id(node.id, enc_text(node.path) + rest);
    lemma_parse_text(node.path, rest);
}

/// The stored form of a list with one more node at its end.
pub proof fn lemma_enc_nodes_push(nodes: Seq<NodeView>, node: NodeView)
    ensures
        enc_nodes(nodes.push(node)) == enc_nodes(nodes) + enc_node(node),
    decreases nodes.len(),
{
    let longer = nodes.push(node);
    if nodes.len() == 0 {
        assert(longer.drop_first() =~= Seq::<NodeView>::empty());
        assert(longer.first() == node);
        assert(enc_nodes(longer.drop_first()) =~= Seq::<u8>::empty());
        assert(enc_nodes(longer) == enc_node(node) + enc_nodes(longer.drop_first()));
        assert(enc_nodes(longer) =~= enc_nodes(nodes) + enc_node(node));
    } else {
        assert(longer.drop_first() =~= nodes.drop_first().push(node));
        assert(longer.first() == nodes.first());
        lemma_enc_nodes_push(nodes.drop_first(), node);
        assert(enc_nodes(longer) == enc_node(nodes.first()) + (enc_nodes(nodes.drop_first())
            + enc_node(node)));
        assert(enc_nodes(longer) =~= enc_nodes(nodes) + enc_node(node));
    }
}

/// A list of nodes is read back from its stored form, whatever follows
/// it.
pub proof fn lemma_parse_nodes(nodes: Seq<NodeView>, rest: Seq<u8>)
    requires
        tree_fits(nodes),
    ensures
        parse_nodes(enc_nodes(nodes) + rest, nodes.len()) == Some((nodes, rest)),
    decreases nodes.len(),
{
    if nodes.len() == 0 {
        assert(enc_nodes(nodes) + rest =~= rest);
        assert(nodes =~= Seq::<NodeView>::empty());
    } else {
        let tail = nodes.drop_first();
        assert(enc_nodes(nodes) + rest =~= enc_node(nodes.first()) + (enc_nodes(tail) + rest));
        lemma_parse_node(nodes.first(), enc_nodes(tail) + rest);
        assert(tree_fits(tail)) by {
            assert forall|i: int| 0 <= i < tail.len() implies fits(
                encode_utf8((#[trigger] tail[i]).path).len(),
            ) by {
                assert(tail[i] == nodes[i + 1]);
            }
        }
        lemma_parse_nodes(tail, rest);
        assert(seq![nodes.first()] + tail =~= nodes);
    }
}

/// A tree is read back from its stored form, whatever follows it.
pub proof fn lemma_parse_tree(nodes: Seq<NodeView>, rest: Seq<u8>)
    requires
        tree_fits(nodes),
    ensures
        parse_tree(enc_tree(nodes) + rest) == Some((nodes, rest)),
{
    lemma_parse_u64(nodes.len() as u64, enc_nodes(nodes) + rest);
    assert(enc_tree(nodes) + rest =~= enc_u64(nodes.len() as u64) + (enc_nodes(nodes) + rest));
    lemma_parse_nodes(nodes, rest);
}

/// Putting two lists in front, one after the other, is putting their
/// concatenation in front.
pub proof fn lemma_prepend_twice<T>(first: Seq<T>, second: Seq<T>, parsed: Parsed<Seq<T>>)
    ensures
        prepend(first, prepend(second, parsed)) == prepend(first + second, parsed),
{
    match parsed {
        Some((items, rest)) => {
            assert(first + (second + items) =~= (first + second) + items);
        },
        None => {},
    }
}

fn write_node(out: &mut Vec<u8>, node: &TreeNode)
    ensures
        final(out)@ == old(out)@ + enc_node(node@),
        fits(encode_utf8(node@.path).len()),
{
    out.push(if node.is_blob() { 1 } else { 0 });
    write_id(out, &node.id);
    write_text(out, node.path.as_str());
    assert(out@ =~= old(out)@ + enc_node(node@));
}

fn write_tree(out: &mut Vec<u8>, tree: &Tree)
    ensures
        final(out)@ == old(out)@ + enc_tree(tree@),
        tree_fits(tree@),
{
    let count = tree.len();
    write_u64(out, count as u64);
    let ghost start = out@;
    let mut i: usize = 0;
    assert(tree@.take(0) =~= Seq::<NodeView>::empty());
    while i < count
        invariant
            i <= count,
            count == tree@.len(),
            out@ == start + enc_nodes(tree@.take(i as int)),
            forall|k: int| 0 <= k < i ==> fits(encode_utf8((#[trigger] tree@[k]).path).len()),
        decreases count - i,
    {
        write_node(out, tree.node(i));
        proof {
            lemma_enc_nodes_push(tree@.take(i as int), tree@[i as int]);
            assert(tree@.take(i as int).push(tree@[i as int]) =~= tree@.take(i + 1));
            assert(out@ =~= start + enc_nodes(tree@.take(i + 1)));
        }
        i += 1;
    }
    assert(tree@.take(count as int) =~= tree@);
    assert(out@ =~= old(out)@ + enc_tree(tree@));
}

fn read_node(input: &[u8], from: usize) -> (read: Option<(TreeNode, usize)>)
    requires
        from <= input@.len(),
    ensures
        read_agrees(
            parse_node(input@.skip(from as int)),
            input@,
            from as int,
            match read {
                Some((value, next)) => Some((value@, next as int)),
                None => None,
            },
        ),
{
    if input.len() - from < 1 {
        return None;
    }
    let kind = input[from];
    if kind > 1 {
        return None;
    }
    proof {
        lemma_skip_skip(input@, from as int, 1);
    }
    match read_id(input, from + 1) {
        Some((id, next)) => match read_text(input, next) {
            Some((path, next)) => Some((TreeNode::new(id, path, kind == 1), next)),
            None => None,
        },
        None => None,
    }
}

fn read_tree(input: &[u8], from: usize) -> (read: Option<(Tree, usize)>)
    requires
        from <= input@.len(),
    ensures
        read_agrees(
            parse_tree(input@.skip(from as int)),
            input@,
            from as int,
            match read {
                Some((value, next)) => Some((value@, next as int)),
                None => None,
            },
        ),
{
    let (count, start) = match read_u64(input, from) {
        Some(read) => read,
        None => {
            return None;
        },
    };
    let mut tree = Tree::new();
    let mut at = start;
    let mut i: u64 = 0;
    let ghost whole = parse_nodes(input@.skip(start as int), count as nat);
    assert(prepend(Seq::<NodeView>::empty(), whole) == whole) by {
        if let Some((items, rest)) = whole {
            assert(Seq::<NodeView>::empty() + items =~= items);
        }
    }
    while i < count
        invariant
            i <= count,
            start <= at <= input@.len(),
            tree@.len() == i,
            parse_tree(input@.skip(from as int)) == whole,
            whole == prepend(tree@, parse_nodes(input@.skip(at as int), (count - i) as nat)),
        decreases count - i,
    {
        match read_node(input, at) {
            Some((node, next)) => {
                proof {
                    lemma_prepend_twice(
                        tree@,
                        seq![node@],
                        parse_nodes(input@.skip(next as int), (count - i - 1) as nat),
                    );
                    assert(tree@ + seq![node@] =~= tree@.push(node@));
                }
                tree.add_node(node);
                at = next;
            },
            None => {
                return None;
            },
        }
        i += 1;
    }
    proof {
        assert(tree@ + Seq::<NodeView>::empty() =~= tree@);
    }
    Some((tree, at))
}

// ------------------------------------------------------ blobs, commits

/// The stored form of a blob: its file name, then its data.
pub open spec fn enc_blob(blob: BlobView) -> Seq<u8> {
    enc_text(blob.file_name) + enc_bytes(blob.data)
}

/// Reads a blob off the front of the input.
pub open spec fn parse_blob(input: Seq<u8>) -> Parsed<BlobView> {
    match parse_text(input) {
        Some((file_name, rest)) => match parse_bytes(rest) {
            Some((data, rest)) => Some((BlobView { file_name, data }, rest)),
            None => None,
        },
        None => None,
    }
}

/// Whether a blob can be written down.
pub open spec fn blob_fits(blob: BlobView) -> bool {
    fits(encode_utf8(blob.file_name).len()) && fits(blob.data.len())
}

/// A blob is read back from its stored form, whatever follows it.
pub proof fn lemma_parse_blob(blob: BlobView, rest: Seq<u8>)
    requires
        blob_fits(blob),
    ensures
        parse_blob(enc_blob(blob) + rest) == Some((blob, rest)),
{
    assert(enc_blob(blob) + rest =~= enc_text(blob.file_name) + (enc_bytes(blob.data) + rest));
    lemma_parse_text(blob.file_name, enc_bytes(blob.data) + rest);
    lemma_parse_bytes(blob.data, rest);
}

/// The stored form of a commit: tree, parent, branch, time, message.
pub open spec fn enc_commit(commit: CommitView) -> Seq<u8> {
    enc_id(commit.tree) + enc_option_id(commit.parent) + enc_text(commit.branch) + enc_u64(
        commit.time.secs,
    ) + enc_u32(commit.time.nanos) + enc_text(commit.message)
}

/// Reads a commit off the front of the input.
pub open spec fn parse_commit(input: Seq<u8>) -> Parsed<CommitView> {
    match parse_id(input) {
        Some((tree, rest)) => match parse_option_id(rest) {
            Some((parent, rest)) => match parse_text(rest) {
                Some((branch, rest)) => match parse_u64(rest) {
                    Some((secs, rest)) => match parse_u32(rest) {
                        Some((nanos, rest)) => match parse_text(rest) {
                            Some((message, rest)) => Some(
                                (
                                    CommitView {
                                        tree,
                                        parent,
                                        branch,
                                        time: Timestamp { secs, nanos },
                                        message,
                                    },
                                    rest,
                                ),
                            ),
                            None => None,
                        },
                        None => None,
                    },
                    None => None,
                },
                None => None,
            },
            None => None,
        },
        None => None,
    }
}

/// Whether a commit can be written down.
pub open spec fn commit_fits(commit: CommitView) -> bool {
    fits(encode_utf8(commit.branch).len()) && fits(encode_utf8(commit.message).len())
}

/// A commit is read back from its stored form, whatever follows it.
pub proof fn lemma_parse_commit(commit: CommitView, rest: Seq<u8>)
    requires
        commit_fits(commit),
    ensures
        parse_commit(enc_commit(commit) + rest) == Some((commit, rest)),
{
    let r5 = enc_text(commit.message) + rest;
    let r4 = enc_u32(commit.time.nanos) + r5;
    let r3 = enc_u64(commit.time.secs) + r4;
    let r2 = enc_text(commit.branch) + r3;
    let r1 = enc_option_id(commit.parent) + r2;
    assert(enc_commit(commit) + rest =~= enc_id(commit.tree) + r1);
    lemma_parse_id(commit.tree, r1);
    lemma_parse_option_id(commit.parent, r2);
    lemma_parse_text(commit.branch, r3);
    lemma_parse_u64(commit.time.secs, r4);
    lemma_parse_u32(commit.time.nanos, r5);
    lemma_parse_text(commit.message, rest);
}

fn write_blob(out: &mut Vec<u8>, blob: &Blob)
    ensures
        final(out)@ == old(out)@ + enc_blob(blob@),
        blob_fits(blob@),
{
    write_text(out, blob.file_name.as_str());
    write_bytes(out, blob.data.as_slice());
    assert(out@ =~= old(out)@ + enc_blob(blob@));
}

fn write_commit(out: &mut Vec<u8>, commit: &Commit)
    ensures
        final(out)@ == old(out)@ + enc_commit(commit@),
        commit_fits(commit@),
{
    write_id(out, &commit.tree);
    write_option_id(out, &commit.parent);
    write_text(out, commit.branch.as_str());
    write_u64(out, commit.time.secs);
    write_u32(out, commit.time.nanos);
    write_text(out, commit.message.as_str());
    assert(out@ =~= old(out)@ + enc_commit(commit@));
}

fn read_blob(input: &[u8], from: usize) -> (read: Option<(Blob, usize)>)
    requires
        from <= input@.len(),
    ensures
        read_agrees(
            parse_blob(input@.skip(from as int)),
            input@,
            from as int,
            match read {
                Some((value, next)) => Some((value@, next as int)),
                None => None,
            },
        ),
{
    match read_text(input, from) {
        Some((file_name, next)) => match read_bytes(input, next) {
            Some((data, next)) => Some((Blob { file_name, data }, next)),
            None => None,
        },
        None => None,
    }
}

fn read_commit(input: &[u8], from: usize) -> (read: Option<(Commit, usize)>)
    requires
        from <= input@.len(),
    ensures
        read_agrees(
            parse_commit(input@.skip(from as int)),
            input@,
            from as int,
            match read {
                Some((value, next)) => Some((value@, next as int)),
                None => None,
            },
        ),
{
    let (tree, next) = match read_id(input, from) {
        Some(read) => read,
        None => {
            return None;
        },
    };
    let (parent, next) = match read_option_id(input, next) {
        Some(read) => read,
        None => {
            return None;
        },
    };
    let (branch, next) = match read_text(input, next) {
        Some(read) => read,
        None => {
            return None;
        },
    };
    let (secs, next) = match read_u64(input, next) {
        Some(read) => read,
        None => {
            return None;
        },
    };
    let (nanos, next) = match read_u32(input, next) {
        Some(read) => read,
        None => {
            return None;
        },
    };
    let (message, next) = match read_text(input, next) {
        Some(read) => read,
        None => {
            return None;
        },
    };
    Some((Commit { tree, parent, branch, time: Timestamp { secs, nanos }, message }, next))
}

// -------------------------------------------------------------- objects

/// The canonical bytes of an object: a byte that says its kind, then its
/// fields.
pub open spec fn object_content(object: ObjectView) -> Seq<u8> {
    match object {
        ObjectView::Commit(commit) => seq![0u8] + enc_commit(commit),
        ObjectView::Blob(blob) => seq![1u8] + enc_blob(blob),
        ObjectView::Tree(nodes) => seq![2u8] + enc_tree(nodes),
    }
}

/// Puts a parsed value into another type.
pub open spec fn parsed_map<A, B>(parsed: Parsed<A>, wrap: spec_fn(A) -> B) -> Parsed<B> {
    match parsed {
        Some((value, rest)) => Some((wrap(value), rest)),
        None => None,
    }
}

/// Reads an object off the front of the input.
pub open spec fn parse_object(input: Seq<u8>) -> Parsed<ObjectView> {
    if input.len() == 0 {
        None
    } else if input[0] == 0 {
        parsed_map(parse_commit(input.skip(1)), |commit: CommitView| ObjectView::Commit(commit))
    } else if input[0] == 1 {
        parsed_map(parse_blob(input.skip(1)), |blob: BlobView| ObjectView::Blob(blob))
    } else if input[0] == 2 {
        parsed_map(parse_tree(input.skip(1)), |nodes: Seq<NodeView>| ObjectView::Tree(nodes))
    } else {
        None
    }
}

/// What is read when all of the input has to be used up.
pub open spec fn complete<T>(parsed: Parsed<T>) -> Option<T> {
    match parsed {
        Some((value, rest)) => if rest.len() == 0 {
            Some(value)
        } else {
            None
        },
        None => None,
    }
}

/// The object that some bytes are the canonical form of, if any.
pub open spec fn read_object(content: Seq<u8>) -> Option<ObjectView> {
    complete(parse_object(content))
}

/// Whether an object can be written down.
pub open spec fn object_fits(object: ObjectView) -> bool {
    match object {
        ObjectView::Commit(commit) => commit_fits(commit),
        ObjectView::Blob(blob) => blob_fits(blob),
        ObjectView::Tree(nodes) => tree_fits(nodes),
    }
}

/// Reading the canonical bytes of an object gives the object back.
pub proof fn lemma_read_object(object: ObjectView)
    requires
        object_fits(object),
    ensures
        read_object(object_content(object)) == Some(object),
{
    let content = object_content(object);
    let empty = Seq::<u8>::empty();
    match object {
        ObjectView::Commit(commit) => {
            assert(content.skip(1) =~= enc_commit(commit) + empty);
            lemma_parse_commit(commit, empty);
        },
        ObjectView::Blob(blob) => {
            assert(content.skip(1) =~= enc_blob(blob) + empty);
            lemma_parse_blob(blob, empty);
        },
        ObjectView::Tree(nodes) => {
            assert(content.skip(1) =~= enc_tree(nodes) + empty);
            lemma_parse_tree(nodes, empty);
        },
    }
}

/// Serializing is stable: objects that are equal as values have the same
/// canonical bytes, and so the same id.
pub proof fn lemma_content_stable(first: VcsObjects, second: VcsObjects)
    requires
        first@ == second@,
    ensures
        object_content(first@) == object_content(second@),
        crate::identity::object_id(object_content(first@)) == crate::identity::object_id(
            object_content(second@),
        ),
{
}

impl VcsSerialize for VcsObjects {
    open spec fn spec_content(value: ObjectView) -> Seq<u8> {
        object_content(value)
    }

    open spec fn spec_read(content: Seq<u8>) -> Option<ObjectView> {
        read_object(content)
    }

    fn get_content(&self) -> (content: Bytes) {
        let mut out: Vec<u8> = Vec::new();
        match self {
            VcsObjects::Commit(commit) => {
                out.push(0);
                write_commit(&mut out, commit);
            },
            VcsObjects::Blob(blob) => {
                out.push(1);
                write_blob(&mut out, blob);
            },
            VcsObjects::Tree(tree) => {
                out.push(2);
                write_tree(&mut out, tree);
            },
        }
        assert(out@ =~= object_content(self@));
        proof {
            lemma_read_object(self@);
        }
        out
    }

    fn read_from(content: &Bytes) -> (read: VcsResult<Self>) {
        let input = content.as_slice();
        if input.len() == 0 {
            return Err(VcsError::Serialization);
        }
        let kind = input[0];
        proof {
            lemma_skip_skip(input@, 0, 1);
            assert(input@.skip(0) =~= input@);
        }
        let (object, next) = if kind == 0 {
            match read_commit(input, 1) {
                Some((commit, next)) => (VcsObjects::Commit(commit), next),
                None => {
                    return Err(VcsError::Serialization);
                },
            }
        } else if kind == 1 {
            match read_blob(input, 1) {
                Some((blob, next)) => (VcsObjects::Blob(blob), next),
                None => {
                    return Err(VcsError::Serialization);
                },
            }
        } else if kind == 2 {
            match read_tree(input, 1) {
                Some((tree, next)) => (VcsObjects::Tree(tree), next),
                None => {
                    return Err(VcsError::Serialization);
                },
            }
        } else {
            return Err(VcsError::Serialization);
        };
        if next == input.len() {
            Ok(object)
        } else {
            Err(VcsError::Serialization)
        }
    }
}

// ---------------------------------------------------------------- state

/// The stored form of the HEAD state: the current commit, then the
/// current branch.
pub open spec fn state_content(state: StateView) -> Seq<u8> {
    enc_option_id(state.current_commit) + enc_text(state.current_branch)
}

/// The HEAD state that some bytes are the stored form of, if any.
pub open spec fn read_state(content: Seq<u8>) -> Option<StateView> {
    match parse_option_id(content) {
        Some((current_commit, rest)) => match parse_text(rest) {
            Some((current_branch, rest)) => if rest.len() == 0 {
                Some(StateView { current_commit, current_branch })
            } else {
                None
            },
            None => None,
        },
        None => None,
    }
}

/// Reading the stored form of a HEAD state gives the state back.
pub proof fn lemma_read_state(state: StateView)
    requires
        fits(encode_utf8(state.current_branch).len()),
    ensures
        read_state(state_content(state)) == Some(state),
{
    let empty = Seq::<u8>::empty();
    lemma_parse_option_id(state.current_commit, enc_text(state.current_branch));
    assert(enc_text(state.current_branch) =~= enc_text(state.current_branch) + empty);
    lemma_parse_text(state.current_branch, empty);
}

impl VcsSerialize for VcsRepositoryState {
    open spec fn spec_content(value: StateView) -> Seq<u8> {
        state_content(value)
    }

    open spec fn spec_read(content: Seq<u8>) -> Option<StateView> {
        read_state(content)
    }

    fn get_content(&self) -> (content: Bytes) {
        let mut out: Vec<u8> = Vec::new();
        write_option_id(&mut out, &self.current_commit);
        write_text(&mut out, self.current_branch.as_str());
        assert(out@ =~= state_content(self@));
        proof {
            lemma_read_state(self@);
        }
        out
    }

    fn read_from(content: &Bytes) -> (read: VcsResult<Self>) {
        let input = content.as_slice();
        assert(input@.skip(0) =~= input@);
        match read_option_id(input, 0) {
            Some((current_commit, next)) => match read_text(input, next) {
                Some((current_branch, next)) => if next == input.len() {
                    Ok(VcsRepositoryState { current_commit, current_branch })
                } else {
                    Err(VcsError::Serialization)
                },
                None => Err(VcsError::Serialization),
            },
            None => Err(VcsError::Serialization),
        }
    }
}

// ------------------------------------------------------------- mappings

/// The stored form of one entry of a mapping: the key, then the id.
pub open spec fn enc_entry(entry: (Seq<char>, VcsObjectId)) -> Seq<u8> {
    enc_text(entry.0) + enc_id(entry.1)
}

/// Reads one entry off the front of the input.
pub open spec fn parse_entry(input: Seq<u8>) -> Parsed<(Seq<char>, VcsObjectId)> {
    match parse_text(input) {
        Some((key, rest)) => match parse_id(rest) {
            Some((id, rest)) => Some(((key, id), rest)),
            None => None,
        },
        None => None,
    }
}

/// The stored form of a list of entries, one after the other.
pub open spec fn enc_entries(entries: Entries) -> Seq<u8>
    decreases entries.len(),
{
    if entries.len() == 0 {
        Seq::empty()
    } else {
        enc_entry(entries.first()) + enc_entries(entries.drop_first())
    }
}

/// Reads `count` entries off the front of the input.
pub open spec fn parse_entries(input: Seq<u8>, count: nat) -> Parsed<Entries>
    decreases count,
{
    if count == 0 {
        Some((Seq::empty(), input))
    } else {
        match parse_entry(input) {
            Some((entry, rest)) => prepend(seq![entry], parse_entries(rest, (count - 1) as nat)),
            None => None,
        }
    }
}

/// The stored form of a mapping: the number of its entries, then the
/// entries in key order.
pub open spec fn entries_content(entries: Entries) -> Seq<u8> {
    enc_u64(entries.len() as u64) + enc_entries(entries)
}

/// The mapping that some bytes are the stored form of, if any: the keys
/// have to come in strictly increasing order.
pub open spec fn read_entries(content: Seq<u8>) -> Option<Entries> {
    match parse_u64(content) {
        Some((count, rest)) => match complete(parse_entries(rest, count as nat)) {
            Some(entries) => if keys_sorted(entries) {
                Some(entries)
            } else {
                None
            },
            None => None,
        },
        None => None,
    }
}

/// Whether a mapping can be written down.
pub open spec fn entries_fit(entries: Entries) -> bool {
    &&& fits(entries.len())
    &&& forall|i: int| 0 <= i < entries.len() ==> fits(encode_utf8((#[trigger] entries[i]).0).len())
}

/// The stored form of a list with one more entry at its end.
pub proof fn lemma_enc_entries_push(entries: Entries, entry: (Seq<char>, VcsObjectId))
    ensures
        enc_entries(entries.push(entry)) == enc_entries(entries) + enc_entry(entry),
    decreases entries.len(),
{
    let longer = entries.push(entry);
    if entries.len() == 0 {
        assert(longer.drop_first() =~= Entries::empty());
        assert(longer.first() == entry);
        assert(enc_entries(longer.drop_first()) =~= Seq::<u8>::empty());
        assert(enc_entries(longer) == enc_entry(entry) + enc_entries(longer.drop_first()));
        assert(enc_entries(longer) =~= enc_entries(entries) + enc_entry(entry));
    } else {
        assert(longer.drop_first() =~= entries.drop_first().push(entry));
        assert(longer.first() == entries.first());
        lemma_enc_entries_push(entries.drop_first(), entry);
        assert(enc_entries(longer) == enc_entry(entries.first()) + (enc_entries(
            entries.drop_first(),
        ) + enc_entry(entry)));
        assert(enc_entries(longer) =~= enc_entries(entries) + enc_entry(entry));
    }
}

/// A list of entries is read back from its stored form, whatever follows
/// it.
pub proof fn lemma_parse_entries(entries: Entries, rest: Seq<u8>)
    requires
        entries_fit(entries),
    ensures
        parse_entries(enc_entries(entries) + rest, entries.len()) == Some((entries, rest)),
    decreases entries.len(),
{
    if entries.len() == 0 {
        assert(enc_entries(entries) + rest =~= rest);
        assert(entries =~= Entries::empty());
    } else {
        let head = entries.first();
        let tail = entries.drop_first();
        let after = enc_entries(tail) + rest;
        assert(enc_entries(entries) + rest =~= enc_text(head.0) + (enc_id(head.1) + after));
        lemma_parse_text(head.0, enc_id(head.1) + after);
        lemma_parse_id(head.1, after);
        assert(entries_fit(tail)) by {
            assert forall|i: int| 0 <= i < tail.len() implies fits(
                encode_utf8((#[trigger] tail[i]).0).len(),
            ) by {
                assert(tail[i] == entries[i + 1]);
            }
        }
        lemma_parse_entries(tail, rest);
        assert(seq![head] + tail =~= entries);
    }
}

/// Saving and then loading a sorted mapping yields the mapping, entry for
/// entry and in the same order.
pub proof fn lemma_read_entries(entries: Entries)
    requires
        entries_fit(entries),
        keys_sorted(entries),
    ensures
        read_entries(entries_content(entries)) == Some(entries),
{
    let empty = Seq::<u8>::empty();
    lemma_parse_u64(entries.len() as u64, enc_entries(entries));
    assert(enc_entries(entries) =~= enc_entries(entries) + empty);
    lemma_parse_entries(entries, empty);
}

/// Writes the entries of a mapping in their order.
pub fn write_entries(map: &IdMap) -> (content: Bytes)
    ensures
        content@ == entries_content(map@),
        entries_fit(map@),
{
    let mut out: Vec<u8> = Vec::new();
    let count = map.len();
    write_u64(&mut out, count as u64);
    let ghost start = out@;
    let mut i: usize = 0;
    assert(map@.take(0) =~= Entries::empty());
    while i < count
        invariant
            i <= count,
            count == map@.len(),
            out@ == start + enc_entries(map@.take(i as int)),
            forall|k: int| 0 <= k < i ==> fits(encode_utf8((#[trigger] map@[k]).0).len()),
        decreases count - i,
    {
        write_text(&mut out, map.key(i).as_str());
        write_id(&mut out, &map.id(i));
        proof {
            lemma_enc_entries_push(map@.take(i as int), map@[i as int]);
            assert(map@.take(i as int).push(map@[i as int]) =~= map@.take(i + 1));
            assert(out@ =~= start + enc_entries(map@.take(i + 1)));
        }
        i += 1;
    }
    assert(map@.take(count as int) =~= map@);
    assert(out@ =~= entries_content(map@));
    out
}

/// A sorted list stays sorted when a key greater than its last is added,
/// and only then.
pub proof fn lemma_sorted_push(entries: Entries, entry: (Seq<char>, VcsObjectId))
    requires
        keys_sorted(entries),
    ensures
        keys_sorted(entries.push(entry)) <==> (entries.len() > 0 ==> key_lt(
            entries.last().0,
            entry.0,
        )),
{
    let longer = entries.push(entry);
    if entries.len() > 0 && key_lt(entries.last().0, entry.0) {
        assert forall|i: int, j: int| 0 <= i < j < longer.len() implies key_lt(
            (#[trigger] longer[i]).0,
            (#[trigger] longer[j]).0,
        ) by {
            if j < entries.len() {
                assert(key_lt(entries[i].0, entries[j].0));
            } else if i < entries.len() - 1 {
                assert(key_lt(entries[i].0, entries[entries.len() - 1].0));
                lemma_key_order(entries[i].0, entries.last().0, entry.0);
            }
        }
    }
    if entries.len() > 0 && keys_sorted(longer) {
        assert(key_lt(longer[entries.len() - 1].0, longer[entries.len() as int].0));
    }
}

/// A list that starts with an unsorted list is not sorted.
pub proof fn lemma_unsorted_prefix(front: Entries, back: Entries)
    requires
        !keys_sorted(front),
    ensures
        !keys_sorted(front + back),
{
    let whole = front + back;
    if keys_sorted(whole) {
        assert forall|i: int, j: int| 0 <= i < j < front.len() implies key_lt(
            (#[trigger] front[i]).0,
            (#[trigger] front[j]).0,
        ) by {
            assert(key_lt(whole[i].0, whole[j].0));
        }
    }
}

/// Reads the entries of a mapping; fails where the bytes are not the
/// stored form of a sorted mapping.
pub fn load_entries(content: &Bytes) -> (map: Option<IdMap>)
    ensures
        match map {
            Some(map) => read_entries(content@) == Some(map@),
            None => read_entries(content@) is None,
        },
{
    let input = content.as_slice();
    assert(input@.skip(0) =~= input@);
    let (count, start) = match read_u64(input, 0) {
        Some(read) => read,
        None => {
            return None;
        },
    };
    let mut map = IdMap::new();
    let mut at = start;
    let mut i: u64 = 0;
    let ghost whole = parse_entries(input@.skip(start as int), count as nat);
    assert(prepend(Entries::empty(), whole) == whole) by {
        if let Some((items, rest)) = whole {
            assert(Entries::empty() + items =~= items);
        }
    }
    proof {
        crate::id_map::lemma_empty_sorted();
    }
    while i < count
        invariant
            i <= count,
            start <= at <= input@.len(),
            map@.len() == i,
            keys_sorted(map@),
            input@ == content@,
            parse_u64(content@) == Some((count, input@.skip(start as int))),
            whole == parse_entries(input@.skip(start as int), count as nat),
            whole == prepend(map@, parse_entries(input@.skip(at as int), (count - i) as nat)),
        decreases count - i,
    {
        let (key, next) = match read_text(input, at) {
            Some(read) => read,
            None => {
                return None;
            },
        };
        let (id, next) = match read_id(input, next) {
            Some(read) => read,
            None => {
                return None;
            },
        };
        let ghost later = parse_entries(input@.skip(next as int), (count - i - 1) as nat);
        proof {
            lemma_prepend_twice(map@, seq![(key@, id)], later);
            assert(map@ + seq![(key@, id)] =~= map@.push((key@, id)));
            lemma_sorted_push(map@, (key@, id));
        }
        let count_so_far = map.len();
        if count_so_far > 0 && !text_lt(map.key(count_so_far - 1).as_str(), key.as_str()) {
            proof {
                if let Some((items, rest)) = later {
                    lemma_unsorted_prefix(map@.push((key@, id)), items);
                }
            }
            return None;
        }
        map.push_last(key, id);
        at = next;
        i += 1;
    }
    proof {
        assert(map@ + Entries::empty() =~= map@);
    }
    if at == input.len() {
        Some(map)
    } else {
        None
    }
}

impl VcsSerialize for Index {
    open spec fn spec_content(value: Entries) -> Seq<u8> {
        entries_content(value)
    }

    open spec fn spec_read(content: Seq<u8>) -> Option<Entries> {
        read_entries(content)
    }

    fn get_content(&self) -> (content: Bytes) {
        let content = write_entries(self.entries());
        proof {
            lemma_read_entries(self@);
        }
        content
    }

    fn read_from(content: &Bytes) -> (read: VcsResult<Self>) {
        match load_entries(content) {
            Some(entries) => Ok(Index::from_entries(entries)),
            None => Err(VcsError::Serialization),
        }
    }
}

impl VcsSerialize for RefStorage {
    open spec fn spec_content(value: Entries) -> Seq<u8> {
        entries_content(value)
    }

    open spec fn spec_read(content: Seq<u8>) -> Option<Entries> {
        read_entries(content)
    }

    fn get_content(&self) -> (content: Bytes) {
        let content = write_entries(self.entries());
        proof {
            lemma_read_entries(self@);
        }
        content
    }

    fn read_from(content: &Bytes) -> (read: VcsResult<Self>) {
        match load_entries(content) {
            Some(entries) => Ok(RefStorage::from_entries(entries)),
            None => Err(VcsError::Serialization),
        }
    }
}

} // verus!
