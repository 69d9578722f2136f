//! The working tree: an in-memory image of the files and directories
//! under the repository root.

use crate::errors::{ErrorView, VcsError, VcsResult};
use crate::text::{
    copy_text, is_absolute, is_path_under, join_path, path_components, path_is_absolute, path_join,
    path_relative, path_under, split_path, text_eq,
};
use vstd::prelude::*;
use vstd::string::*;

verus! {

/// The name of the control directory.
pub const VCS_ROOT: &'static str = ".vcs";

/// An entry of a directory: a file with its contents, or a directory with
/// its entries in the order in which the directory lists them.
#[derive(Debug, PartialEq, Eq)]
pub enum WorkEntry {
    File { name: String, data: Vec<u8> },
    Dir { name: String, children: Vec<WorkEntry> },
}

/// An entry as plain values.
pub enum EntryView {
    File { name: Seq<char>, data: Seq<u8> },
    Dir { name: Seq<char>, children: Seq<EntryView> },
}

/// The entries of a directory as plain values.
pub open spec fn entries_view(entries: Seq<WorkEntry>) -> Seq<EntryView>
    decreases entries,
{
    Seq::new(
        entries.len(),
        |i: int|
            if 0 <= i < entries.len() {
                entry_view(entries[i])
            } else {
                arbitrary()
            },
    )
}

/// An entry as plain values.
pub open spec fn entry_view(entry: WorkEntry) -> EntryView
    decreases entry,
{
    match entry {
        WorkEntry::File { name, data } => EntryView::File { name: name@, data: data@ },
        WorkEntry::Dir { name, children } => EntryView::Dir {
            name: name@,
            children: entries_view(children@),
        },
    }
}

impl View for WorkEntry {
    type V = EntryView;

    open spec fn view(&self) -> EntryView {
        entry_view(*self)
    }
}

impl EntryView {
    /// The entry's name in its directory.
    pub open spec fn name(self) -> Seq<char> {
        match self {
            EntryView::File { name, .. } => name,
            EntryView::Dir { name, .. } => name,
        }
    }

    /// Whether the entry is a control directory: a directory named `.vcs`.
    pub open spec fn is_vcs_directory(self) -> bool {
        self is Dir && self.name() == VCS_ROOT@
    }
}

impl WorkEntry {
    /// The entry's name in its directory.
    pub fn name(&self) -> (name: &String)
        ensures
            name@ == self@.name(),
    {
        match self {
            WorkEntry::File { name, .. } => name,
            WorkEntry::Dir { name, .. } => name,
        }
    }

    /// Whether the entry is a directory.
    pub fn is_dir(&self) -> (dir: bool)
        ensures
            dir == (self@ is Dir),
    {
        match self {
            WorkEntry::File { .. } => false,
            WorkEntry::Dir { .. } => true,
        }
    }
}

/// Whether the entry is a control directory, which no walk enters.
pub fn is_vcs_directory(entry: &WorkEntry) -> (vcs: bool)
    ensures
        vcs == entry@.is_vcs_directory(),
{
    match entry {
        WorkEntry::File { .. } => false,
        WorkEntry::Dir { name, .. } => text_eq(name.as_str(), VCS_ROOT),
    }
}

/// Whether a directory has no entry at all. Fails for a file.
pub fn is_empty_dir(directory: &WorkEntry) -> (empty: VcsResult<bool>)
    ensures
        match empty {
            Ok(empty) => directory@ is Dir && empty == (directory@->children.len() == 0),
            Err(error) => directory@ is File && error@ == ErrorView::Io,
        },
{
    match directory {
        WorkEntry::File { .. } => Err(VcsError::Io),
        WorkEntry::Dir { children, .. } => Ok(children.len() == 0),
    }
}

/// What a walk meets: an entry's path, whether it is a directory, and a
/// file's contents.
#[derive(Debug, PartialEq, Eq)]
pub struct Walked {
    pub path: String,
    pub is_dir: bool,
    pub data: Vec<u8>,
}

/// A walked entry as plain values.
pub struct WalkedView {
    pub path: Seq<char>,
    pub is_dir: bool,
    pub data: Seq<u8>,
}

impl View for Walked {
    type V = WalkedView;

    open spec fn view(&self) -> WalkedView {
        WalkedView { path: self.path@, is_dir: self.is_dir, data: self.data@ }
    }
}

/// A list of walked entries as plain values.
pub open spec fn walked_view(walked: Seq<Walked>) -> Seq<WalkedView> {
    walked.map_values(|entry: Walked| entry@)
}

/// What a walk of a directory's entries meets, in order: every entry but
/// the control directories, a directory before what is in it. A walk
/// that is not recursive stays in the directory itself.
pub open spec fn spec_walk(
    directory: Seq<char>,
    entries: Seq<EntryView>,
    recursively: bool,
) -> Seq<WalkedView>
    decreases entries, 1nat,
{
    if entries.len() == 0 {
        Seq::empty()
    } else {
        spec_walk(directory, entries.drop_last(), recursively) + spec_walk_entry(
            directory,
            entries.last(),
            recursively,
        )
    }
}

/// What a walk meets at one entry and, if it is recursive, below it.
pub open spec fn spec_walk_entry(
    directory: Seq<char>,
    entry: EntryView,
    recursively: bool,
) -> Seq<WalkedView>
    decreases entry, 0nat,
{
    let path = path_join(directory, entry.name());
    match entry {
        EntryView::File { data, .. } => seq![WalkedView { path, is_dir: false, data }],
        EntryView::Dir { children, .. } => if entry.is_vcs_directory() {
            Seq::empty()
        } else {
            seq![WalkedView { path, is_dir: true, data: Seq::empty() }] + (if recursively {
                spec_walk(path, children, recursively)
            } else {
                Seq::empty()
            })
        },
    }
}

/// The entries of a directory with every control directory, at any depth,
/// taken away.
pub open spec fn spec_without_control(entries: Seq<EntryView>) -> Seq<EntryView>
    decreases entries, 1nat,
{
    if entries.len() == 0 {
        Seq::empty()
    } else {
        spec_without_control(entries.drop_last()) + spec_entry_without_control(entries.last())
    }
}

/// An entry without the control directories in it; nothing where the
/// entry is a control directory itself.
pub open spec fn spec_entry_without_control(entry: EntryView) -> Seq<EntryView>
    decreases entry, 0nat,
{
    match entry {
        EntryView::File { .. } => seq![entry],
        EntryView::Dir { name, children } => if entry.is_vcs_directory() {
            Seq::empty()
        } else {
            seq![EntryView::Dir { name, children: spec_without_control(children) }]
        },
    }
}

/// The walk of two lists of entries, one after the other.
pub proof fn lemma_walk_append(
    directory: Seq<char>,
    first: Seq<EntryView>,
    second: Seq<EntryView>,
    recursively: bool,
)
    ensures
        spec_walk(directory, first + second, recursively) == spec_walk(
            directory,
            first,
            recursively,
        ) + spec_walk(directory, second, recursively),
    decreases second.len(),
{
    if second.len() == 0 {
        assert(first + second =~= first);
        assert(spec_walk(directory, first, recursively) + Seq::<WalkedView>::empty()
            =~= spec_walk(directory, first, recursively));
    } else {
        lemma_walk_append(directory, first, second.drop_last(), recursively);
        assert((first + second).drop_last() =~= first + second.drop_last());
        assert((first + second).last() == second.last());
        let a = spec_walk(directory, first, recursively);
        let b = spec_walk(directory, second.drop_last(), recursively);
        let c = spec_walk_entry(directory, second.last(), recursively);
        assert((a + b) + c =~= a + (b + c));
    }
}

/// What is inside a control directory is never walked: the walk of a
/// directory is the walk of the directory without its control
/// directories, whatever they hold and however deep they lie.
pub proof fn lemma_walk_skips_control(
    directory: Seq<char>,
    entries: Seq<EntryView>,
    recursively: bool,
)
    ensures
        spec_walk(directory, entries, recursively) == spec_walk(
            directory,
            spec_without_control(entries),
            recursively,
        ),
    decreases entries, 1nat,
{
    if entries.len() > 0 {
        lemma_walk_skips_control(directory, entries.drop_last(), recursively);
        lemma_walk_entry_skips_control(directory, entries.last(), recursively);
        lemma_walk_append(
            directory,
            spec_without_control(entries.drop_last()),
            spec_entry_without_control(entries.last()),
            recursively,
        );
    }
}

/// What is inside a control directory below an entry is never walked.
pub proof fn lemma_walk_entry_skips_control(
    directory: Seq<char>,
    entry: EntryView,
    recursively: bool,
)
    ensures
        spec_walk_entry(directory, entry, recursively) == spec_walk(
            directory,
            spec_entry_without_control(entry),
            recursively,
        ),
    decreases entry, 0nat,
{
    let kept = spec_entry_without_control(entry);
    match entry {
        EntryView::File { .. } => {
            assert(kept.drop_last() =~= Seq::<EntryView>::empty());
            assert(kept.last() == entry);
            assert(spec_walk(directory, kept.drop_last(), recursively)
                =~= Seq::<WalkedView>::empty());
            assert(spec_walk(directory, kept, recursively) =~= spec_walk_entry(
                directory,
                entry,
                recursively,
            ));
        },
        EntryView::Dir { name, children } => {
            if !entry.is_vcs_directory() {
                lemma_walk_skips_control(path_join(directory, name), children, recursively);
                let left = EntryView::Dir { name, children: spec_without_control(children) };
                assert(kept.drop_last() =~= Seq::<EntryView>::empty());
                assert(kept.last() == left);
                assert(spec_walk(directory, kept.drop_last(), recursively)
                    =~= Seq::<WalkedView>::empty());
                assert(left.name() == entry.name());
                assert(!left.is_vcs_directory());
                assert(spec_walk_entry(directory, left, recursively) == spec_walk_entry(
                    directory,
                    entry,
                    recursively,
                ));
                assert(spec_walk(directory, kept, recursively) =~= spec_walk_entry(
                    directory,
                    entry,
                    recursively,
                ));
            } else {
                assert(spec_walk(directory, kept, recursively) =~= spec_walk_entry(
                    directory,
                    entry,
                    recursively,
                ));
            }
        },
    }
}

/// Walks a directory's entries and adds what it meets to `out`.
pub fn walk_entries(
    directory: &str,
    entries: &Vec<WorkEntry>,
    recursively: bool,
    out: &mut Vec<Walked>,
)
    ensures
        walked_view(final(out)@) == walked_view(old(out)@) + spec_walk(
            directory@,
            entries_view(entries@),
            recursively,
        ),
    decreases entries,
{
    let ghost all = entries_view(entries@);
    let ghost start = walked_view(out@);
    let mut i: usize = 0;
    assert(all.take(0) =~= Seq::<EntryView>::empty());
    while i < entries.len()
        invariant
            i <= entries.len(),
            all == entries_view(entries@),
            walked_view(out@) == start + spec_walk(directory@, all.take(i as int), recursively),
        decreases entries.len() - i,
    {
        let entry = &entries[i];
        let ghost before = walked_view(out@);
        proof {
            assert(all.take(i + 1).drop_last() =~= all.take(i as int));
            assert(all.take(i + 1).last() == entry@);
        }
        let path = join_path(directory, entry.name().as_str());
        match entry {
            WorkEntry::File { data, .. } => {
                out.push(Walked { path, is_dir: false, data: data.clone() });
                assert(walked_view(out@) =~= before + spec_walk_entry(
                    directory@,
                    entry@,
                    recursively,
                ));
            },
            WorkEntry::Dir { children, .. } => {
                if !is_vcs_directory(entry) {
                    let ghost here = WalkedView { path: path@, is_dir: true, data: Seq::empty() };
                    out.push(Walked { path: copy_text(path.as_str()), is_dir: true,
                        data: Vec::new() });
                    assert(walked_view(out@) =~= before + seq![here]);
                    if recursively {
                        walk_entries(path.as_str(), children, recursively, out);
                    }
                    assert(walked_view(out@) =~= before + spec_walk_entry(
                        directory@,
                        entry@,
                        recursively,
                    ));
                } else {
                    assert(walked_view(out@) =~= before + spec_walk_entry(
                        directory@,
                        entry@,
                        recursively,
                    ));
                }
            },
        }
        i += 1;
    }
    assert(all.take(i as int) =~= all);
}

/// The paths of a walk, in its order.
pub open spec fn walked_paths(walked: Seq<WalkedView>) -> Seq<Seq<char>> {
    walked.map_values(|entry: WalkedView| entry.path)
}

/// The files of a walk, in its order.
pub open spec fn walked_files(walked: Seq<WalkedView>) -> Seq<WalkedView> {
    walked.filter(|entry: WalkedView| !entry.is_dir)
}

/// The texts of a list of strings.
pub open spec fn texts_view(texts: Seq<String>) -> Seq<Seq<char>> {
    texts.map_values(|text: String| text@)
}

/// Returns a list of all entries in the provided directory ignoring .vcs folder
pub fn get_entries(
    directory: &str,
    entries: &Vec<WorkEntry>,
    recursively: bool,
) -> (paths: Vec<String>)
    ensures
        texts_view(paths@) == walked_paths(
            spec_walk(directory@, entries_view(entries@), recursively),
        ),
{
    let mut walked: Vec<Walked> = Vec::new();
    walk_entries(directory, entries, recursively, &mut walked);
    let ghost all = walked_view(walked@);
    assert(all =~= spec_walk(directory@, entries_view(entries@), recursively));
    let mut paths: Vec<String> = Vec::new();
    let mut i: usize = 0;
    while i < walked.len()
        invariant
            i <= walked.len(),
            all == walked_view(walked@),
            paths@.len() == i,
            forall|k: int| 0 <= k < i ==> (#[trigger] paths@[k])@ == all[k].path,
        decreases walked.len() - i,
    {
        paths.push(copy_text(walked[i].path.as_str()));
        i += 1;
    }
    assert(texts_view(paths@) =~= walked_paths(all));
    paths
}

/// Returns a list of all files in the provided directory ignoring .vcs folder
pub fn get_all_files(
    directory: &str,
    entries: &Vec<WorkEntry>,
    recursively: bool,
) -> (paths: Vec<String>)
    ensures
        texts_view(paths@) == walked_paths(
            walked_files(spec_walk(directory@, entries_view(entries@), recursively)),
        ),
{
    let files = get_files(directory, entries, recursively);
    let ghost all = walked_view(files@);
    let mut paths: Vec<String> = Vec::new();
    let mut i: usize = 0;
    while i < files.len()
        invariant
            i <= files.len(),
            all == walked_view(files@),
            paths@.len() == i,
            forall|k: int| 0 <= k < i ==> (#[trigger] paths@[k])@ == all[k].path,
        decreases files.len() - i,
    {
        paths.push(copy_text(files[i].path.as_str()));
        i += 1;
    }
    assert(texts_view(paths@) =~= walked_paths(all));
    paths
}

/// The files of a directory, each with its path and its contents, in the
/// order of the walk.
pub fn get_files(
    directory: &str,
    entries: &Vec<WorkEntry>,
    recursively: bool,
) -> (files: Vec<Walked>)
    ensures
        walked_view(files@) == walked_files(
            spec_walk(directory@, entries_view(entries@), recursively),
        ),
{
    let mut walked: Vec<Walked> = Vec::new();
    walk_entries(directory, entries, recursively, &mut walked);
    let ghost all = walked_view(walked@);
    assert(all =~= spec_walk(directory@, entries_view(entries@), recursively));
    let mut files: Vec<Walked> = Vec::new();
    let mut i: usize = 0;
    assert(all.take(0) =~= Seq::<WalkedView>::empty());
    while i < walked.len()
        invariant
            i <= walked.len(),
            all == walked_view(walked@),
            walked_view(files@) == walked_files(all.take(i as int)),
        decreases walked.len() - i,
    {
        let ghost before = walked_view(files@);
        proof {
            assert(all.take(i + 1).drop_last() =~= all.take(i as int));
            assert(all.take(i + 1).last() == walked@[i as int]@);
            reveal(Seq::filter);
        }
        if !walked[i].is_dir {
            files.push(
                Walked {
                    path: copy_text(walked[i].path.as_str()),
                    is_dir: false,
                    data: walked[i].data.clone(),
                },
            );
            assert(walked_view(files@) =~= before.push(walked@[i as int]@));
        }
        i += 1;
    }
    assert(all.take(i as int) =~= all);
    files
}

// ------------------------------------------------ reading and writing

/// The position of the first entry with the given name.
pub open spec fn find_entry(entries: Seq<EntryView>, name: Seq<char>) -> Option<int>
    decreases entries.len(),
{
    if entries.len() == 0 {
        None
    } else {
        match find_entry(entries.drop_last(), name) {
            Some(i) => Some(i),
            None => if entries.last().name() == name {
                Some(entries.len() - 1)
            } else {
                None
            },
        }
    }
}

/// `find_entry` gives a position of the list whose entry has the name.
pub proof fn lemma_find_entry(entries: Seq<EntryView>, name: Seq<char>)
    ensures
        match find_entry(entries, name) {
            Some(i) => 0 <= i < entries.len() && entries[i].name() == name,
            None => forall|k: int| 0 <= k < entries.len()
                ==> (#[trigger] entries[k]).name() != name,
        },
    decreases entries.len(),
{
    if entries.len() > 0 {
        lemma_find_entry(entries.drop_last(), name);
        assert forall|k: int| 0 <= k < entries.len() - 1 implies entries.drop_last()[k]
            == entries[k] by {}
    }
}

/// A match found in a prefix is the match found in the whole list.
pub proof fn lemma_find_entry_prefix(entries: Seq<EntryView>, n: int, name: Seq<char>)
    requires
        0 <= n <= entries.len(),
        find_entry(entries.take(n), name) is Some,
    ensures
        find_entry(entries, name) == find_entry(entries.take(n), name),
    decreases entries.len() - n,
{
    if n < entries.len() {
        assert(entries.take(n + 1).drop_last() =~= entries.take(n));
        lemma_find_entry_prefix(entries, n + 1, name);
    } else {
        assert(entries.take(n) =~= entries);
    }
}

/// The file, with the directories above it, that a path stands for where
/// nothing of it exists yet.
pub open spec fn spec_new_entry(parts: Seq<Seq<char>>, data: Seq<u8>) -> EntryView
    decreases parts.len(),
{
    if parts.len() <= 1 {
        EntryView::File { name: parts[0], data }
    } else {
        EntryView::Dir { name: parts[0], children: seq![spec_new_entry(parts.drop_first(), data)] }
    }
}

/// The entries of a directory after a file is written at the path made of
/// `parts`: the file's contents are replaced, or the file is made
/// together with the directories that are missing above it. `None` where
/// the path names a directory, or leads through a file.
pub open spec fn spec_write_at(
    entries: Seq<EntryView>,
    parts: Seq<Seq<char>>,
    data: Seq<u8>,
) -> Option<Seq<EntryView>>
    decreases parts.len(),
{
    if parts.len() == 0 {
        None
    } else {
        match find_entry(entries, parts[0]) {
            Some(i) => match entries[i] {
                EntryView::File { name, .. } => if parts.len() == 1 {
                    Some(entries.update(i, EntryView::File { name, data }))
                } else {
                    None
                },
                EntryView::Dir { name, children } => if parts.len() == 1 {
                    None
                } else {
                    match spec_write_at(children, parts.drop_first(), data) {
                        Some(children) => Some(
                            entries.update(i, EntryView::Dir { name, children }),
                        ),
                        None => None,
                    }
                },
            },
            None => Some(entries.push(spec_new_entry(parts, data))),
        }
    }
}

/// The contents of the file at the path made of `parts`, if there is one.
pub open spec fn spec_read_at(entries: Seq<EntryView>, parts: Seq<Seq<char>>) -> Option<Seq<u8>>
    decreases parts.len(),
{
    if parts.len() == 0 {
        None
    } else {
        match find_entry(entries, parts[0]) {
            Some(i) => match entries[i] {
                EntryView::File { data, .. } => if parts.len() == 1 {
                    Some(data)
                } else {
                    None
                },
                EntryView::Dir { children, .. } => if parts.len() == 1 {
                    None
                } else {
                    spec_read_at(children, parts.drop_first())
                },
            },
            None => None,
        }
    }
}

fn entry_position(entries: &Vec<WorkEntry>, name: &str) -> (found: Option<usize>)
    ensures
        match found {
            Some(i) => find_entry(entries_view(entries@), name@) == Some(i as int) && i
                < entries@.len(),
            None => find_entry(entries_view(entries@), name@) is None,
        },
{
    let ghost all = entries_view(entries@);
    let mut i: usize = 0;
    assert(all.take(0) =~= Seq::<EntryView>::empty());
    while i < entries.len()
        invariant
            i <= entries.len(),
            all == entries_view(entries@),
            find_entry(all.take(i as int), name@) is None,
        decreases entries.len() - i,
    {
        proof {
            assert(all.take(i + 1).drop_last() =~= all.take(i as int));
            assert(all.take(i + 1).last() == entries@[i as int]@);
        }
        if text_eq(entries[i].name().as_str(), name) {
            proof {
                lemma_find_entry_prefix(all, i + 1, name@);
            }
            return Some(i);
        }
        i += 1;
    }
    assert(all.take(i as int) =~= all);
    None
}

fn new_entry(parts: &Vec<String>, from: usize, data: &Vec<u8>) -> (entry: WorkEntry)
    requires
        from < parts@.len(),
    ensures
        entry@ == spec_new_entry(texts_view(parts@).skip(from as int), data@),
    decreases parts@.len() - from,
{
    let ghost rest = texts_view(parts@).skip(from as int);
    assert(rest[0] == parts@[from as int]@);
    let name = copy_text(parts[from].as_str());
    if from == parts.len() - 1 {
        WorkEntry::File { name, data: data.clone() }
    } else {
        assert(rest.drop_first() =~= texts_view(parts@).skip(from + 1));
        let inner = new_entry(parts, from + 1, data);
        let mut children: Vec<WorkEntry> = Vec::new();
        children.push(inner);
        let entry = WorkEntry::Dir { name, children };
        assert(entries_view(children@) =~= seq![inner@]);
        entry
    }
}

fn write_at(
    entries: Vec<WorkEntry>,
    parts: &Vec<String>,
    from: usize,
    data: &Vec<u8>,
) -> (written: (Vec<WorkEntry>, bool))
    requires
        from < parts@.len(),
    ensures
        match spec_write_at(
            entries_view(entries@),
            texts_view(parts@).skip(from as int),
            data@,
        ) {
            Some(after) => written.1 && entries_view(written.0@) == after,
            None => !written.1 && entries_view(written.0@) == entries_view(entries@),
        },
    decreases parts@.len() - from,
{
    let mut entries = entries;
    let ghost before = entries_view(entries@);
    let ghost rest = texts_view(parts@).skip(from as int);
    assert(rest[0] == parts@[from as int]@);
    assert(rest.drop_first() =~= texts_view(parts@).skip(from + 1));
    let last = from == parts.len() - 1;
    match entry_position(&entries, parts[from].as_str()) {
        Some(i) => {
            let entry = entries.remove(i);
            assert(entry@ == before[i as int]);
            match entry {
                WorkEntry::File { name, data: old } => {
                    if last {
                        let ghost changed = EntryView::File { name: name@, data: data@ };
                        entries.insert(i, WorkEntry::File { name, data: data.clone() });
                        assert(entries_view(entries@) =~= before.update(i as int, changed));
                        (entries, true)
                    } else {
                        entries.insert(i, WorkEntry::File { name, data: old });
                        assert(entries_view(entries@) =~= before);
                        (entries, false)
                    }
                },
                WorkEntry::Dir { name, children } => {
                    if last {
                        entries.insert(i, WorkEntry::Dir { name, children });
                        assert(entries_view(entries@) =~= before);
                        (entries, false)
                    } else {
                        let (children, ok) = write_at(children, parts, from + 1, data);
                        let ghost changed = EntryView::Dir {
                            name: name@,
                            children: entries_view(children@),
                        };
                        entries.insert(i, WorkEntry::Dir { name, children });
                        if ok {
                            assert(entries_view(entries@) =~= before.update(i as int, changed));
                        } else {
                            assert(entries_view(entries@) =~= before);
                        }
                        (entries, ok)
                    }
                },
            }
        },
        None => {
            let entry = new_entry(parts, from, data);
            entries.push(entry);
            assert(entries_view(entries@) =~= before.push(entry@));
            (entries, true)
        },
    }
}

fn read_at<'a>(
    entries: &'a Vec<WorkEntry>,
    parts: &Vec<String>,
    from: usize,
) -> (data: Option<&'a Vec<u8>>)
    requires
        from < parts@.len(),
    ensures
        match data {
            Some(data) => spec_read_at(
                entries_view(entries@),
                texts_view(parts@).skip(from as int),
            ) == Some(data@),
            None => spec_read_at(entries_view(entries@), texts_view(parts@).skip(from as int))
                is None,
        },
    decreases parts@.len() - from,
{
    let ghost rest = texts_view(parts@).skip(from as int);
    assert(rest[0] == parts@[from as int]@);
    assert(rest.drop_first() =~= texts_view(parts@).skip(from + 1));
    let last = from == parts.len() - 1;
    match entry_position(entries, parts[from].as_str()) {
        Some(i) => match &entries[i] {
            WorkEntry::File { data, .. } => if last {
                Some(data)
            } else {
                None
            },
            WorkEntry::Dir { children, .. } => if last {
                None
            } else {
                read_at(children, parts, from + 1)
            },
        },
        None => None,
    }
}

/// The working tree: the root's path and the entries of the root.
#[derive(Debug, PartialEq, Eq)]
pub struct WorkTree {
    root: String,
    entries: Vec<WorkEntry>,
}

/// A working tree as plain values.
pub struct WorkTreeView {
    pub root: Seq<char>,
    pub entries: Seq<EntryView>,
}

impl View for WorkTree {
    type V = WorkTreeView;

    closed spec fn view(&self) -> WorkTreeView {
        WorkTreeView { root: self.root@, entries: entries_view(self.entries@) }
    }
}

/// The parts of `path` below the root, where it lies below the root.
pub open spec fn parts_below(root: Seq<char>, path: Seq<char>) -> Option<Seq<Seq<char>>> {
    if path_under(root, path) {
        Some(path_components(path_relative(root, path)))
    } else {
        None
    }
}

/// The entries of the root after a file is written at `path`; `None` where
/// the path is not below the root, names a directory, or leads through a
/// file.
pub open spec fn spec_write_file(
    tree: WorkTreeView,
    path: Seq<char>,
    data: Seq<u8>,
) -> Option<Seq<EntryView>> {
    match parts_below(tree.root, path) {
        Some(parts) => spec_write_at(tree.entries, parts, data),
        None => None,
    }
}

/// The contents of the file at `path`, if there is one.
pub open spec fn spec_read_file(tree: WorkTreeView, path: Seq<char>) -> Option<Seq<u8>> {
    match parts_below(tree.root, path) {
        Some(parts) => spec_read_at(tree.entries, parts),
        None => None,
    }
}

impl WorkTree {
    /// The root is an absolute path.
    #[verifier::type_invariant]
    closed spec fn inv(&self) -> bool {
        is_absolute(self.root@)
    }

    /// A working tree with the given root and no entry.
    pub fn new(root: String) -> (tree: Self)
        requires
            is_absolute(root@),
        ensures
            tree@ == (WorkTreeView { root: root@, entries: Seq::empty() }),
    {
        let tree = WorkTree { root, entries: Vec::new() };
        assert(tree@.entries =~= Seq::<EntryView>::empty());
        tree
    }

    /// A working tree with the given root and entries; `None` where the
    /// root is not an absolute path.
    pub fn from_entries(root: String, entries: Vec<WorkEntry>) -> (tree: Option<Self>)
        ensures
            match tree {
                Some(tree) => is_absolute(root@) && tree@ == (WorkTreeView {
                    root: root@,
                    entries: entries_view(entries@),
                }),
                None => !is_absolute(root@),
            },
    {
        if path_is_absolute(root.as_str()) {
            Some(WorkTree { root, entries })
        } else {
            None
        }
    }

    /// The path of the root.
    pub fn root(&self) -> (root: &String)
        ensures
            root@ == self@.root,
            is_absolute(root@),
    {
        proof {
            use_type_invariant(self);
        }
        &self.root
    }

    /// The entries of the root.
    pub fn entries(&self) -> (entries: &Vec<WorkEntry>)
        ensures
            entries_view(entries@) == self@.entries,
    {
        &self.entries
    }

    /// Puts other entries in the place of the root's.
    pub fn set_entries(&mut self, entries: Vec<WorkEntry>)
        ensures
            final(self)@
                == (WorkTreeView { root: old(self)@.root, entries: entries_view(entries@) }),
    {
        proof {
            use_type_invariant(&*self);
        }
        self.entries = entries;
    }

    /// Takes the root's entries out and leaves none.
    pub fn take_entries(&mut self) -> (entries: Vec<WorkEntry>)
        ensures
            entries_view(entries@) == old(self)@.entries,
            final(self)@ == (WorkTreeView { root: old(self)@.root, entries: Seq::empty() }),
    {
        proof {
            use_type_invariant(&*self);
        }
        let mut entries: Vec<WorkEntry> = Vec::new();
        core::mem::swap(&mut self.entries, &mut entries);
        assert(self@.entries =~= Seq::<EntryView>::empty());
        entries
    }

    /// Adds an entry at the end of the root's entries.
    pub fn add_entry(&mut self, entry: WorkEntry)
        ensures
            final(self)@ == (WorkTreeView {
                root: old(self)@.root,
                entries: old(self)@.entries.push(entry@),
            }),
    {
        proof {
            use_type_invariant(&*self);
        }
        let mut entries: Vec<WorkEntry> = Vec::new();
        core::mem::swap(&mut self.entries, &mut entries);
        entries.push(entry);
        assert(entries_view(entries@) =~= old(self)@.entries.push(entry@));
        self.entries = entries;
    }
}

/// The parts of a path below the root of a working tree.
fn parts_of(root: &str, path: &str) -> (parts: Option<Vec<String>>)
    requires
        is_absolute(root@),
    ensures
        match parts {
            Some(parts) => parts_below(root@, path@) == Some(texts_view(parts@)),
            None => parts_below(root@, path@) is None,
        },
{
    if !is_path_under(root, path) {
        return None;
    }
    let n = root.unicode_len();
    let m = path.unicode_len();
    let parts = if m > n {
        split_path(path.substring_char(n + 1, m))
    } else {
        assert(path_relative(root@, path@) =~= Seq::<char>::empty());
        split_path("")
    };
    proof {
        if m <= n {
            reveal_strlit("");
            assert(""@ =~= Seq::<char>::empty());
        }
        assert(texts_view(parts@) =~= path_components(path_relative(root@, path@)));
    }
    Some(parts)
}

/// The contents of the file at a path of the working tree.
pub fn read_file(tree: &WorkTree, path: &str) -> (data: VcsResult<Vec<u8>>)
    ensures
        match data {
            Ok(data) => spec_read_file(tree@, path@) == Some(data@),
            Err(error) => spec_read_file(tree@, path@) is None && error@ == ErrorView::Io,
        },
{
    let parts = match parts_of(tree.root().as_str(), path) {
        Some(parts) => parts,
        None => {
            return Err(VcsError::Io);
        },
    };
    if parts.len() == 0 {
        return Err(VcsError::Io);
    }
    assert(texts_view(parts@).skip(0) =~= texts_view(parts@));
    match read_at(tree.entries(), &parts, 0) {
        Some(data) => Ok(data.clone()),
        None => Err(VcsError::Io),
    }
}

/// Writes a file at a path of the working tree, together with the
/// directories that are missing above it. A write that fails changes
/// nothing.
pub fn write_file(tree: &mut WorkTree, path: &str, data: &Vec<u8>) -> (done: VcsResult<()>)
    ensures
        final(tree)@.root == old(tree)@.root,
        match done {
            Ok(_) => spec_write_file(old(tree)@, path@, data@) == Some(final(tree)@.entries),
            Err(error) => spec_write_file(old(tree)@, path@, data@) is None && error@
                == ErrorView::Io && final(tree)@ == old(tree)@,
        },
{
    let parts = match parts_of(tree.root().as_str(), path) {
        Some(parts) => parts,
        None => {
            return Err(VcsError::Io);
        },
    };
    if parts.len() == 0 {
        return Err(VcsError::Io);
    }
    assert(texts_view(parts@).skip(0) =~= texts_view(parts@));
    let entries = tree.take_entries();
    let (entries, ok) = write_at(entries, &parts, 0, data);
    tree.set_entries(entries);
    if ok {
        Ok(())
    } else {
        Err(VcsError::Io)
    }
}

} // verus!
