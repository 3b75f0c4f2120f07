//! The walk through the installation directory that the legacy update
//! makes before it deletes the installed version: breadth first, directory
//! by directory, leaving alone what the update must keep.
//!
//! The caller lists each directory that the walk names; the walk gathers
//! the files to delete and the directories to remove.

use crate::layout::{
    entry_views, join, joined, legacy_keeps, legacy_keeps_entry, DirEntry, EntryKind, EntryView,
};
use crate::text::{lemma_texts_push, same_text, texts};
use std::collections::VecDeque;
use vstd::prelude::*;

verus! {

/// What a walk holds.
pub ghost struct WalkView {
    /// The installation directory.
    pub root: Seq<char>,
    /// The name of the directory that holds the update.
    pub update_folder: Seq<char>,
    /// The directories that are still to be listed, the next one first.
    pub queue: Seq<Seq<char>>,
    /// The directories of the root, which are removed once the files are
    /// gone.
    pub top_directories: Seq<Seq<char>>,
    /// The files to delete.
    pub files: Seq<Seq<char>>,
}

/// The walk once the entry `entry` of the directory `dir` has been looked
/// at: an entry of the root that the update keeps is passed over; a
/// directory is queued, and noted where it is one of the root; a file is
/// noted for deletion.
pub open spec fn seen(walk: WalkView, dir: Seq<char>, entry: EntryView) -> WalkView {
    let path = joined(dir, entry.name);
    if dir == walk.root && legacy_keeps(entry.name, walk.update_folder) {
        walk
    } else {
        match entry.kind {
            EntryKind::Dir => WalkView {
                queue: walk.queue.push(path),
                top_directories: if dir == walk.root {
                    walk.top_directories.push(path)
                } else {
                    walk.top_directories
                },
                ..walk
            },
            EntryKind::File => WalkView { files: walk.files.push(path), ..walk },
            EntryKind::Other => walk,
        }
    }
}

/// The walk once all of `entries` of the directory `dir` have been looked
/// at, in order.
pub open spec fn visited(walk: WalkView, dir: Seq<char>, entries: Seq<EntryView>) -> WalkView
    decreases entries.len(),
{
    if entries.len() == 0 {
        walk
    } else {
        seen(visited(walk, dir, entries.drop_last()), dir, entries.last())
    }
}

/// The walk through an installation directory.
pub struct TreeWalk {
    root: String,
    update_folder: String,
    queue: VecDeque<String>,
    top_directories: Vec<String>,
    files: Vec<String>,
}

impl View for TreeWalk {
    type V = WalkView;

    closed spec fn view(&self) -> WalkView {
        WalkView {
            root: self.root@,
            update_folder: self.update_folder@,
            queue: texts(self.queue@),
            top_directories: texts(self.top_directories@),
            files: texts(self.files@),
        }
    }
}

impl TreeWalk {
    /// A walk that begins at `root` and keeps the directory
    /// `update_folder` of the root.
    pub fn new(root: &str, update_folder: &str) -> (walk: TreeWalk)
        ensures
            walk@ == (WalkView {
                root: root@,
                update_folder: update_folder@,
                queue: seq![root@],
                top_directories: Seq::empty(),
                files: Seq::empty(),
            }),
    {
        let mut queue: VecDeque<String> = VecDeque::new();
        queue.push_back(root.to_owned());
        let walk = TreeWalk {
            root: root.to_owned(),
            update_folder: update_folder.to_owned(),
            queue,
            top_directories: Vec::new(),
            files: Vec::new(),
        };
        proof {
            assert(texts(walk.queue@) =~= seq![root@]);
            assert(texts(walk.top_directories@) =~= Seq::<Seq<char>>::empty());
            assert(texts(walk.files@) =~= Seq::<Seq<char>>::empty());
        }
        walk
    }

    /// The directory to list next, or `None` where the walk is over. The
    /// directories come in the order in which they were found.
    pub fn next_directory(&mut self) -> (dir: Option<String>)
        ensures
            match dir {
                Some(dir) => old(self)@.queue.len() > 0 && dir@ == old(self)@.queue[0]
                    && final(self)@ == (WalkView { queue: old(self)@.queue.skip(1), ..old(self)@ }),
                None => old(self)@.queue.len() == 0 && final(self)@ == old(self)@,
            },
    {
        let ghost before = self.queue@;
        let dir = self.queue.pop_front();
        proof {
            if before.len() > 0 {
                assert(texts(before.subrange(1, before.len() as int)) =~= texts(before).skip(1));
            }
        }
        dir
    }

    /// Takes note of the entries of the directory `dir`.
    pub fn visit(&mut self, dir: &str, entries: &Vec<DirEntry>)
        ensures
            final(self)@ == visited(old(self)@, dir@, entry_views(entries@)),
    {
        let at_root = same_text(dir, self.root.as_str());
        let mut i: usize = 0;
        while i < entries.len()
            invariant
                i <= entries@.len(),
                at_root == (dir@ == self@.root),
                self@ == visited(old(self)@, dir@, entry_views(entries@).take(i as int)),
            decreases entries@.len() - i,
        {
            let ghost before = self@;
            proof {
                let next = entry_views(entries@).take(i + 1);
                assert(next.drop_last() =~= entry_views(entries@).take(i as int));
                assert(next.last() == entries@[i as int]@);
            }
            let entry = &entries[i];
            let name = entry.name.as_str();
            if !(at_root && legacy_keeps_entry(name, self.update_folder.as_str())) {
                match entry.kind {
                    EntryKind::Dir => {
                        let path = join(dir, name);
                        if at_root {
                            let top = path.clone();
                            proof {
                                lemma_texts_push(self.top_directories@, top);
                            }
                            self.top_directories.push(top);
                        }
                        proof {
                            lemma_texts_push(self.queue@, path);
                        }
                        self.queue.push_back(path);
                    },
                    EntryKind::File => {
                        let path = join(dir, name);
                        proof {
                            lemma_texts_push(self.files@, path);
                        }
                        self.files.push(path);
                    },
                    EntryKind::Other => {},
                }
            }
            proof {
                assert(self@ == seen(before, dir@, entries@[i as int]@));
            }
            i = i + 1;
        }
        proof {
            assert(entry_views(entries@).take(i as int) =~= entry_views(entries@));
        }
    }

    /// The files to delete, in the order in which they were found.
    pub fn files(&self) -> (files: &Vec<String>)
        ensures
            texts(files@) == self@.files,
    {
        &self.files
    }

    /// The directories of the root to remove once the files are gone.
    pub fn top_directories(&self) -> (dirs: &Vec<String>)
        ensures
            texts(dirs@) == self@.top_directories,
    {
        &self.top_directories
    }
}

/// What is done with a directory that is to be removed.
#[derive(Clone, Copy, Debug, PartialEq, Eq, Structural)]
pub enum DirRemoval {
    /// The directory is gone already: this counts as a success.
    AlreadyGone,
    /// Remove the directory and all it holds.
    Remove,
}

/// What is done with a directory that is to be removed, where `present`
/// says whether it is still there.
pub fn dir_removal(present: bool) -> (r: DirRemoval)
    ensures
        present ==> r == DirRemoval::Remove,
        !present ==> r == DirRemoval::AlreadyGone,
{
    if present {
        DirRemoval::Remove
    } else {
        DirRemoval::AlreadyGone
    }
}

} // verus!
