//! A snapshot of the managed part of a configuration directory.
//!
//! The engine never touches the filesystem.  The caller reads the root
//! directory into a [`FileStore`] — each managed file as a path/content
//! pair, and the names of the immediate subdirectories of `boards/` — and
//! the engine works on that value.  The mutating methods mirror what a
//! rename plan does to the directory, so that the effect of a plan can be
//! stated and tested without any filesystem.

use vstd::prelude::*;
use vstd::string::*;
use crate::text::{
    replace_prefix, spec_board_dir, spec_replace_prefix, spec_starts_with, str_eq, str_starts_with,
    board_dir,
};

verus! {

/// A snapshot of the managed files under one configuration root.
#[derive(Debug, Clone)]
pub struct FileStore {
    /// Path/content pairs, paths relative to the root.
    pub files: Vec<(String, String)>,
    /// Names of the immediate subdirectories of `boards/`.
    pub board_dirs: Vec<String>,
}

/// Mathematical mirror of [`FileStore`].
pub ghost struct FileStoreV {
    pub files: Seq<(Seq<char>, Seq<char>)>,
    pub board_dirs: Seq<Seq<char>>,
}

impl DeepView for FileStore {
    type V = FileStoreV;

    open spec fn deep_view(&self) -> FileStoreV {
        FileStoreV { files: self.files.deep_view(), board_dirs: self.board_dirs.deep_view() }
    }
}

/// The content at `path`: that of the first pair carrying it.
pub open spec fn spec_file_at(files: Seq<(Seq<char>, Seq<char>)>, path: Seq<char>) -> Option<
    Seq<char>,
>
    decreases files.len(),
{
    if files.len() == 0 {
        None
    } else if files[0].0 == path {
        Some(files[0].1)
    } else {
        spec_file_at(files.drop_first(), path)
    }
}

impl FileStore {
    /// An empty snapshot.
    pub fn new() -> (r: FileStore)
        ensures
            r.deep_view().files.len() == 0,
            r.deep_view().board_dirs.len() == 0,
    {
        FileStore { files: Vec::new(), board_dirs: Vec::new() }
    }

    /// Records the content of one file.
    pub fn add_file(&mut self, path: String, content: String)
        ensures
            final (self).deep_view().files == old(self).deep_view().files.push(
                (path@, content@),
            ),
            final (self).deep_view().board_dirs == old(self).deep_view().board_dirs,
    {
        self.files.push((path, content));
    }

    /// Records one immediate subdirectory of `boards/`.
    pub fn add_board_dir(&mut self, name: String)
        ensures
            final (self).deep_view().files == old(self).deep_view().files,
            final (self).deep_view().board_dirs == old(self).deep_view().board_dirs.push(name@),
    {
        self.board_dirs.push(name);
    }

    /// The content stored at `path`, if any.
    pub fn file_at(&self, path: &str) -> (r: Option<&String>)
        ensures
            match r {
                Some(c) => spec_file_at(self.deep_view().files, path@) == Some(c@),
                None => spec_file_at(self.deep_view().files, path@) is None,
            },
    {
        let ghost fs: Seq<(Seq<char>, Seq<char>)> = self.deep_view().files;
        proof {
            assert(fs.skip(0) =~= fs);
        }
        let mut i: usize = 0;
        while i < self.files.len()
            invariant
                i <= self.files.len(),
                fs == self.deep_view().files,
                fs.len() == self.files@.len(),
                forall|k: int| 0 <= k < fs.len() ==> fs[k] == ((#[trigger] self.files@[k]).0@,
                    self.files@[k].1@),
                spec_file_at(fs, path@) == spec_file_at(fs.skip(i as int), path@),
            decreases self.files.len() - i,
        {
            proof {
                assert(fs.skip(i as int)[0] == fs[i as int]);
                assert(fs.skip(i as int).drop_first() =~= fs.skip(i + 1));
            }
            if str_eq(self.files[i].0.as_str(), path) {
                return Some(&self.files[i].1);
            }
            i = i + 1;
        }
        proof {
            assert(fs.skip(self.files@.len() as int) =~= Seq::<(Seq<char>, Seq<char>)>::empty());
        }
        None
    }

    /// Whether a file is stored at `path`.
    pub fn file_exists(&self, path: &str) -> (r: bool)
        ensures
            r == (spec_file_at(self.deep_view().files, path@) is Some),
    {
        match self.file_at(path) {
            Some(_) => true,
            None => false,
        }
    }

    /// Whether `boards/<name>` is a directory in the snapshot.
    pub fn board_dir_exists(&self, name: &str) -> (r: bool)
        ensures
            r == self.deep_view().board_dirs.contains(name@),
    {
        let ghost ds: Seq<Seq<char>> = self.deep_view().board_dirs;
        let mut i: usize = 0;
        while i < self.board_dirs.len()
            invariant
                i <= self.board_dirs.len(),
                ds == self.deep_view().board_dirs,
                ds.len() == self.board_dirs@.len(),
                forall|k: int| 0 <= k < ds.len() ==> ds[k] == (#[trigger] self.board_dirs@[k])@,
                forall|k: int| 0 <= k < i ==> ds[k] != name@,
            decreases self.board_dirs.len() - i,
        {
            if str_eq(self.board_dirs[i].as_str(), name) {
                return true;
            }
            i = i + 1;
        }
        proof {
            assert forall|k: int| 0 <= k < ds.len() implies ds[k] != name@ by {}
        }
        false
    }
}

/// A path moved by a board directory rename: where it lies under the old
/// board's directory, the prefix becomes the new board's directory.
pub open spec fn spec_moved_path(p: Seq<char>, old_name: Seq<char>, new_name: Seq<char>) -> Seq<
    char,
> {
    let pre = spec_board_dir(old_name) + seq!['/'];
    if spec_starts_with(p, pre) {
        spec_board_dir(new_name) + seq!['/'] + p.skip(pre.len() as int)
    } else {
        p
    }
}

impl FileStore {
    /// Renames the board directory `boards/<old_name>` to
    /// `boards/<new_name>`: the directory entry changes its name and every
    /// file under the old directory moves with it.
    pub fn rename_board_dir(&mut self, old_name: &str, new_name: &str)
        ensures
            final (self).deep_view().files.len() == old(self).deep_view().files.len(),
            forall|i: int|
                0 <= i < old(self).deep_view().files.len() ==> final (self).deep_view().files[i]
                    == (
                    spec_moved_path(
                        (#[trigger] old(self).deep_view().files[i]).0,
                        old_name@,
                        new_name@,
                    ),
                    old(self).deep_view().files[i].1,
                ),
            final (self).deep_view().board_dirs.len() == old(self).deep_view().board_dirs.len(),
            forall|i: int|
                0 <= i < old(self).deep_view().board_dirs.len()
                    ==> final (self).deep_view().board_dirs[i] == (if (#[trigger] old(
                    self,
                ).deep_view().board_dirs[i]) == old_name@ {
                    new_name@
                } else {
                    old(self).deep_view().board_dirs[i]
                }),
    {
        let ghost fs0: Seq<(Seq<char>, Seq<char>)> = self.deep_view().files;
        let ghost ds0: Seq<Seq<char>> = self.deep_view().board_dirs;
        let mut pre = board_dir(old_name);
        pre.append("/");
        proof {
            reveal_strlit("/");
            assert(pre@ =~= spec_board_dir(old_name@) + seq!['/']);
        }
        let new_dir = board_dir(new_name);
        let mut files: Vec<(String, String)> = Vec::new();
        let mut i: usize = 0;
        while i < self.files.len()
            invariant
                i <= self.files.len(),
                fs0 == self.deep_view().files,
                fs0.len() == self.files@.len(),
                pre@ == spec_board_dir(old_name@) + seq!['/'],
                new_dir@ == spec_board_dir(new_name@),
                files.deep_view().len() == i,
                forall|k: int|
                    0 <= k < i ==> files.deep_view()[k] == (
                        spec_moved_path((#[trigger] fs0[k]).0, old_name@, new_name@),
                        fs0[k].1,
                    ),
            decreases self.files.len() - i,
        {
            let ghost f0: Seq<(Seq<char>, Seq<char>)> = files.deep_view();
            proof {
                assert(fs0[i as int] == (self.files@[i as int].0@, self.files@[i as int].1@));
            }
            if str_starts_with(self.files[i].0.as_str(), pre.as_str()) {
                let mut np = new_dir.clone();
                np.append("/");
                let tail = replace_prefix(self.files[i].0.as_str(), pre.unicode_len(), "");
                np.append(tail.as_str());
                proof {
                    reveal_strlit("/");
                    reveal_strlit("");
                    assert(np@ =~= spec_moved_path(fs0[i as int].0, old_name@, new_name@));
                }
                files.push((np, self.files[i].1.clone()));
            } else {
                files.push((self.files[i].0.clone(), self.files[i].1.clone()));
            }
            proof {
                assert(files.deep_view() =~= f0.push(
                    (spec_moved_path(fs0[i as int].0, old_name@, new_name@), fs0[i as int].1),
                ));
            }
            i = i + 1;
        }
        let mut dirs: Vec<String> = Vec::new();
        let mut j: usize = 0;
        while j < self.board_dirs.len()
            invariant
                j <= self.board_dirs.len(),
                ds0 == self.deep_view().board_dirs,
                ds0.len() == self.board_dirs@.len(),
                dirs.deep_view().len() == j,
                forall|k: int|
                    0 <= k < j ==> dirs.deep_view()[k] == (if (#[trigger] ds0[k]) == old_name@ {
                        new_name@
                    } else {
                        ds0[k]
                    }),
            decreases self.board_dirs.len() - j,
        {
            let ghost d0: Seq<Seq<char>> = dirs.deep_view();
            proof {
                assert(ds0[j as int] == self.board_dirs@[j as int]@);
            }
            if str_eq(self.board_dirs[j].as_str(), old_name) {
                dirs.push(new_name.to_owned());
            } else {
                dirs.push(self.board_dirs[j].clone());
            }
            proof {
                assert(dirs.deep_view() =~= d0.push(
                    if ds0[j as int] == old_name@ {
                        new_name@
                    } else {
                        ds0[j as int]
                    },
                ));
            }
            j = j + 1;
        }
        self.files = files;
        self.board_dirs = dirs;
    }

    /// Renames one file: every entry at the old path takes the new path;
    /// contents and order stay.
    pub fn rename_file(&mut self, from: &str, to: &str)
        ensures
            final (self).deep_view().board_dirs == old(self).deep_view().board_dirs,
            final (self).deep_view().files.len() == old(self).deep_view().files.len(),
            forall|i: int|
                0 <= i < old(self).deep_view().files.len() ==> final (self).deep_view().files[i]
                    == (
                    if (#[trigger] old(self).deep_view().files[i]).0 == from@ {
                        to@
                    } else {
                        old(self).deep_view().files[i].0
                    },
                    old(self).deep_view().files[i].1,
                ),
    {
        let ghost fs0: Seq<(Seq<char>, Seq<char>)> = self.deep_view().files;
        let mut files: Vec<(String, String)> = Vec::new();
        let mut i: usize = 0;
        while i < self.files.len()
            invariant
                i <= self.files.len(),
                fs0 == self.deep_view().files,
                fs0.len() == self.files@.len(),
                files.deep_view().len() == i,
                forall|k: int|
                    0 <= k < i ==> files.deep_view()[k] == (
                        if (#[trigger] fs0[k]).0 == from@ {
                            to@
                        } else {
                            fs0[k].0
                        },
                        fs0[k].1,
                    ),
            decreases self.files.len() - i,
        {
            let ghost f0: Seq<(Seq<char>, Seq<char>)> = files.deep_view();
            proof {
                assert(fs0[i as int] == (self.files@[i as int].0@, self.files@[i as int].1@));
            }
            if str_eq(self.files[i].0.as_str(), from) {
                files.push((to.to_owned(), self.files[i].1.clone()));
            } else {
                files.push((self.files[i].0.clone(), self.files[i].1.clone()));
            }
            proof {
                assert(files.deep_view() =~= f0.push(
                    (
                        if fs0[i as int].0 == from@ {
                            to@
                        } else {
                            fs0[i as int].0
                        },
                        fs0[i as int].1,
                    ),
                ));
            }
            i = i + 1;
        }
        self.files = files;
    }
}

} // verus!
