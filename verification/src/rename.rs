//! The rename operation: changes a board's identity consistently across
//! the board index, the board list, and — through the returned plan — the
//! directory layout.
//!
//! The operation is pure on the snapshot: it mutates the in-memory
//! configuration and returns the directory and file renames the caller must
//! perform, conditioned on what the snapshot shows to exist.  On a refusal
//! nothing changes and the plan is never produced.

use vstd::prelude::*;
use vstd::string::*;
use crate::model::{
    alist_has, has_board, ADJConfig, ADJConfigV, AdjError, BoardEntry, BoardEntryV,
};
use crate::store::{spec_file_at, FileStore, FileStoreV};
use crate::text::{
    board_dir, join_path, manifest_path, measurements_file, spec_board_dir, spec_join,
    spec_manifest_path, spec_measurements_file, str_eq,
};

verus! {

/// The directory and file renames a successful board rename asks of the
/// caller.
#[derive(Debug)]
pub struct RenamePlan {
    /// The old and new board name, where the board directory exists in the
    /// snapshot and must be renamed; `None` where no directory exists.
    pub dir_rename: Option<(String, String)>,
    /// File renames inside the already-renamed directory, in order: each
    /// pair is a full relative path before and after.
    pub file_renames: Vec<(String, String)>,
}

/// Mathematical mirror of [`RenamePlan`].
pub ghost struct RenamePlanV {
    pub dir_rename: Option<(Seq<char>, Seq<char>)>,
    pub file_renames: Seq<(Seq<char>, Seq<char>)>,
}

impl DeepView for RenamePlan {
    type V = RenamePlanV;

    open spec fn deep_view(&self) -> RenamePlanV {
        RenamePlanV {
            dir_rename: self.dir_rename.deep_view(),
            file_renames: self.file_renames.deep_view(),
        }
    }
}

/// The pairs of `ps` whose key is not `k`, in order.
pub open spec fn alist_without(ps: Seq<(Seq<char>, Seq<char>)>, k: Seq<char>) -> Seq<
    (Seq<char>, Seq<char>),
>
    decreases ps.len(),
{
    if ps.len() == 0 {
        Seq::empty()
    } else if ps.last().0 == k {
        alist_without(ps.drop_last(), k)
    } else {
        alist_without(ps.drop_last(), k).push(ps.last())
    }
}

/// The board list after a rename: the old and new keys taken out, then the
/// new name mapped to its canonical manifest path.
pub open spec fn spec_renamed_index(
    ps: Seq<(Seq<char>, Seq<char>)>,
    old_name: Seq<char>,
    new_name: Seq<char>,
) -> Seq<(Seq<char>, Seq<char>)> {
    alist_without(alist_without(ps, old_name), new_name).push(
        (new_name, spec_manifest_path(new_name)),
    )
}

/// The plan a successful rename returns, as the snapshot dictates: the
/// directory rename where the board directory exists, and inside it one
/// rename per present file — the manifest and the measurements file.
pub open spec fn spec_rename_plan(
    old_name: Seq<char>,
    new_name: Seq<char>,
    s: FileStoreV,
) -> RenamePlanV {
    if s.board_dirs.contains(old_name) {
        let manifest_move: Seq<(Seq<char>, Seq<char>)> = if spec_file_at(
            s.files,
            spec_manifest_path(old_name),
        ) is Some {
            seq![
                (
                    spec_join(spec_board_dir(new_name), old_name + ".json"@),
                    spec_manifest_path(new_name),
                ),
            ]
        } else {
            Seq::empty()
        };
        let measurements_move: Seq<(Seq<char>, Seq<char>)> = if spec_file_at(
            s.files,
            spec_join(spec_board_dir(old_name), spec_measurements_file(old_name)),
        ) is Some {
            seq![
                (
                    spec_join(spec_board_dir(new_name), spec_measurements_file(old_name)),
                    spec_join(spec_board_dir(new_name), spec_measurements_file(new_name)),
                ),
            ]
        } else {
            Seq::empty()
        };
        RenamePlanV {
            dir_rename: Some((old_name, new_name)),
            file_renames: manifest_move + measurements_move,
        }
    } else {
        RenamePlanV { dir_rename: None, file_renames: Seq::empty() }
    }
}

/// The first position in `bs` that carries the name `n`.
pub open spec fn spec_board_index(bs: Seq<BoardEntryV>, n: Seq<char>) -> int
    decreases bs.len(),
{
    if bs.len() == 0 {
        0
    } else if bs[0].name == n {
        0
    } else {
        1 + spec_board_index(bs.drop_first(), n)
    }
}

/// Finds the first board with the given name.
fn find_board(boards: &Vec<BoardEntry>, n: &str) -> (r: Option<usize>)
    ensures
        match r {
            Some(i) => has_board(boards.deep_view(), n@) && i == spec_board_index(
                boards.deep_view(),
                n@,
            ) && i < boards.deep_view().len() && boards.deep_view()[i as int].name == n@,
            None => !has_board(boards.deep_view(), n@),
        },
{
    let ghost bv: Seq<BoardEntryV> = boards.deep_view();
    proof {
        assert(bv.skip(0) =~= bv);
    }
    let mut i: usize = 0;
    while i < boards.len()
        invariant
            i <= boards.len(),
            bv == boards.deep_view(),
            bv.len() == boards@.len(),
            forall|k: int| 0 <= k < i ==> (#[trigger] bv[k]).name != n@,
            spec_board_index(bv, n@) == i + spec_board_index(bv.skip(i as int), n@),
        decreases boards.len() - i,
    {
        proof {
            assert(bv.skip(i as int)[0] == bv[i as int]);
            assert(bv.skip(i as int).drop_first() =~= bv.skip(i + 1));
        }
        if str_eq(boards[i].name.as_str(), n) {
            proof {
                assert(bv[i as int].name == n@);
            }
            return Some(i);
        }
        i = i + 1;
    }
    proof {
        assert forall|k: int| 0 <= k < bv.len() implies (#[trigger] bv[k]).name != n@ by {}
    }
    None
}

/// The pairs whose key is not `k`, in order.
fn alist_drop_key(ps: &Vec<(String, String)>, k: &str) -> (r: Vec<(String, String)>)
    ensures
        r.deep_view() == alist_without(ps.deep_view(), k@),
{
    let ghost dv: Seq<(Seq<char>, Seq<char>)> = ps.deep_view();
    let mut out: Vec<(String, String)> = Vec::new();
    proof {
        assert(out.deep_view() =~= alist_without(dv.take(0), k@));
    }
    let mut i: usize = 0;
    while i < ps.len()
        invariant
            i <= ps.len(),
            dv == ps.deep_view(),
            dv.len() == ps@.len(),
            out.deep_view() == alist_without(dv.take(i as int), k@),
        decreases ps.len() - i,
    {
        proof {
            assert(dv[i as int] == (ps@[i as int].0@, ps@[i as int].1@));
            assert(dv.take(i + 1).drop_last() =~= dv.take(i as int));
            assert(dv.take(i + 1).last() == dv[i as int]);
        }
        let ghost out0: Seq<(Seq<char>, Seq<char>)> = out.deep_view();
        if !str_eq(ps[i].0.as_str(), k) {
            out.push((ps[i].0.clone(), ps[i].1.clone()));
            proof {
                assert(out.deep_view() =~= out0.push(dv[i as int]));
            }
        }
        i = i + 1;
    }
    proof {
        assert(dv.take(dv.len() as int) =~= dv);
    }
    out
}

impl ADJConfig {
    /// Renames a board.  Refused with `Conflict` where `new_name` already
    /// identifies a board and with `NotFound` where `old_name` identifies
    /// none; on a refusal the configuration is left untouched.  On success
    /// the board list maps `new_name` to its canonical manifest path and no
    /// longer holds `old_name`, the board's record keeps everything but its
    /// name, and the returned plan holds exactly the directory and file
    /// renames the snapshot calls for.
    pub fn rename_board(&mut self, old_name: &str, new_name: &str, store: &FileStore) -> (r:
        Result<RenamePlan, AdjError>)
        ensures
            match r {
                Err(e) => *final (self) == *old(self) && (r matches Err(
                    AdjError::Conflict(n),
                ) ==> n@ == new_name@) && (r matches Err(AdjError::NotFound(n)) ==> n@
                    == old_name@) && (e is Conflict || e is NotFound) && (e is Conflict
                    <==> has_board(old(self).deep_view().boards, new_name@)) && (e is NotFound
                    ==> !has_board(old(self).deep_view().boards, old_name@)),
                Ok(plan) => !has_board(old(self).deep_view().boards, new_name@) && has_board(
                    old(self).deep_view().boards,
                    old_name@,
                ) && final (self).deep_view().general_info == old(self).deep_view().general_info
                    && final (self).deep_view().boards == old(self).deep_view().boards.update(
                    spec_board_index(old(self).deep_view().boards, old_name@),
                    BoardEntryV {
                        name: new_name@,
                        board: old(self).deep_view().boards[spec_board_index(
                            old(self).deep_view().boards,
                            old_name@,
                        )].board,
                    },
                ) && final (self).deep_view().board_list == spec_renamed_index(
                    old(self).deep_view().board_list,
                    old_name@,
                    new_name@,
                ) && plan.deep_view() == spec_rename_plan(old_name@, new_name@, store.deep_view()),
            },
    {
        if let Some(_) = find_board(&self.boards, new_name) {
            return Err(AdjError::Conflict(new_name.to_owned()));
        }
        let idx = match find_board(&self.boards, old_name) {
            Some(i) => i,
            None => {
                return Err(AdjError::NotFound(old_name.to_owned()));
            },
        };
        let without_old = alist_drop_key(&self.board_list, old_name);
        let mut new_list = alist_drop_key(&without_old, new_name);
        new_list.push((new_name.to_owned(), manifest_path(new_name)));
        self.board_list = new_list;
        proof {
            assert(self.deep_view().board_list =~= spec_renamed_index(
                old(self).deep_view().board_list,
                old_name@,
                new_name@,
            ));
        }
        let mut plan = RenamePlan { dir_rename: None, file_renames: Vec::new() };
        if store.board_dir_exists(old_name) {
            plan.dir_rename = Some((old_name.to_owned(), new_name.to_owned()));
            let new_dir = board_dir(new_name);
            let ghost manifest_move: Seq<(Seq<char>, Seq<char>)> = if spec_file_at(
                store.deep_view().files,
                spec_manifest_path(old_name@),
            ) is Some {
                seq![
                    (
                        spec_join(spec_board_dir(new_name@), old_name@ + ".json"@),
                        spec_manifest_path(new_name@),
                    ),
                ]
            } else {
                Seq::empty()
            };
            if store.file_exists(manifest_path(old_name).as_str()) {
                let mut old_json = String::new();
                old_json.append(old_name);
                old_json.append(".json");
                proof {
                    assert(Seq::<char>::empty() + old_name@ + ".json"@ =~= old_name@ + ".json"@);
                }
                plan.file_renames.push(
                    (join_path(new_dir.as_str(), old_json.as_str()), manifest_path(new_name)),
                );
            }
            proof {
                assert(plan.file_renames.deep_view() =~= manifest_move);
            }
            let old_meas_path = join_path(board_dir(old_name).as_str(), measurements_file(old_name).as_str());
            if store.file_exists(old_meas_path.as_str()) {
                plan.file_renames.push(
                    (
                        join_path(new_dir.as_str(), measurements_file(old_name).as_str()),
                        join_path(new_dir.as_str(), measurements_file(new_name).as_str()),
                    ),
                );
                proof {
                    assert(plan.file_renames.deep_view() =~= manifest_move + seq![
                        (
                            spec_join(spec_board_dir(new_name@), spec_measurements_file(old_name@)),
                            spec_join(spec_board_dir(new_name@), spec_measurements_file(new_name@)),
                        ),
                    ]);
                }
            } else {
                proof {
                    assert(plan.file_renames.deep_view() =~= manifest_move
                        + Seq::<(Seq<char>, Seq<char>)>::empty());
                }
            }
        }
        proof {
            if !store.deep_view().board_dirs.contains(old_name@) {
                assert(plan.file_renames.deep_view() =~= Seq::<(Seq<char>, Seq<char>)>::empty());
            }
            assert(plan.deep_view() == spec_rename_plan(old_name@, new_name@, store.deep_view()));
        }
        let ghost bs0: Seq<BoardEntryV> = old(self).deep_view().boards;
        let e = self.boards.remove(idx);
        let renamed = BoardEntry { name: new_name.to_owned(), board: e.board };
        self.boards.insert(idx, renamed);
        proof {
            assert(self.deep_view().boards =~= bs0.update(
                idx as int,
                BoardEntryV { name: new_name@, board: bs0[idx as int].board },
            ));
        }
        Ok(plan)
    }
}

} // verus!
