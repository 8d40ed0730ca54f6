//! Text comparison and the path arithmetic of the managed tree.
//!
//! Paths are plain strings relative to the configuration root, joined with
//! `/`.  The canonical places of a board's files are fixed by its name:
//! `boards/<name>/<name>.json` for the manifest and
//! `boards/<name>/<name>_measurements.json` for its measurement list.

use vstd::prelude::*;
use vstd::string::*;

verus! {

/// Whether two pieces of text hold the same characters.
pub fn str_eq(a: &str, b: &str) -> (r: bool)
    ensures
        r == (a@ == b@),
{
    let la = a.unicode_len();
    let lb = b.unicode_len();
    if la != lb {
        return false;
    }
    let mut i: usize = 0;
    while i < la
        invariant
            i <= la,
            la == a@.len(),
            la == b@.len(),
            forall|k: int| 0 <= k < i ==> a@[k] == b@[k],
        decreases la - i,
    {
        let ca = a.get_char(i);
        let cb = b.get_char(i);
        if ca != cb {
            return false;
        }
        i = i + 1;
    }
    proof {
        assert(a@ =~= b@);
    }
    true
}

/// `dir` and `name` joined with a slash; just `name` where `dir` is empty.
pub open spec fn spec_join(dir: Seq<char>, name: Seq<char>) -> Seq<char> {
    if dir.len() == 0 {
        name
    } else {
        dir + seq!['/'] + name
    }
}

/// Joins a directory and a file name into one relative path.
pub fn join_path(dir: &str, name: &str) -> (r: String)
    ensures
        r@ == spec_join(dir@, name@),
{
    let mut out = String::new();
    if dir.unicode_len() > 0 {
        out.append(dir);
        out.append("/");
        proof {
            reveal_strlit("/");
            assert(Seq::<char>::empty() + dir@ + "/"@ =~= dir@ + seq!['/']);
        }
    }
    out.append(name);
    proof {
        if dir@.len() == 0 {
            assert(Seq::<char>::empty() + name@ =~= name@);
        } else {
            assert(dir@ + seq!['/'] + name@ =~= spec_join(dir@, name@));
        }
    }
    out
}

/// The directory part of a relative path: everything before the last slash,
/// empty where the path holds none.
pub open spec fn spec_dir_of(p: Seq<char>) -> Seq<char>
    decreases p.len(),
{
    if p.len() == 0 {
        Seq::empty()
    } else if p.last() == '/' {
        p.drop_last()
    } else {
        spec_dir_of(p.drop_last())
    }
}

/// The directory a relative path points into.
pub fn dir_of(p: &str) -> (r: String)
    ensures
        r@ == spec_dir_of(p@),
{
    let len = p.unicode_len();
    proof {
        assert(p@.take(len as int) =~= p@);
    }
    let mut i: usize = len;
    while i > 0
        invariant
            i <= len,
            len == p@.len(),
            spec_dir_of(p@) == spec_dir_of(p@.take(i as int)),
        decreases i,
    {
        let c = p.get_char(i - 1);
        proof {
            assert(p@.take(i as int).last() == p@[i - 1]);
            assert(p@.take(i as int).drop_last() =~= p@.take(i - 1));
        }
        if c == '/' {
            let pre = p.substring_char(0, i - 1);
            return pre.to_owned();
        }
        i = i - 1;
    }
    proof {
        assert(p@.take(0) =~= Seq::<char>::empty());
    }
    String::new()
}

/// The directory that holds a board's files: `boards/<name>`.
pub open spec fn spec_board_dir(name: Seq<char>) -> Seq<char> {
    "boards/"@ + name
}

/// Builds the board directory path from the board name.
pub fn board_dir(name: &str) -> (r: String)
    ensures
        r@ == spec_board_dir(name@),
{
    let mut out = String::new();
    out.append("boards/");
    out.append(name);
    proof {
        assert(Seq::<char>::empty() + "boards/"@ + name@ =~= spec_board_dir(name@));
    }
    out
}

/// The canonical relative path of a board's manifest:
/// `boards/<name>/<name>.json`.
pub open spec fn spec_manifest_path(name: Seq<char>) -> Seq<char> {
    "boards/"@ + name + "/"@ + name + ".json"@
}

/// Builds the canonical manifest path from the board name.
pub fn manifest_path(name: &str) -> (r: String)
    ensures
        r@ == spec_manifest_path(name@),
{
    let mut out = String::new();
    out.append("boards/");
    out.append(name);
    out.append("/");
    out.append(name);
    out.append(".json");
    proof {
        assert(Seq::<char>::empty() + "boards/"@ + name@ + "/"@ + name@ + ".json"@
            =~= spec_manifest_path(name@));
    }
    out
}

/// The file name of a board's measurement list: `<name>_measurements.json`.
pub open spec fn spec_measurements_file(name: Seq<char>) -> Seq<char> {
    name + "_measurements.json"@
}

/// Builds the measurements file name from the board name.
pub fn measurements_file(name: &str) -> (r: String)
    ensures
        r@ == spec_measurements_file(name@),
{
    let mut out = String::new();
    out.append(name);
    out.append("_measurements.json");
    proof {
        assert(Seq::<char>::empty() + name@ + "_measurements.json"@ =~= spec_measurements_file(
            name@,
        ));
    }
    out
}

/// Whether `s` begins with `pre`.
pub open spec fn spec_starts_with(s: Seq<char>, pre: Seq<char>) -> bool {
    s.len() >= pre.len() && s.take(pre.len() as int) == pre
}

/// Whether one piece of text begins with another.
pub fn str_starts_with(s: &str, pre: &str) -> (r: bool)
    ensures
        r == spec_starts_with(s@, pre@),
{
    let ls = s.unicode_len();
    let lp = pre.unicode_len();
    if ls < lp {
        return false;
    }
    let mut i: usize = 0;
    while i < lp
        invariant
            i <= lp,
            ls == s@.len(),
            lp == pre@.len(),
            lp <= ls,
            forall|k: int| 0 <= k < i ==> s@[k] == pre@[k],
        decreases lp - i,
    {
        let cs = s.get_char(i);
        let cp = pre.get_char(i);
        if cs != cp {
            proof {
                assert(s@.take(lp as int)[i as int] != pre@[i as int]);
            }
            return false;
        }
        i = i + 1;
    }
    proof {
        assert(s@.take(lp as int) =~= pre@);
    }
    true
}

/// `s` with its first `n` characters replaced by `pre`.
pub open spec fn spec_replace_prefix(s: Seq<char>, n: nat, pre: Seq<char>) -> Seq<char> {
    pre + s.skip(n as int)
}

/// Replaces the first `n` characters of `s` with `pre`.
pub fn replace_prefix(s: &str, n: usize, pre: &str) -> (r: String)
    requires
        n <= s@.len(),
    ensures
        r@ == spec_replace_prefix(s@, n as nat, pre@),
{
    let ls = s.unicode_len();
    let tail = s.substring_char(n, ls);
    let mut out = String::new();
    out.append(pre);
    out.append(tail);
    proof {
        assert(s@.subrange(n as int, ls as int) =~= s@.skip(n as int));
        assert(Seq::<char>::empty() + pre@ + s@.skip(n as int) =~= spec_replace_prefix(
            s@,
            n as nat,
            pre@,
        ));
    }
    out
}

/// Clones a list of strings, keeping every character.
pub fn clone_strings(v: &Vec<String>) -> (r: Vec<String>)
    ensures
        r.deep_view() == v.deep_view(),
{
    let mut out: Vec<String> = Vec::new();
    proof {
        assert(out.deep_view() =~= v.deep_view().take(0));
    }
    let mut i: usize = 0;
    while i < v.len()
        invariant
            i <= v.len(),
            v@.len() == v.deep_view().len(),
            out.deep_view() == v.deep_view().take(i as int),
        decreases v.len() - i,
    {
        let ghost out0: Seq<Seq<char>> = out.deep_view();
        out.push(v[i].clone());
        proof {
            assert(out.deep_view() =~= out0.push(v@[i as int]@));
            assert(v.deep_view().take(i + 1) =~= v.deep_view().take(i as int).push(
                v@[i as int]@,
            ));
        }
        i = i + 1;
    }
    proof {
        assert(v.deep_view().take(v@.len() as int) =~= v.deep_view());
    }
    out
}

} // verus!
